//! Looking into directories for files to import. It is decided here what is read next, and what was
//! found is taken in order; the reading is done elsewhere.

use vstd::prelude::*;
use crate::imports::{
    found_inside, scan_directory_entry, scanned_views, unreadable_directory, PathKind, ScanEntry,
    Scanned,
};
use crate::text::{
    ascii_lowercase, before, is_before, lemma_order_is_total, lemma_order_is_transitive,
    to_ascii_lowercase,
};

verus! {

// ---- What is in a directory ----

/// Something inside a directory: its name, its path, and what it is or why that cannot be told.
#[derive(Debug)]
pub struct InsideEntry {
    pub name: String,
    pub path: String,
    pub kind: Result<PathKind, String>,
}

/// [`InsideEntry`] by characters.
#[verifier::ext_equal]
pub struct Inside {
    pub name: Seq<char>,
    pub path: Seq<char>,
    pub kind: Result<PathKind, Seq<char>>,
}

impl View for InsideEntry {
    type V = Inside;

    open spec fn view(&self) -> Inside {
        Inside {
            name: self.name@,
            path: self.path@,
            kind: match self.kind {
                Ok(kind) => Ok(kind),
                Err(reason) => Err(reason@),
            },
        }
    }
}

/// The entries by views.
pub open spec fn inside_views(entries: Seq<InsideEntry>) -> Seq<Inside> {
    entries.map_values(|entry: InsideEntry| entry@)
}

/// One entry comes before another: by name, without regard to the case of ASCII letters.
pub open spec fn named_before(left: Inside, right: Inside) -> bool {
    before(ascii_lowercase(left.name), ascii_lowercase(right.name))
}

/// The ordered list with one more entry; entries whose names are alike keep their order.
pub open spec fn with_entry(list: Seq<Inside>, entry: Inside) -> Seq<Inside>
    decreases list.len(),
{
    if list.len() == 0 || !named_before(entry, list.last()) {
        list.push(entry)
    } else {
        with_entry(list.drop_last(), entry).push(list.last())
    }
}

/// The entries of a directory in the order in which they are imported.
pub open spec fn in_name_order(entries: Seq<Inside>) -> Seq<Inside>
    decreases entries.len(),
{
    if entries.len() == 0 {
        Seq::empty()
    } else {
        with_entry(in_name_order(entries.drop_last()), entries.last())
    }
}

fn insert_entry(list: &mut Vec<InsideEntry>, entry: InsideEntry)
    ensures
        inside_views(final(list)@) == with_entry(inside_views(old(list)@), entry@),
{
    let ghost all = inside_views(list@);
    let ghost added = entry@;
    let key = to_ascii_lowercase(entry.name.as_str());
    let mut at: usize = list.len();
    assert(all.take(at as int) =~= all);
    assert(with_entry(all, added) =~= with_entry(all.take(at as int), added) + all.skip(at as int));
    while at > 0 && is_before(key.as_str(), to_ascii_lowercase(list[at - 1].name.as_str()).as_str())
        invariant
            at <= list@.len(),
            key@ == ascii_lowercase(added.name),
            all == inside_views(list@),
            with_entry(all, added) == with_entry(all.take(at as int), added) + all.skip(at as int),
        decreases at,
    {
        let ghost head = all.take(at as int);
        assert(head.last() == list@[at - 1]@);
        assert(head.drop_last() =~= all.take(at - 1));
        assert(with_entry(head.drop_last(), added).push(head.last()) + all.skip(at as int)
            =~= with_entry(head.drop_last(), added) + all.skip(at - 1));
        at = at - 1;
    }
    proof {
        if at > 0 {
            assert(all.take(at as int).last() == list@[at - 1]@);
        }
    }
    list.insert(at, entry);
    assert(inside_views(list@) =~= all.take(at as int).push(added) + all.skip(at as int));
}

/// The entries of a directory in the order in which they are imported.
pub fn sort_entries(entries: Vec<InsideEntry>) -> (list: Vec<InsideEntry>)
    ensures
        inside_views(list@) == in_name_order(inside_views(entries@)),
{
    let ghost all = inside_views(entries@);
    let mut rest = entries;
    let mut reversed: Vec<InsideEntry> = Vec::new();
    while rest.len() > 0
        invariant
            rest@.len() + reversed@.len() == all.len(),
            forall|i: int| 0 <= i < rest@.len() ==> (#[trigger] rest@[i])@ == all[i],
            forall|i: int|
                0 <= i < reversed@.len() ==> (#[trigger] reversed@[i])@ == all[all.len() - 1 - i],
        decreases rest@.len(),
    {
        if let Some(entry) = rest.pop() {
            reversed.push(entry);
        }
    }
    let mut list: Vec<InsideEntry> = Vec::new();
    assert(inside_views(list@) =~= in_name_order(all.take(0)));
    while reversed.len() > 0
        invariant
            reversed@.len() <= all.len(),
            forall|i: int|
                0 <= i < reversed@.len() ==> (#[trigger] reversed@[i])@ == all[all.len() - 1 - i],
            inside_views(list@) == in_name_order(all.take(all.len() - reversed@.len())),
        decreases reversed@.len(),
    {
        let ghost done = all.len() - reversed@.len();
        assert(reversed@[reversed@.len() - 1]@ == all[done]);
        assert(all.take(done + 1).drop_last() =~= all.take(done));
        assert(all.take(done + 1).last() == all[done]);
        if let Some(entry) = reversed.pop() {
            insert_entry(&mut list, entry);
        }
    }
    assert(all.take(all.len() as int) =~= all);
    list
}

// ---- Looking into directories ----

/// How far the search is: what is still to be looked at, the last of it first, and what was found.
#[verifier::ext_equal]
pub struct Scanning {
    pub tasks: Seq<Inside>,
    pub found: Seq<Scanned>,
}

/// The search up to the next directory that has to be read.
pub open spec fn settled(scanning: Scanning) -> (Option<Seq<char>>, Scanning)
    decreases scanning.tasks.len(),
{
    if scanning.tasks.len() == 0 {
        (None, scanning)
    } else {
        let task = scanning.tasks.last();
        let rest = scanning.tasks.drop_last();
        match found_inside(task.path, task.kind) {
            Ok(entry) => settled(Scanning { tasks: rest, found: scanning.found.push(entry) }),
            Err(directory) => (
                Some(directory),
                Scanning { tasks: rest, found: scanning.found },
            ),
        }
    }
}

/// The search after a directory was read: what is in it comes next, in the order of the names; or what
/// is told where it cannot be read.
pub open spec fn entered(
    scanning: Scanning,
    directory: Seq<char>,
    listing: Result<Seq<Inside>, (bool, Seq<char>)>,
) -> Scanning {
    match listing {
        Ok(entries) => Scanning {
            tasks: scanning.tasks + in_name_order(entries).reverse(),
            found: scanning.found,
        },
        Err((listed, reason)) => Scanning {
            tasks: scanning.tasks,
            found: scanning.found.push(
                Scanned::Failed(
                    directory,
                    (if listed {
                        "无法读取文件夹内容："@
                    } else {
                        "无法扫描文件夹："@
                    }) + reason,
                ),
            ),
        },
    }
}

/// Why a directory cannot be read; `listed` tells whether its reading had begun.
#[derive(Debug)]
pub struct ListingFailure {
    pub listed: bool,
    pub reason: String,
}

/// The search of directories for files to import.
pub struct ImportWalk {
    tasks: Vec<InsideEntry>,
    found: Vec<ScanEntry>,
}

impl View for ImportWalk {
    type V = Scanning;

    closed spec fn view(&self) -> Scanning {
        Scanning { tasks: inside_views(self.tasks@), found: scanned_views(self.found@) }
    }
}

impl ImportWalk {
    /// A search that has found nothing yet.
    pub fn new() -> (walk: ImportWalk)
        ensures
            walk@ == (Scanning { tasks: Seq::empty(), found: Seq::empty() }),
    {
        let walk = ImportWalk { tasks: Vec::new(), found: Vec::new() };
        assert(walk@ =~= Scanning { tasks: Seq::empty(), found: Seq::empty() });
        walk
    }

    /// Takes an entry that was chosen by the user.
    pub fn add(&mut self, entry: ScanEntry)
        ensures
            final(self)@ == (Scanning {
                tasks: old(self)@.tasks,
                found: old(self)@.found.push(entry@),
            }),
    {
        let ghost before = self@.found;
        let ghost added = entry@;
        self.found.push(entry);
        assert(self@.found =~= before.push(added));
    }

    /// Goes on to the next directory that has to be read; none where all was looked at.
    pub fn next_directory(&mut self) -> (directory: Option<String>)
        ensures
            (crate::text::optional(directory), final(self)@) == settled(old(self)@),
    {
        while self.tasks.len() > 0
            invariant
                settled(self@) == settled(old(self)@),
            decreases self.tasks@.len(),
        {
            let ghost before = self@;
            match self.tasks.pop() {
                Some(task) => {
                    assert(before.tasks.last() == task@);
                    assert(self@.tasks =~= before.tasks.drop_last());
                    match scan_directory_entry(task.path, task.kind) {
                        Ok(entry) => {
                            let ghost added = entry@;
                            self.found.push(entry);
                            assert(self@.found =~= before.found.push(added));
                        },
                        Err(directory) => {
                            return Some(directory);
                        },
                    }
                },
                None => {},
            }
        }
        None
    }

    /// Takes what is in the directory that was read, or why it cannot be read.
    pub fn enter(&mut self, directory: String, listing: Result<Vec<InsideEntry>, ListingFailure>)
        ensures
            final(self)@ == entered(
                old(self)@,
                directory@,
                match listing {
                    Ok(entries) => Ok(inside_views(entries@)),
                    Err(failed) => Err((failed.listed, failed.reason@)),
                },
            ),
    {
        match listing {
            Err(failed) => {
                self.add(unreadable_directory(directory, failed.listed, failed.reason.as_str()));
            },
            Ok(entries) => {
                let ghost start = self@;
                let ghost order = in_name_order(inside_views(entries@));
                let mut rest = sort_entries(entries);
                let ghost total = rest@.len();
                let ghost back = order.reverse();
                while rest.len() > 0
                    invariant
                        rest@.len() <= total,
                        total == order.len(),
                        back == order.reverse(),
                        forall|i: int| 0 <= i < rest@.len() ==> (#[trigger] rest@[i])@ == order[i],
                        self@.found == start.found,
                        self@.tasks == start.tasks + back.take(total - rest@.len()),
                    decreases rest@.len(),
                {
                    let ghost before = self@.tasks;
                    let ghost done = total - rest@.len();
                    assert(rest@[rest@.len() - 1]@ == back[done]);
                    if let Some(entry) = rest.pop() {
                        self.tasks.push(entry);
                        assert(self@.tasks =~= before.push(back[done]));
                        assert(back.take(done + 1) =~= back.take(done).push(back[done]));
                    }
                }
                assert(back.take(total as int) =~= back);
                assert(self@.tasks =~= start.tasks + back);
            },
        }
    }

    /// What was found.
    pub fn into_entries(self) -> (entries: Vec<ScanEntry>)
        ensures
            scanned_views(entries@) == self@.found,
    {
        self.found
    }
}

// ---- Laws ----

/// Nothing in the list is a directory.
pub open spec fn flat(entries: Seq<Inside>) -> bool {
    forall|i: int|
        0 <= i < entries.len() ==> found_inside(
            (#[trigger] entries[i]).path,
            entries[i].kind,
        ) is Ok
}

/// What is told of the entries of a list.
pub open spec fn told(entries: Seq<Inside>) -> Seq<Scanned> {
    entries.map_values(|entry: Inside| found_inside(entry.path, entry.kind)->Ok_0)
}

/// A directory without others in it gives one entry for each thing in it, in the order of the names,
/// before anything that was to be looked at next.
pub proof fn directories_are_taken_in_order(
    scanning: Scanning,
    directory: Seq<char>,
    entries: Seq<Inside>,
)
    requires
        flat(in_name_order(entries)),
    ensures
        settled(entered(scanning, directory, Ok(entries))) == settled(
            Scanning {
                tasks: scanning.tasks,
                found: scanning.found + told(in_name_order(entries)),
            },
        ),
{
    lemma_taken(scanning, in_name_order(entries));
}

proof fn lemma_taken(scanning: Scanning, order: Seq<Inside>)
    requires
        flat(order),
    ensures
        settled(
            Scanning { tasks: scanning.tasks + order.reverse(), found: scanning.found },
        ) == settled(
            Scanning { tasks: scanning.tasks, found: scanning.found + told(order) },
        ),
    decreases order.len(),
{
    let all = Scanning { tasks: scanning.tasks + order.reverse(), found: scanning.found };
    if order.len() > 0 {
        let rest = order.skip(1);
        let entry = found_inside(order[0].path, order[0].kind)->Ok_0;
        assert(all.tasks.last() == order[0]);
        assert(all.tasks.drop_last() =~= scanning.tasks + rest.reverse());
        assert forall|i: int| 0 <= i < rest.len() implies found_inside(
            (#[trigger] rest[i]).path,
            rest[i].kind,
        ) is Ok by {
            assert(rest[i] == order[i + 1]);
        }
        let next = Scanning { tasks: scanning.tasks, found: scanning.found.push(entry) };
        lemma_taken(next, rest);
        assert(scanning.found.push(entry) + told(rest) =~= scanning.found + told(order));
    } else {
        assert(all.tasks =~= scanning.tasks);
        assert(scanning.found + told(order) =~= scanning.found);
    }
}

/// Putting the entries of a directory in order loses and repeats none of them.
pub proof fn ordering_keeps_every_entry(entries: Seq<Inside>)
    ensures
        in_name_order(entries).to_multiset() == entries.to_multiset(),
    decreases entries.len(),
{
    broadcast use vstd::seq_lib::group_to_multiset_ensures;

    if entries.len() > 0 {
        ordering_keeps_every_entry(entries.drop_last());
        lemma_with_entry(in_name_order(entries.drop_last()), entries.last());
        assert(entries =~= entries.drop_last().push(entries.last()));
    }
}

proof fn lemma_with_entry(list: Seq<Inside>, entry: Inside)
    ensures
        with_entry(list, entry).to_multiset() == list.to_multiset().insert(entry),
    decreases list.len(),
{
    broadcast use vstd::seq_lib::group_to_multiset_ensures;

    if list.len() > 0 && named_before(entry, list.last()) {
        lemma_with_entry(list.drop_last(), entry);
        assert(list =~= list.drop_last().push(list.last()));
        assert(with_entry(list, entry).to_multiset() =~= list.to_multiset().insert(entry));
    }
}

/// What is in a directory is taken by name, without regard to the case of letters: nothing comes before
/// something whose name stands before its own.
pub proof fn entries_come_by_name(entries: Seq<Inside>)
    ensures
        forall|i: int, j: int|
            0 <= i < j < in_name_order(entries).len() ==> !before(
                ascii_lowercase((#[trigger] in_name_order(entries)[j]).name),
                ascii_lowercase((#[trigger] in_name_order(entries)[i]).name),
            ),
    decreases entries.len(),
{
    if entries.len() > 0 {
        entries_come_by_name(entries.drop_last());
        lemma_entry_in_its_place(in_name_order(entries.drop_last()), entries.last());
    }
}

proof fn lemma_entry_in_its_place(list: Seq<Inside>, entry: Inside)
    requires
        forall|i: int, j: int|
            0 <= i < j < list.len() ==> !named_before(#[trigger] list[j], #[trigger] list[i]),
    ensures
        forall|i: int, j: int|
            0 <= i < j < with_entry(list, entry).len() ==> !named_before(
                #[trigger] with_entry(list, entry)[j],
                #[trigger] with_entry(list, entry)[i],
            ),
        forall|i: int|
            0 <= i < with_entry(list, entry).len() ==> list.contains(
                #[trigger] with_entry(list, entry)[i],
            ) || with_entry(list, entry)[i] == entry,
    decreases list.len(),
{
    let placed = with_entry(list, entry);
    let key = ascii_lowercase(entry.name);
    if list.len() == 0 || !named_before(entry, list.last()) {
        assert forall|i: int| 0 <= i < placed.len() implies list.contains(#[trigger] placed[i])
            || placed[i] == entry by {
            if i < list.len() {
                assert(list[i] == placed[i]);
            }
        }
        assert forall|i: int, j: int| 0 <= i < j < placed.len() implies !named_before(
            #[trigger] placed[j],
            #[trigger] placed[i],
        ) by {
            if j == list.len() {
                let last = list.last();
                assert(last == list[list.len() - 1]);
                assert(placed[i] == list[i]);
                if named_before(entry, list[i]) && i < list.len() - 1 {
                    let one = ascii_lowercase(list[i].name);
                    let other = ascii_lowercase(last.name);
                    assert(!named_before(list[list.len() - 1], list[i]));
                    assert(one.take(0) =~= other.take(0));
                    lemma_order_is_total(one, other, 0);
                    if one != other {
                        lemma_order_is_transitive(key, one, other, 0);
                    }
                }
            } else {
                assert(placed[i] == list[i] && placed[j] == list[j]);
            }
        }
    } else {
        let front = list.drop_last();
        let last = list.last();
        let rest = with_entry(front, entry);
        lemma_entry_in_its_place(front, entry);
        assert forall|i: int| 0 <= i < placed.len() implies list.contains(#[trigger] placed[i])
            || placed[i] == entry by {
            if i < rest.len() {
                assert(rest[i] == placed[i]);
                if front.contains(rest[i]) {
                    let k = choose|k: int| 0 <= k < front.len() && front[k] == rest[i];
                    assert(list[k] == placed[i]);
                }
            } else {
                assert(list[list.len() - 1] == placed[i]);
            }
        }
        assert forall|i: int, j: int| 0 <= i < j < placed.len() implies !named_before(
            #[trigger] placed[j],
            #[trigger] placed[i],
        ) by {
            if j == rest.len() {
                assert(placed[j] == last);
                assert(placed[i] == rest[i]);
                if front.contains(rest[i]) {
                    let k = choose|k: int| 0 <= k < front.len() && front[k] == rest[i];
                    assert(!named_before(list[list.len() - 1], list[k]));
                } else {
                    let other = ascii_lowercase(last.name);
                    assert(key.take(0) =~= other.take(0));
                    lemma_order_is_total(key, other, 0);
                }
            } else {
                assert(placed[i] == rest[i] && placed[j] == rest[j]);
            }
        }
    }
}

} // verus!
