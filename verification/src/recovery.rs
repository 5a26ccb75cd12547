//! Setting right what an interruption left behind: the names of files that are on their way, where the
//! copies of documents lie, deleting a document for good, and recovering interrupted work when a
//! library is opened.

use vstd::prelude::*;
use crate::copies::{
    acts, answers, can_become, performed, Act, Answer, Disk, FileAction, FileReply,
};
use crate::digest::{hex_text, sha256};
use crate::error::{failure, message_of, outcome, ErrorKind, Failure, LibraryError, LibraryResult};
use crate::locations::components;
use crate::paths::replace_char;
use crate::text::{
    chars, ends_with, has_prefix, has_suffix, list_contains, optional, pieces_of, same, sort_texts,
    sorted, split_chars, starts_with, text_of, views,
};

verus! {

// ---- Names of files on their way ----

/// How the name of a copy that is being deleted starts.
pub const DELETE_TOMBSTONE_PREFIX: &'static str = ".pdm-delete-";

/// How the name of a copy that is being deleted ends.
pub const DELETE_TOMBSTONE_SUFFIX: &'static str = ".tombstone";

/// How the name of a copy that is being replaced ends.
pub const REPLACEMENT_BACKUP_SUFFIX: &'static str = ".previous";

/// How the name of a copy that is being made ends.
pub const IMPORT_TEMPORARY_SUFFIX: &'static str = ".importing";

/// What a file in the directory of a document is.
#[derive(Debug, Clone, Copy, PartialEq, Eq, Structural)]
pub enum ArtifactKind {
    /// The copy of a document that is being deleted.
    Tombstone,
    /// The copy that is being replaced.
    Backup,
    /// A copy that is being made.
    Temporary,
    /// A copy.
    Copy,
}

/// The name of a copy that is being deleted.
pub open spec fn tombstone_name(name: Seq<char>) -> bool {
    starts_with(name, DELETE_TOMBSTONE_PREFIX@) && ends_with(name, DELETE_TOMBSTONE_SUFFIX@)
}

/// The name of a copy that is being replaced.
pub open spec fn backup_name(name: Seq<char>) -> bool {
    starts_with(name, "."@) && ends_with(name, REPLACEMENT_BACKUP_SUFFIX@)
}

/// The name of a copy that is being made.
pub open spec fn temporary_name(name: Seq<char>) -> bool {
    starts_with(name, "."@) && ends_with(name, IMPORT_TEMPORARY_SUFFIX@)
}

/// What a file is by its name.
pub open spec fn kind_named(name: Seq<char>) -> ArtifactKind {
    if tombstone_name(name) {
        ArtifactKind::Tombstone
    } else if backup_name(name) {
        ArtifactKind::Backup
    } else if temporary_name(name) {
        ArtifactKind::Temporary
    } else {
        ArtifactKind::Copy
    }
}

/// What a file is by its name.
pub fn artifact_kind(name: &str) -> (kind: ArtifactKind)
    ensures
        kind == kind_named(name@),
{
    let all = chars(name);
    let hidden = has_prefix(all.as_slice(), ".");
    if has_prefix(all.as_slice(), DELETE_TOMBSTONE_PREFIX) && has_suffix(
        all.as_slice(),
        DELETE_TOMBSTONE_SUFFIX,
    ) {
        ArtifactKind::Tombstone
    } else if hidden && has_suffix(all.as_slice(), REPLACEMENT_BACKUP_SUFFIX) {
        ArtifactKind::Backup
    } else if hidden && has_suffix(all.as_slice(), IMPORT_TEMPORARY_SUFFIX) {
        ArtifactKind::Temporary
    } else {
        ArtifactKind::Copy
    }
}

/// The name for a copy that is on its way; `unique` tells it from others.
pub open spec fn name_for(kind: ArtifactKind, unique: Seq<char>) -> Seq<char> {
    match kind {
        ArtifactKind::Tombstone => DELETE_TOMBSTONE_PREFIX@ + unique + DELETE_TOMBSTONE_SUFFIX@,
        ArtifactKind::Backup => "."@ + unique + REPLACEMENT_BACKUP_SUFFIX@,
        ArtifactKind::Temporary => "."@ + unique + IMPORT_TEMPORARY_SUFFIX@,
        ArtifactKind::Copy => unique,
    }
}

/// The name for a copy that is on its way.
pub fn artifact_name(kind: ArtifactKind, unique: &str) -> (name: String)
    ensures
        name@ == name_for(kind, unique@),
{
    let (lead, end): (&str, &str) = match kind {
        ArtifactKind::Tombstone => (DELETE_TOMBSTONE_PREFIX, DELETE_TOMBSTONE_SUFFIX),
        ArtifactKind::Backup => (".", REPLACEMENT_BACKUP_SUFFIX),
        ArtifactKind::Temporary => (".", IMPORT_TEMPORARY_SUFFIX),
        ArtifactKind::Copy => {
            return unique.to_owned();
        },
    };
    let mut name = lead.to_owned();
    name.append(unique);
    name.append(end);
    name
}

// ---- Where copies lie ----

/// A component of a path that leads from a directory into one below it.
pub open spec fn leads_down(component: Seq<char>) -> bool {
    component.len() > 0 && component != "."@ && component != ".."@
}

/// A drive stands at the start of the first component.
pub open spec fn names_drive(component: Seq<char>) -> bool {
    component.len() >= 2 && component[1] == ':' && ('a' <= component[0] <= 'z' || 'A' <= component[0]
        <= 'Z')
}

/// The components from `at` on that lead down; none where one leads elsewhere. Empty ones and dots
/// count for nothing, but for those at the start.
pub open spec fn down_from(pieces: Seq<Seq<char>>, at: int) -> Option<Seq<Seq<char>>>
    decreases pieces.len() - at,
{
    if at < 0 || at >= pieces.len() {
        Some(Seq::empty())
    } else {
        let piece = pieces[at];
        let first = at == 0;
        if piece == ".."@ || (first && (piece == "."@ || names_drive(piece))) || (first && piece.len()
            == 0 && pieces.len() > 1) {
            None
        } else {
            match down_from(pieces, at + 1) {
                None => None,
                Some(rest) => if leads_down(piece) {
                    Some(seq![piece] + rest)
                } else {
                    Some(rest)
                },
            }
        }
    }
}

/// The components of the path of a copy below the directory of its library, or that the path is
/// none.
pub open spec fn copy_components(library_path: Seq<char>) -> Result<Seq<Seq<char>>, Failure> {
    match down_from(components(library_path), 0) {
        Some(list) => Ok(list),
        None => Err(
            failure(ErrorKind::DocumentFileMissing, "资料库副本路径无效："@ + library_path),
        ),
    }
}

fn piece_leads_away(piece: &[char], first: bool, alone: bool) -> (found: bool)
    ensures
        found == (piece@ == ".."@ || (first && (piece@ == "."@ || names_drive(piece@))) || (first
            && piece@.len() == 0 && !alone)),
{
    let text = text_of(piece);
    let size: usize = piece.len();
    if same(text.as_str(), "..") {
        return true;
    }
    if !first {
        return false;
    }
    same(text.as_str(), ".") || (size == 0 && !alone) || (size >= 2 && piece[1] == ':' && (('a'
        <= piece[0] && piece[0] <= 'z') || ('A' <= piece[0] && piece[0] <= 'Z')))
}

/// The components of the path of a copy below the directory of its library. A path that leads out of
/// it is refused.
pub fn document_path(library_path: &str) -> (result: LibraryResult<Vec<String>>)
    ensures
        (match result {
            Ok(list) => Ok(views(list@)),
            Err(error) => Err(error@),
        }) == copy_components(library_path@),
{
    let even = chars(replace_char(library_path, '\\', '/').as_str());
    let pieces = split_chars(even.as_slice(), '/');
    let ghost list = pieces_of(pieces@);
    let size: usize = pieces.len();
    let mut found: Vec<String> = Vec::new();
    let mut i: usize = 0;
    proof {
        if let Some(rest) = down_from(list, 0) {
            assert(views(found@) + rest =~= rest);
        }
    }
    while i < size
        invariant
            i <= size,
            size == pieces@.len(),
            list == pieces_of(pieces@),
            list == components(library_path@),
            match down_from(list, i as int) {
                Some(rest) => down_from(list, 0) == Some(views(found@) + rest),
                None => down_from(list, 0) is None,
            },
        decreases size - i,
    {
        assert(list[i as int] == pieces@[i as int]@);
        if piece_leads_away(pieces[i].as_slice(), i == 0, size == 1) {
            let mut detail = "资料库副本路径无效：".to_owned();
            detail.append(library_path);
            return Err(LibraryError::DocumentFileMissing(detail));
        }
        let text = text_of(pieces[i].as_slice());
        let ghost before = views(found@);
        let ghost piece = text@;
        if pieces[i].len() > 0 && !same(text.as_str(), ".") {
            found.push(text);
            assert(views(found@) =~= before.push(piece));
            proof {
                if let Some(rest) = down_from(list, i + 1) {
                    assert(before + (seq![piece] + rest) =~= views(found@) + rest);
                }
            }
        }
        i = i + 1;
    }
    assert(views(found@) + Seq::<Seq<char>>::empty() =~= views(found@));
    Ok(found)
}

/// The error on a document whose copy cannot be where its record says.
pub fn invalid_copy_path(file_name: &str) -> (error: LibraryError)
    ensures
        error@ == failure(ErrorKind::DocumentFileMissing, "资料库副本路径无效："@ + file_name@),
{
    let mut detail = "资料库副本路径无效：".to_owned();
    detail.append(file_name);
    LibraryError::DocumentFileMissing(detail)
}

/// Checks that the copy of a document is there.
pub fn ensure_document_copy_exists(path: &str, is_file: bool) -> (result: LibraryResult<()>)
    ensures
        outcome(result) == (if is_file {
            Ok(())
        } else {
            Err(failure(ErrorKind::DocumentFileMissing, "资料库副本不存在："@ + path@))
        }),
{
    if is_file {
        return Ok(());
    }
    let mut detail = "资料库副本不存在：".to_owned();
    detail.append(path);
    Err(LibraryError::DocumentFileMissing(detail))
}

// ---- Deleting for good ----

/// What is found where the copy of a document should be.
#[derive(Debug)]
pub enum CopyProbe {
    File,
    NotFile,
    Missing,
    Failed(String),
}

/// How the deletion of a document goes on.
#[derive(Debug, Clone, Copy, PartialEq, Eq, Structural)]
pub enum DeletionStart {
    /// The copy is moved aside.
    MoveAside,
    /// The copy is gone; one that was moved aside before may be there.
    LookForTombstone,
}

/// How the deletion of a document starts, or why it does not.
pub open spec fn deletion_start(path: Seq<char>, probe: CopyProbe) -> Result<DeletionStart, Failure> {
    match probe {
        CopyProbe::File => Ok(DeletionStart::MoveAside),
        CopyProbe::NotFile => Err(
            failure(ErrorKind::DocumentFileMissing, "资料库副本路径不是文件："@ + path),
        ),
        CopyProbe::Missing => Ok(DeletionStart::LookForTombstone),
        CopyProbe::Failed(detail) => Err(failure(ErrorKind::Io, detail@)),
    }
}

/// How the deletion of a document starts.
pub fn start_deletion(path: &str, probe: CopyProbe) -> (result: LibraryResult<DeletionStart>)
    ensures
        (match result {
            Ok(start) => Ok(start),
            Err(error) => Err(error@),
        }) == deletion_start(path@, probe),
{
    match probe {
        CopyProbe::File => Ok(DeletionStart::MoveAside),
        CopyProbe::NotFile => {
            let mut detail = "资料库副本路径不是文件：".to_owned();
            detail.append(path);
            Err(LibraryError::DocumentFileMissing(detail))
        },
        CopyProbe::Missing => Ok(DeletionStart::LookForTombstone),
        CopyProbe::Failed(detail) => Err(LibraryError::Io(detail)),
    }
}

/// What became of the document whose copy was moved aside.
#[derive(Debug, Clone, Copy, PartialEq, Eq, Structural)]
pub enum TombstoneFate {
    /// It is still on record.
    Recorded,
    /// The database has just deleted it.
    Deleted,
    /// It is not on record, and was not when the library was opened.
    Stray,
}

/// What is done with a copy that was moved aside: it comes back where the document is still on record,
/// unless another one is in its place, and goes else.
pub open spec fn tombstone_act(
    fate: TombstoneFate,
    tombstone: Seq<char>,
    original: Seq<char>,
    original_exists: bool,
) -> Act {
    match fate {
        TombstoneFate::Recorded => if original_exists {
            Act::RemoveCopy(tombstone)
        } else {
            Act::Rename(tombstone, original)
        },
        TombstoneFate::Deleted => Act::RemoveCopy(tombstone),
        TombstoneFate::Stray => Act::RemoveFile(tombstone),
    }
}

/// What is done with a copy that was moved aside.
pub fn settle_tombstone(
    fate: TombstoneFate,
    tombstone: &str,
    original: &str,
    original_exists: bool,
) -> (action: FileAction)
    ensures
        action@ == tombstone_act(fate, tombstone@, original@, original_exists),
{
    match fate {
        TombstoneFate::Recorded => {
            if original_exists {
                FileAction::RemoveCopy(tombstone.to_owned())
            } else {
                FileAction::Rename(tombstone.to_owned(), original.to_owned())
            }
        },
        TombstoneFate::Deleted => FileAction::RemoveCopy(tombstone.to_owned()),
        TombstoneFate::Stray => FileAction::RemoveFile(tombstone.to_owned()),
    }
}

/// What a reply to an action on a copy that was moved aside means: an action that failed is an error.
pub fn tombstone_settled(reply: FileReply) -> (result: LibraryResult<()>)
    ensures
        outcome(result) == (match reply@ {
            Answer::Failed(reason) => Err(failure(ErrorKind::Io, reason)),
            _ => Ok(()),
        }),
{
    match reply {
        FileReply::Failed(reason) => Err(LibraryError::Io(reason)),
        _ => Ok(()),
    }
}

/// The reply to an action, by views; there may be none.
pub open spec fn reply_view(reply: Option<FileReply>) -> Option<Answer> {
    match reply {
        Some(reply) => Some(reply@),
        None => None,
    }
}

/// How a deletion ends, given what the database said and what became of the copy that was moved aside.
/// Once the database has deleted the document, a copy that stays behind is no error; where it has not,
/// a copy that did not come back is told of first.
pub open spec fn deletion_outcome(deleted: Result<(), Failure>, settled: Option<Answer>) -> Result<
    (),
    Failure,
> {
    match (deleted, settled) {
        (Ok(_), _) => Ok(()),
        (Err(_), Some(Answer::Failed(reason))) => Err(failure(ErrorKind::Io, reason)),
        (Err(error), _) => Err(error),
    }
}

/// How a deletion ends.
pub fn finish_deletion(deleted: LibraryResult<()>, settled: Option<FileReply>) -> (result:
    LibraryResult<()>)
    ensures
        outcome(result) == deletion_outcome(outcome(deleted), reply_view(settled)),
{
    match (deleted, settled) {
        (Ok(_), _) => Ok(()),
        (Err(_), Some(FileReply::Failed(reason))) => Err(LibraryError::Io(reason)),
        (Err(error), _) => Err(error),
    }
}

// ---- What an interruption left ----

/// What is done in the directory of a document.
#[derive(Debug)]
pub struct DirectoryPlan {
    /// The copies that were being deleted, in the order of their names. Each is restored where the
    /// document is recorded, and removed where it is not.
    pub tombstones: Vec<String>,
    /// What is left of replacements: the old copies first, then the new ones.
    pub leftovers: Vec<String>,
    /// One of the leftovers may have to become the copy; else they go.
    pub recover: bool,
}

/// [`DirectoryPlan`] by characters.
#[verifier::ext_equal]
pub struct Planned {
    pub tombstones: Seq<Seq<char>>,
    pub leftovers: Seq<Seq<char>>,
    pub recover: bool,
}

impl View for DirectoryPlan {
    type V = Planned;

    open spec fn view(&self) -> Planned {
        Planned {
            tombstones: views(self.tombstones@),
            leftovers: views(self.leftovers@),
            recover: self.recover,
        }
    }
}

/// The names of a kind, but for those that are copies on record.
pub open spec fn of_kind(names: Seq<Seq<char>>, kind: ArtifactKind, on_record: Seq<Seq<char>>) -> Seq<
    Seq<char>,
>
    decreases names.len(),
{
    if names.len() == 0 {
        Seq::empty()
    } else if kind_named(names.last()) == kind && !on_record.contains(names.last()) {
        of_kind(names.drop_last(), kind, on_record).push(names.last())
    } else {
        of_kind(names.drop_last(), kind, on_record)
    }
}

/// What is done in the directory of a document, given the names in it, those of them that are copies
/// on record, and whether the document is recorded and not deleted.
pub open spec fn directory_plan(
    names: Seq<Seq<char>>,
    on_record: Seq<Seq<char>>,
    present: bool,
) -> Planned {
    let leftovers = sorted(of_kind(names, ArtifactKind::Backup, on_record)) + sorted(
        of_kind(names, ArtifactKind::Temporary, on_record),
    );
    Planned {
        tombstones: sorted(of_kind(names, ArtifactKind::Tombstone, Seq::empty())),
        leftovers,
        recover: present && leftovers.len() > 0,
    }
}

fn names_of_kind(names: &Vec<String>, kind: ArtifactKind, on_record: &Vec<String>) -> (found: Vec<
    String,
>)
    ensures
        views(found@) == of_kind(views(names@), kind, views(on_record@)),
{
    let ghost all = views(names@);
    let mut found: Vec<String> = Vec::new();
    let mut i: usize = 0;
    assert(views(found@) =~= of_kind(all.take(0), kind, views(on_record@)));
    while i < names.len()
        invariant
            i <= names@.len(),
            all == views(names@),
            views(found@) == of_kind(all.take(i as int), kind, views(on_record@)),
        decreases names@.len() - i,
    {
        assert(all.take(i + 1).drop_last() =~= all.take(i as int));
        assert(all.take(i + 1).last() == names@[i as int]@);
        if artifact_kind(names[i].as_str()) == kind && !list_contains(
            on_record,
            names[i].as_str(),
        ) {
            let ghost before = views(found@);
            found.push(names[i].clone());
            assert(views(found@) =~= before.push(all[i as int]));
        }
        i = i + 1;
    }
    assert(all.take(i as int) =~= all);
    found
}

/// What is done in the directory of a document.
pub fn plan_directory(names: &Vec<String>, on_record: &Vec<String>, present: bool) -> (plan:
    DirectoryPlan)
    ensures
        plan@ == directory_plan(views(names@), views(on_record@), present),
{
    let nothing: Vec<String> = Vec::new();
    assert(views(nothing@) =~= Seq::empty());
    let tombstones = sort_texts(&names_of_kind(names, ArtifactKind::Tombstone, &nothing));
    let mut leftovers = sort_texts(&names_of_kind(names, ArtifactKind::Backup, on_record));
    let mut more = sort_texts(&names_of_kind(names, ArtifactKind::Temporary, on_record));
    let ghost first = views(leftovers@);
    let ghost second = views(more@);
    leftovers.append(&mut more);
    assert(views(leftovers@) =~= first + second);
    let recover = present && leftovers.len() > 0;
    DirectoryPlan { tombstones, leftovers, recover }
}

/// Whether a file holds what is recorded, given its hash where it could be computed. Without a recorded
/// hash every file does.
pub fn copy_matches_recorded_content(
    is_file: bool,
    content_hash: &Option<String>,
    hash: &Option<String>,
) -> (found: bool)
    ensures
        found == (is_file && (content_hash is None || optional(*hash) == optional(*content_hash))),
{
    if !is_file {
        return false;
    }
    match content_hash {
        None => true,
        Some(expected) => match hash {
            Some(hash) => same(hash.as_str(), expected.as_str()),
            None => false,
        },
    }
}

/// What becomes of an interrupted replacement.
#[derive(Debug, Clone, Copy, PartialEq, Eq, Structural)]
pub enum RecoveryChoice {
    /// The copy is what is recorded: the leftovers go.
    Clean,
    /// The leftover at this position becomes the copy.
    Adopt(usize),
    /// Nothing holds what is recorded: everything stays as it is.
    Fail,
}

/// The position of the first leftover from `at` on that holds what is recorded.
pub open spec fn first_match(matches: Seq<bool>, at: int) -> Option<int>
    decreases matches.len() - at,
{
    if at < 0 || at >= matches.len() {
        None
    } else if matches[at] {
        Some(at)
    } else {
        first_match(matches, at + 1)
    }
}

/// What becomes of an interrupted replacement, given whether the copy and the leftovers hold what is
/// recorded.
pub open spec fn recovery_choice(copy_matches: bool, matches: Seq<bool>) -> RecoveryChoice {
    if copy_matches {
        RecoveryChoice::Clean
    } else {
        match first_match(matches, 0) {
            Some(at) => RecoveryChoice::Adopt(at as usize),
            None => RecoveryChoice::Fail,
        }
    }
}

/// What becomes of an interrupted replacement.
pub fn choose_recovery(copy_matches: bool, matches: &Vec<bool>) -> (choice: RecoveryChoice)
    ensures
        choice == recovery_choice(copy_matches, matches@),
        choice matches RecoveryChoice::Adopt(at) ==> at < matches@.len() && matches@[at as int],
{
    if copy_matches {
        return RecoveryChoice::Clean;
    }
    let mut i: usize = 0;
    while i < matches.len()
        invariant
            i <= matches@.len(),
            !copy_matches,
            first_match(matches@, i as int) == first_match(matches@, 0),
        decreases matches@.len() - i,
    {
        if matches[i] {
            return RecoveryChoice::Adopt(i);
        }
        i = i + 1;
    }
    RecoveryChoice::Fail
}

/// The removals of the leftovers, but for the one at `kept`.
pub open spec fn removals(leftovers: Seq<Seq<char>>, kept: Option<int>) -> Seq<Act>
    decreases leftovers.len(),
{
    if leftovers.len() == 0 {
        Seq::empty()
    } else if kept == Some(leftovers.len() - 1) {
        removals(leftovers.drop_last(), kept)
    } else {
        removals(leftovers.drop_last(), kept).push(Act::RemoveCopy(leftovers.last()))
    }
}

/// What is done to files for this choice.
pub open spec fn recovery_acts(
    destination: Seq<char>,
    leftovers: Seq<Seq<char>>,
    choice: RecoveryChoice,
) -> Seq<Act> {
    match choice {
        RecoveryChoice::Clean => removals(leftovers, None),
        RecoveryChoice::Adopt(at) => seq![
            Act::RemoveCopy(destination),
            Act::Rename(leftovers[at as int], destination),
        ] + removals(leftovers, Some(at as int)),
        RecoveryChoice::Fail => Seq::empty(),
    }
}

fn add_removals(actions: &mut Vec<FileAction>, leftovers: &Vec<String>, kept: Option<usize>)
    ensures
        acts(final(actions)@) == acts(old(actions)@) + removals(
            views(leftovers@),
            match kept {
                Some(at) => Some(at as int),
                None => None,
            },
        ),
{
    let ghost all = views(leftovers@);
    let ghost start = acts(actions@);
    let ghost place = match kept {
        Some(at) => Some(at as int),
        None => None,
    };
    let mut i: usize = 0;
    assert(removals(all.take(0), place) =~= Seq::empty());
    while i < leftovers.len()
        invariant
            i <= leftovers@.len(),
            all == views(leftovers@),
            place == (match kept {
                Some(at) => Some(at as int),
                None => None,
            }),
            acts(actions@) == start + removals(all.take(i as int), place),
        decreases leftovers@.len() - i,
    {
        assert(all.take(i + 1).drop_last() =~= all.take(i as int));
        assert(all.take(i + 1).last() == leftovers@[i as int]@);
        let is_kept = match kept {
            Some(at) => at == i,
            None => false,
        };
        if !is_kept {
            let ghost before = acts(actions@);
            actions.push(FileAction::RemoveCopy(leftovers[i].clone()));
            assert(acts(actions@) =~= before.push(Act::RemoveCopy(all[i as int])));
        }
        i = i + 1;
    }
    assert(all.take(i as int) =~= all);
}

/// What is done to files for this choice.
fn recovery_actions(destination: &str, leftovers: &Vec<String>, choice: RecoveryChoice) -> (actions:
    Vec<FileAction>)
    requires
        choice matches RecoveryChoice::Adopt(at) ==> at < leftovers@.len(),
    ensures
        acts(actions@) == recovery_acts(destination@, views(leftovers@), choice),
{
    let mut actions: Vec<FileAction> = Vec::new();
    assert(acts(actions@) =~= Seq::empty());
    match choice {
        RecoveryChoice::Clean => {
            add_removals(&mut actions, leftovers, None);
        },
        RecoveryChoice::Adopt(at) => {
            actions.push(FileAction::RemoveCopy(destination.to_owned()));
            actions.push(FileAction::Rename(leftovers[at].clone(), destination.to_owned()));
            assert(acts(actions@) =~= seq![
                Act::RemoveCopy(destination@),
                Act::Rename(views(leftovers@)[at as int], destination@),
            ]);
            add_removals(&mut actions, leftovers, Some(at));
        },
        RecoveryChoice::Fail => {},
    }
    assert(acts(actions@) =~= recovery_acts(destination@, views(leftovers@), choice));
    actions
}

/// How many of the first actions put the copy in its place.
pub open spec fn placing_count(choice: RecoveryChoice) -> nat {
    if choice is Adopt {
        2
    } else {
        0
    }
}

/// A recovery on its way. Putting the copy in its place must succeed; the removal of leftovers, which
/// comes behind it, may fail.
#[derive(Debug)]
pub struct Recovery {
    pub actions: Vec<FileAction>,
    /// How many of the first actions put the copy in its place.
    pub placing: usize,
    /// How many actions were answered.
    pub answered: usize,
}

/// [`Recovery`] by characters.
#[verifier::ext_equal]
pub struct Recovering {
    pub acts: Seq<Act>,
    pub placing: nat,
    pub answered: nat,
}

impl View for Recovery {
    type V = Recovering;

    open spec fn view(&self) -> Recovering {
        Recovering {
            acts: acts(self.actions@),
            placing: self.placing as nat,
            answered: self.answered as nat,
        }
    }
}

/// A recovery at its start.
pub open spec fn recovery_start(
    destination: Seq<char>,
    leftovers: Seq<Seq<char>>,
    choice: RecoveryChoice,
) -> Recovering {
    Recovering {
        acts: recovery_acts(destination, leftovers, choice),
        placing: placing_count(choice),
        answered: 0,
    }
}

/// What follows an answer during a recovery.
#[verifier::ext_equal]
pub enum RecoveringStep {
    Next(Recovering),
    /// The copy could not be put in its place; nothing more is done.
    Failed(Failure),
}

/// What follows the answer.
pub open spec fn recovery_step(recovering: Recovering, answer: Answer) -> RecoveringStep {
    match answer {
        Answer::Failed(reason) if recovering.answered < recovering.placing => RecoveringStep::Failed(
            failure(ErrorKind::Io, reason),
        ),
        _ => RecoveringStep::Next(
            Recovering { answered: recovering.answered + 1, ..recovering },
        ),
    }
}

/// What follows an answer during a recovery.
#[derive(Debug)]
pub enum RecoveryStep {
    Next(Recovery),
    /// The copy could not be put in its place; nothing more is done.
    Failed(LibraryError),
}

impl View for RecoveryStep {
    type V = RecoveringStep;

    open spec fn view(&self) -> RecoveringStep {
        match *self {
            RecoveryStep::Next(recovery) => RecoveringStep::Next(recovery@),
            RecoveryStep::Failed(error) => RecoveringStep::Failed(error@),
        }
    }
}

impl Recovery {
    /// A recovery at its start.
    pub fn start(destination: &str, leftovers: &Vec<String>, choice: RecoveryChoice) -> (recovery:
        Recovery)
        requires
            choice matches RecoveryChoice::Adopt(at) ==> at < leftovers@.len(),
        ensures
            recovery@ == recovery_start(destination@, views(leftovers@), choice),
    {
        let placing: usize = match choice {
            RecoveryChoice::Adopt(_) => 2,
            _ => 0,
        };
        Recovery { actions: recovery_actions(destination, leftovers, choice), placing, answered: 0 }
    }

    /// The action that is awaited, or nothing at the end.
    pub fn action(&self) -> (action: Option<&FileAction>)
        ensures
            action is Some <==> self@.answered < self@.acts.len(),
            action matches Some(found) ==> found@ == self@.acts[self@.answered as int],
    {
        if self.answered < self.actions.len() {
            Some(&self.actions[self.answered])
        } else {
            None
        }
    }

    /// Takes in the answer to the action that was awaited.
    pub fn advance(self, reply: FileReply) -> (step: RecoveryStep)
        requires
            self@.answered < self@.acts.len(),
            answers(self@.acts[self@.answered as int], reply@),
        ensures
            step@ == recovery_step(self@, reply@),
    {
        if self.answered < self.placing {
            if let FileReply::Failed(reason) = reply {
                return RecoveryStep::Failed(LibraryError::Io(reason));
            }
        }
        assert(self.answered < self.actions.len());
        RecoveryStep::Next(Recovery { answered: self.answered + 1, ..self })
    }
}

/// A document whose copy could not be recovered, and why.
#[derive(Debug)]
pub struct RecoveryFailure {
    pub document_id: String,
    pub message: String,
}

/// The failure of a replacement of which nothing holds what is recorded.
pub fn unrecoverable(document_id: &str, destination: &str) -> (found: RecoveryFailure)
    ensures
        found.document_id@ == document_id@,
        found.message@
            == "上次替换副本未完成，且无法自动恢复：资料库副本与记录不一致（"@ + destination@
            + "）。请从源文件重新导入。"@,
{
    let mut message =
        "上次替换副本未完成，且无法自动恢复：资料库副本与记录不一致（".to_owned();
    message.append(destination);
    message.append("）。请从源文件重新导入。");
    RecoveryFailure { document_id: document_id.to_owned(), message }
}

/// An error that concerns the library, and not one document alone.
pub open spec fn concerns_library(kind: ErrorKind) -> bool {
    kind == ErrorKind::Database || kind == ErrorKind::Json
}

/// What an error in the directory of one document means: the document could not be recovered, or the
/// library cannot be opened.
pub fn isolate_failure(document_id: &str, error: LibraryError) -> (result: LibraryResult<
    RecoveryFailure,
>)
    ensures
        result is Err <==> concerns_library(error@.kind),
        result matches Err(found) ==> found@ == error@,
        result matches Ok(found) ==> found.document_id@ == document_id@ && found.message@
            == "上次中断的文件操作无法自动完成（"@ + message_of(error@)
            + "）。请关闭占用该文件的程序后重新打开资料库，或从源文件重新导入。"@,
{
    match error {
        LibraryError::Database(detail) => Err(LibraryError::Database(detail)),
        LibraryError::Json(detail) => Err(LibraryError::Json(detail)),
        other => {
            let mut message = "上次中断的文件操作无法自动完成（".to_owned();
            message.append(other.message().as_str());
            message.append(
                "）。请关闭占用该文件的程序后重新打开资料库，或从源文件重新导入。",
            );
            Ok(RecoveryFailure { document_id: document_id.to_owned(), message })
        },
    }
}

// ---- Laws ----

/// A file that is named for a purpose is known by its name again.
pub proof fn names_tell_their_purpose(kind: ArtifactKind, unique: Seq<char>)
    requires
        kind != ArtifactKind::Copy,
    ensures
        kind_named(name_for(kind, unique)) == kind,
{
    reveal_strlit(".");
    reveal_strlit(".pdm-delete-");
    reveal_strlit(".tombstone");
    reveal_strlit(".previous");
    reveal_strlit(".importing");
    let name = name_for(kind, unique);
    assert(DELETE_TOMBSTONE_PREFIX@.len() == 12);
    match kind {
        ArtifactKind::Tombstone => {
            assert(name.subrange(0, 12) =~= DELETE_TOMBSTONE_PREFIX@);
            assert(name.subrange(name.len() - 10, name.len() as int) =~= DELETE_TOMBSTONE_SUFFIX@);
        },
        ArtifactKind::Backup => {
            assert(name.subrange(0, 1) =~= "."@);
            let end = name.subrange(name.len() - 9, name.len() as int);
            assert(end =~= REPLACEMENT_BACKUP_SUFFIX@);
            assert(name.last() == end[8] && end[8] == 's');
            if ends_with(name, DELETE_TOMBSTONE_SUFFIX@) {
                let other = name.subrange(name.len() - 10, name.len() as int);
                assert(other[9] == name.last() && other[9] == 'e');
            }
        },
        ArtifactKind::Temporary => {
            assert(name.subrange(0, 1) =~= "."@);
            let end = name.subrange(name.len() - 10, name.len() as int);
            assert(end =~= IMPORT_TEMPORARY_SUFFIX@);
            assert(name.last() == end[9] && end[9] == 'g');
            if ends_with(name, DELETE_TOMBSTONE_SUFFIX@) {
                let other = name.subrange(name.len() - 10, name.len() as int);
                assert(other[9] == name.last() && other[9] == 'e');
            }
            if ends_with(name, REPLACEMENT_BACKUP_SUFFIX@) {
                let other = name.subrange(name.len() - 9, name.len() as int);
                assert(other[8] == name.last() && other[8] == 's');
            }
        },
        ArtifactKind::Copy => {},
    }
}

/// No component of an accepted path leads anywhere but down, so that copies lie in the library.
pub proof fn copies_lie_in_the_library(library_path: Seq<char>)
    ensures
        copy_components(library_path) matches Ok(list) ==> forall|i: int|
            0 <= i < list.len() ==> leads_down(#[trigger] list[i]),
{
    lemma_down_from(components(library_path), 0);
}

proof fn lemma_down_from(pieces: Seq<Seq<char>>, at: int)
    ensures
        down_from(pieces, at) matches Some(list) ==> forall|i: int|
            0 <= i < list.len() ==> leads_down(#[trigger] list[i]),
    decreases pieces.len() - at,
{
    if 0 <= at < pieces.len() {
        lemma_down_from(pieces, at + 1);
        if let Some(list) = down_from(pieces, at) {
            let rest = down_from(pieces, at + 1)->Some_0;
            assert forall|i: int| 0 <= i < list.len() implies leads_down(#[trigger] list[i]) by {
                if leads_down(pieces[at]) {
                    if i > 0 {
                        assert(list[i] == rest[i - 1]);
                    }
                } else {
                    assert(list[i] == rest[i]);
                }
            }
        }
    }
}

/// A document whose deletion the database refuses keeps its copy: it is back where it was.
pub proof fn refused_deletions_keep_the_copy(disk: Disk, original: Seq<char>, tombstone: Seq<char>)
    requires
        disk.contains_key(original),
        !disk.contains_key(tombstone),
    ensures
        ({
            let aside = performed(disk, Act::Rename(original, tombstone));
            performed(
                aside,
                tombstone_act(
                    TombstoneFate::Recorded,
                    tombstone,
                    original,
                    aside.contains_key(original),
                ),
            )
        }) == disk,
{
    let aside = performed(disk, Act::Rename(original, tombstone));
    assert(performed(aside, Act::Rename(tombstone, original)) =~= disk);
}

/// A document that the database deleted leaves nothing, and no other file is touched.
pub proof fn deletions_leave_nothing(disk: Disk, original: Seq<char>, tombstone: Seq<char>)
    requires
        disk.contains_key(original),
        !disk.contains_key(tombstone),
    ensures
        ({
            let aside = performed(disk, Act::Rename(original, tombstone));
            performed(aside, tombstone_act(TombstoneFate::Deleted, tombstone, original, false))
        }) == disk.remove(original),
{
    let aside = performed(disk, Act::Rename(original, tombstone));
    assert(performed(aside, Act::RemoveCopy(tombstone)) =~= disk.remove(original));
}

/// A file holds what is recorded.
pub open spec fn holds_record(disk: Disk, path: Seq<char>, content_hash: Option<Seq<char>>) -> bool {
    disk.contains_key(path) && (content_hash is None || hex_text(sha256(disk[path]))
        == content_hash->Some_0)
}

/// Whether each of the leftovers holds what is recorded.
pub open spec fn record_matches(
    disk: Disk,
    leftovers: Seq<Seq<char>>,
    content_hash: Option<Seq<char>>,
) -> Seq<bool> {
    leftovers.map_values(|path: Seq<char>| holds_record(disk, path, content_hash))
}

/// The disks before the first action, between two and behind the last, given the answers: each follows
/// from the one before it.
pub open spec fn disks_follow(disks: Seq<Disk>, list: Seq<Act>, replies: Seq<Answer>) -> bool {
    &&& list.len() == replies.len()
    &&& disks.len() == list.len() + 1
    &&& forall|i: int|
        0 <= i < list.len() ==> answers(list[i], replies[i]) && can_become(
            #[trigger] disks[i],
            list[i],
            replies[i],
            disks[i + 1],
        )
}

/// Where a recovery stands after these answers, or why it failed.
pub open spec fn recovery_after(recovering: Recovering, replies: Seq<Answer>) -> RecoveringStep
    decreases replies.len(),
{
    if replies.len() == 0 {
        RecoveringStep::Next(recovering)
    } else {
        match recovery_after(recovering, replies.drop_last()) {
            RecoveringStep::Next(so_far) => recovery_step(so_far, replies.last()),
            RecoveringStep::Failed(error) => RecoveringStep::Failed(error),
        }
    }
}

/// What a recovery that goes on was told: each action that puts the copy in its place succeeded.
proof fn lemma_recovery_goes_on(recovering: Recovering, replies: Seq<Answer>)
    requires
        recovering.answered == 0,
    ensures
        recovery_after(recovering, replies) is Next <==> forall|i: int|
            0 <= i < replies.len() && i < recovering.placing ==> !(#[trigger] replies[i] is Failed),
        recovery_after(recovering, replies) matches RecoveringStep::Next(so_far) ==> so_far == (
        Recovering { answered: replies.len(), ..recovering }),
    decreases replies.len(),
{
    if replies.len() > 0 {
        let shorter = replies.drop_last();
        lemma_recovery_goes_on(recovering, shorter);
        let at = replies.len() - 1;
        assert(forall|i: int| 0 <= i < at ==> shorter[i] == replies[i]);
        if recovery_after(recovering, shorter) is Next {
            assert forall|i: int|
                0 <= i < at && i < recovering.placing implies !(#[trigger] replies[i] is Failed) by {
                assert(!(shorter[i] is Failed));
            }
        } else {
            assert(exists|i: int|
                0 <= i < shorter.len() && i < recovering.placing && #[trigger] shorter[i] is Failed);
            let bad = choose|i: int|
                0 <= i < shorter.len() && i < recovering.placing && #[trigger] shorter[i] is Failed;
            assert(replies[bad] is Failed);
        }
    }
}

/// The removals name leftovers only.
proof fn lemma_removals_name_leftovers(leftovers: Seq<Seq<char>>, kept: Option<int>)
    ensures
        forall|i: int|
            0 <= i < removals(leftovers, kept).len() ==> (#[trigger] removals(leftovers, kept)[i]) is RemoveCopy
                && leftovers.contains(removals(leftovers, kept)[i]->RemoveCopy_0),
    decreases leftovers.len(),
{
    if leftovers.len() > 0 {
        let shorter = leftovers.drop_last();
        lemma_removals_name_leftovers(shorter, kept);
        let list = removals(leftovers, kept);
        let before = removals(shorter, kept);
        assert forall|i: int| 0 <= i < list.len() implies (#[trigger] list[i]) is RemoveCopy
            && leftovers.contains(list[i]->RemoveCopy_0) by {
            if i < before.len() {
                assert(list[i] == before[i]);
                let path = before[i]->RemoveCopy_0;
                assert(shorter.contains(path));
                let at = choose|at: int| 0 <= at < shorter.len() && shorter[at] == path;
                assert(leftovers[at] == path);
            } else {
                assert(leftovers[leftovers.len() - 1] == list[i]->RemoveCopy_0);
            }
        }
    }
}

/// A file that no action from `from` on removes stays as it is, whether or not they succeed.
proof fn lemma_others_stay(
    disks: Seq<Disk>,
    list: Seq<Act>,
    replies: Seq<Answer>,
    path: Seq<char>,
    from: int,
    to: int,
)
    requires
        disks_follow(disks, list, replies),
        0 <= from <= to <= list.len(),
        forall|i: int|
            from <= i < to ==> (#[trigger] list[i]) is RemoveCopy && list[i]->RemoveCopy_0 != path,
    ensures
        disks[to].contains_key(path) == disks[from].contains_key(path),
        disks[from].contains_key(path) ==> disks[to][path] == disks[from][path],
    decreases to - from,
{
    if from < to {
        lemma_others_stay(disks, list, replies, path, from, to - 1);
        assert(list[to - 1] is RemoveCopy);
        let before = disks[to - 1];
        assert(can_become(before, list[to - 1], replies[to - 1], disks[to]));
    }
}

/// The first match is a match.
proof fn lemma_first_match(matches: Seq<bool>, at: int)
    requires
        0 <= at <= matches.len(),
    ensures
        match first_match(matches, at) {
            Some(found) => at <= found < matches.len() && matches[found],
            None => forall|i: int| at <= i < matches.len() ==> !#[trigger] matches[i],
        },
    decreases matches.len() - at,
{
    if at < matches.len() && !matches[at] {
        lemma_first_match(matches, at + 1);
    }
}

/// Where the copy or one of the leftovers of a replacement holds what is recorded, the copy holds it at
/// the end of a recovery that does not fail, also where leftovers could not be removed. Where none
/// does, nothing is touched.
pub proof fn recoveries_restore_the_record(
    disks: Seq<Disk>,
    replies: Seq<Answer>,
    destination: Seq<char>,
    leftovers: Seq<Seq<char>>,
    content_hash: Option<Seq<char>>,
    choice: RecoveryChoice,
)
    requires
        leftovers.len() <= usize::MAX,
        !leftovers.contains(destination),
        choice == recovery_choice(
            holds_record(disks[0], destination, content_hash),
            record_matches(disks[0], leftovers, content_hash),
        ),
        disks_follow(disks, recovery_acts(destination, leftovers, choice), replies),
        recovery_after(recovery_start(destination, leftovers, choice), replies) is Next,
    ensures
        if choice == RecoveryChoice::Fail {
            &&& recovery_acts(destination, leftovers, choice).len() == 0
            &&& !holds_record(disks[0], destination, content_hash)
            &&& forall|i: int|
                0 <= i < leftovers.len() ==> !holds_record(
                    disks[0],
                    #[trigger] leftovers[i],
                    content_hash,
                )
        } else {
            holds_record(disks.last(), destination, content_hash)
        },
{
    let matches = record_matches(disks[0], leftovers, content_hash);
    let list = recovery_acts(destination, leftovers, choice);
    lemma_first_match(matches, 0);
    lemma_recovery_goes_on(recovery_start(destination, leftovers, choice), replies);
    match choice {
        RecoveryChoice::Clean => {
            lemma_removals_name_leftovers(leftovers, None);
            lemma_others_stay(disks, list, replies, destination, 0, list.len() as int);
        },
        RecoveryChoice::Adopt(at) => {
            let candidate = leftovers[at as int];
            let rest = removals(leftovers, Some(at as int));
            assert(matches[at as int]);
            assert(leftovers.contains(candidate));
            assert(list[0] == Act::RemoveCopy(destination));
            assert(list[1] == Act::Rename(candidate, destination));
            assert(!(replies[0] is Failed) && !(replies[1] is Failed));
            assert(can_become(disks[0], list[0], replies[0], disks[1]));
            assert(can_become(disks[1], list[1], replies[1], disks[2]));
            assert(disks[2][destination] == disks[0][candidate]);
            lemma_removals_name_leftovers(leftovers, Some(at as int));
            assert forall|i: int| 2 <= i < list.len() implies (#[trigger] list[i]) is RemoveCopy
                && list[i]->RemoveCopy_0 != destination by {
                assert(list[i] == rest[i - 2]);
            }
            lemma_others_stay(disks, list, replies, destination, 2, list.len() as int);
        },
        RecoveryChoice::Fail => {
            assert forall|i: int| 0 <= i < leftovers.len() implies !holds_record(
                disks[0],
                #[trigger] leftovers[i],
                content_hash,
            ) by {
                assert(!matches[i]);
            }
        },
    }
}

/// A recovery fails exactly where the copy could not be put in its place; a leftover that cannot be
/// removed never makes it fail.
pub proof fn only_the_copy_fails_a_recovery(
    destination: Seq<char>,
    leftovers: Seq<Seq<char>>,
    choice: RecoveryChoice,
    replies: Seq<Answer>,
)
    requires
        replies.len() == recovery_acts(destination, leftovers, choice).len(),
    ensures
        recovery_after(recovery_start(destination, leftovers, choice), replies) is Failed <==> choice is Adopt
            && (replies[0] is Failed || replies[1] is Failed),
{
    let start = recovery_start(destination, leftovers, choice);
    lemma_recovery_goes_on(start, replies);
    if choice is Adopt {
        assert(start.placing == 2 && replies.len() >= 2);
        if replies[0] is Failed || replies[1] is Failed {
            assert(!(recovery_after(start, replies) is Next));
        }
    }
}

/// A recovery that fails leaves the leftover that holds what is recorded where it is.
pub proof fn failed_recoveries_keep_the_record(
    disks: Seq<Disk>,
    replies: Seq<Answer>,
    destination: Seq<char>,
    leftovers: Seq<Seq<char>>,
    content_hash: Option<Seq<char>>,
    at: usize,
    failed: int,
)
    requires
        at < leftovers.len(),
        !leftovers.contains(destination),
        holds_record(disks[0], leftovers[at as int], content_hash),
        disks_follow(
            disks,
            recovery_acts(destination, leftovers, RecoveryChoice::Adopt(at)),
            replies,
        ),
        0 <= failed < replies.len(),
        recovery_after(
            recovery_start(destination, leftovers, RecoveryChoice::Adopt(at)),
            replies.take(failed),
        ) is Next,
        recovery_after(
            recovery_start(destination, leftovers, RecoveryChoice::Adopt(at)),
            replies.take(failed + 1),
        ) is Failed,
    ensures
        holds_record(disks[failed + 1], leftovers[at as int], content_hash),
{
    let start = recovery_start(destination, leftovers, RecoveryChoice::Adopt(at));
    let list = start.acts;
    let candidate = leftovers[at as int];
    assert(leftovers.contains(candidate));
    lemma_recovery_goes_on(start, replies.take(failed));
    assert(replies.take(failed + 1).drop_last() =~= replies.take(failed));
    assert(list[0] == Act::RemoveCopy(destination));
    assert(list[1] == Act::Rename(candidate, destination));
    assert(can_become(disks[0], list[0], replies[0], disks[1]));
    if failed == 1 {
        assert(can_become(disks[1], list[1], replies[1], disks[2]));
    }
}

} // verus!
