//! Paths as texts.

use vstd::prelude::*;
use crate::text::{
    ascii_lowercase, chars, eq_ignore_ascii_case, last_index, rfind_char, text_between,
};

verus! {

/// A separator of path components.
pub open spec fn separator(c: char) -> bool {
    c == '/' || c == '\\'
}

/// Whether `c` separates path components.
pub fn is_separator(c: char) -> (found: bool)
    ensures
        found == separator(c),
{
    c == '/' || c == '\\'
}

/// The end of the path without the separators behind its last component.
pub open spec fn trimmed_end(path: Seq<char>, end: int) -> int
    decreases end,
{
    if 0 < end <= path.len() && separator(path[end - 1]) {
        trimmed_end(path, end - 1)
    } else {
        end
    }
}

/// Where the component that ends at `end` starts.
pub open spec fn component_start(path: Seq<char>, end: int) -> int
    decreases end,
{
    if 0 < end <= path.len() && !separator(path[end - 1]) {
        component_start(path, end - 1)
    } else {
        end
    }
}

/// The last component of a path, where it is a name.
pub open spec fn path_file_name_of(path: Seq<char>) -> Option<Seq<char>> {
    let end = trimmed_end(path, path.len() as int);
    let start = component_start(path, end);
    let name = path.subrange(start, end);
    if name.len() == 0 || name == ".."@ || name == "."@ {
        None
    } else {
        Some(name)
    }
}

/// The last component of a path, where it is a name.
pub fn path_file_name(path: &str) -> (name: Option<String>)
    ensures
        (match name {
            Some(text) => Some(text@),
            None => None,
        }) == path_file_name_of(path@),
{
    let all = chars(path);
    let mut end: usize = all.len();
    while end > 0 && is_separator(all[end - 1])
        invariant
            end <= all@.len(),
            trimmed_end(all@, end as int) == trimmed_end(all@, all@.len() as int),
        decreases end,
    {
        end = end - 1;
    }
    let mut start: usize = end;
    while start > 0 && !is_separator(all[start - 1])
        invariant
            start <= end <= all@.len(),
            component_start(all@, start as int) == component_start(all@, end as int),
        decreases start,
    {
        start = start - 1;
    }
    let name = text_between(all.as_slice(), start, end);
    if start == end || crate::text::same(name.as_str(), "..") || crate::text::same(
        name.as_str(),
        ".",
    ) {
        None
    } else {
        Some(name)
    }
}

/// What stands behind the last dot of a file name, unless the name only opens with it.
pub open spec fn name_extension(name: Seq<char>) -> Option<Seq<char>> {
    match last_index(name, '.') {
        Some(at) if at > 0 => Some(name.skip(at + 1)),
        _ => None,
    }
}

/// The extension of the file that a path names.
pub open spec fn path_extension_of(path: Seq<char>) -> Option<Seq<char>> {
    match path_file_name_of(path) {
        Some(name) => name_extension(name),
        None => None,
    }
}

/// The extension of the file that a path names.
pub fn path_extension(path: &str) -> (extension: Option<String>)
    ensures
        (match extension {
            Some(text) => Some(text@),
            None => None,
        }) == path_extension_of(path@),
{
    match path_file_name(path) {
        None => None,
        Some(name) => {
            let all = chars(name.as_str());
            match rfind_char(all.as_slice(), '.') {
                None => None,
                Some(at) => {
                    if at > 0 {
                        let size: usize = all.len();
                        let text = text_between(all.as_slice(), at + 1, size);
                        assert(text@ =~= name@.skip(at + 1));
                        Some(text)
                    } else {
                        None
                    }
                },
            }
        },
    }
}

/// The name under which a file is shown: the last component of its path, else the whole path.
pub open spec fn display_name(path: Seq<char>) -> Seq<char> {
    match path_file_name_of(path) {
        Some(name) => name,
        None => path,
    }
}

/// The name under which a file is shown.
pub fn display_file_name(path: &str) -> (name: String)
    ensures
        name@ == display_name(path@),
{
    match path_file_name(path) {
        Some(name) => name,
        None => path.to_owned(),
    }
}

/// A file name without its extension.
pub open spec fn name_stem(name: Seq<char>) -> Seq<char> {
    match last_index(name, '.') {
        Some(at) if at > 0 => name.take(at),
        _ => name,
    }
}

/// A file name without its extension.
pub fn file_stem(name: &str) -> (stem: String)
    ensures
        stem@ == name_stem(name@),
{
    let all = chars(name);
    match rfind_char(all.as_slice(), '.') {
        Some(at) => {
            if at > 0 {
                let stem = text_between(all.as_slice(), 0, at);
                assert(stem@ =~= name@.take(at as int));
                stem
            } else {
                name.to_owned()
            }
        },
        None => name.to_owned(),
    }
}

/// The text with each `from` made `to`.
pub open spec fn replaced(text: Seq<char>, from: char, to: char) -> Seq<char> {
    text.map_values(
        |c: char|
            if c == from {
                to
            } else {
                c
            },
    )
}

/// The text with each `from` made `to`.
pub fn replace_char(text: &str, from: char, to: char) -> (out: String)
    ensures
        out@ == replaced(text@, from, to),
{
    let all = chars(text);
    let mut out = String::new();
    let mut i: usize = 0;
    assert(out@ =~= replaced(text@.take(0), from, to));
    while i < all.len()
        invariant
            i <= all@.len(),
            all@ == text@,
            out@ == replaced(text@.take(i as int), from, to),
        decreases all@.len() - i,
    {
        let c = if all[i] == from {
            to
        } else {
            all[i]
        };
        let ghost before = out@;
        out.push(c);
        assert(out@ =~= replaced(text@.take(i + 1), from, to)) by {
            assert(text@.take(i + 1) =~= text@.take(i as int).push(text@[i as int]));
        }
        i = i + 1;
    }
    assert(text@.take(i as int) =~= text@);
    out
}

/// Two paths name the same place: the case of ASCII letters does not count.
pub open spec fn same_place(left: Seq<char>, right: Seq<char>) -> bool {
    ascii_lowercase(left) == ascii_lowercase(right)
}

/// Whether two paths name the same place.
pub fn paths_equal(left: &str, right: &str) -> (equal: bool)
    ensures
        equal == same_place(left@, right@),
{
    eq_ignore_ascii_case(left, right)
}

// ---- Laws ----

proof fn lemma_trailing_separators(path: Seq<char>, end: int, stop: int)
    requires
        0 <= stop <= end <= path.len(),
        forall|i: int| stop <= i < end ==> separator(#[trigger] path[i]),
        stop > 0 ==> !separator(path[stop - 1]),
    ensures
        trimmed_end(path, end) == stop,
    decreases end - stop,
{
    if stop < end {
        lemma_trailing_separators(path, end - 1, stop);
    }
}

proof fn lemma_component(path: Seq<char>, end: int, start: int)
    requires
        0 <= start <= end <= path.len(),
        forall|i: int| start <= i < end ==> !separator(#[trigger] path[i]),
        start > 0 ==> separator(path[start - 1]),
    ensures
        component_start(path, end) == start,
    decreases end - start,
{
    if start < end {
        lemma_component(path, end - 1, start);
    }
}

/// A file is shown under the last component of its path, whatever directory comes before and
/// whatever separators come behind.
pub proof fn files_are_named_by_their_last_component(
    directory: Seq<char>,
    name: Seq<char>,
    behind: Seq<char>,
)
    requires
        directory.len() > 0 ==> separator(directory.last()),
        name.len() > 0,
        name != "."@,
        name != ".."@,
        forall|i: int| 0 <= i < name.len() ==> !separator(#[trigger] name[i]),
        forall|i: int| 0 <= i < behind.len() ==> separator(#[trigger] behind[i]),
    ensures
        path_file_name_of(directory + name + behind) == Some(name),
        display_name(directory + name + behind) == name,
        path_extension_of(directory + name + behind) == name_extension(name),
{
    let path = directory + name + behind;
    let start: int = directory.len() as int;
    let stop: int = start + name.len();
    assert forall|i: int| stop <= i < path.len() implies separator(#[trigger] path[i]) by {
        assert(path[i] == behind[i - stop]);
    }
    assert forall|i: int| start <= i < stop implies !separator(#[trigger] path[i]) by {
        assert(path[i] == name[i - start]);
    }
    assert(path[stop - 1] == name[name.len() - 1]);
    lemma_trailing_separators(path, path.len() as int, stop);
    if start > 0 {
        assert(path[start - 1] == directory.last());
    }
    lemma_component(path, stop, start);
    assert(path.subrange(start, stop) =~= name);
}

pub proof fn lemma_last_index(text: Seq<char>, c: char, at: int)
    requires
        0 <= at < text.len(),
        text[at] == c,
        forall|i: int| at < i < text.len() ==> (#[trigger] text[i]) != c,
    ensures
        last_index(text, c) == Some(at),
    decreases text.len(),
{
    if at < text.len() - 1 {
        assert(text[text.len() - 1] != c);
        let shorter = text.drop_last();
        assert forall|i: int| at < i < shorter.len() implies (#[trigger] shorter[i]) != c by {
            assert(shorter[i] == text[i]);
        }
        lemma_last_index(shorter, c, at);
    }
}

pub proof fn lemma_no_last_index(text: Seq<char>, c: char)
    requires
        !text.contains(c),
    ensures
        last_index(text, c) is None,
    decreases text.len(),
{
    if text.len() > 0 {
        assert(text[text.len() - 1] != c);
        let shorter = text.drop_last();
        assert forall|i: int| 0 <= i < shorter.len() implies shorter[i] != c by {
            assert(shorter[i] == text[i]);
        }
        lemma_no_last_index(shorter, c);
    }
}

/// A file name is its stem, a dot and its extension; the dot is the last one. A name without a dot,
/// or with its only dot in front, is all stem.
pub proof fn names_are_stems_and_extensions(stem: Seq<char>, extension: Seq<char>)
    requires
        !extension.contains('.'),
    ensures
        stem.len() > 0 ==> name_stem(stem + seq!['.'] + extension) == stem && name_extension(
            stem + seq!['.'] + extension,
        ) == Some(extension),
        name_stem(extension) == extension && name_extension(extension) is None,
        name_stem(seq!['.'] + extension) == seq!['.'] + extension && name_extension(
            seq!['.'] + extension,
        ) is None,
{
    let name = stem + seq!['.'] + extension;
    let at: int = stem.len() as int;
    assert forall|i: int| at < i < name.len() implies (#[trigger] name[i]) != '.' by {
        assert(name[i] == extension[i - at - 1]);
    }
    lemma_last_index(name, '.', at);
    assert(name.take(at) =~= stem);
    assert(name.skip(at + 1) =~= extension);
    lemma_no_last_index(extension, '.');
    let hidden = seq!['.'] + extension;
    assert forall|i: int| 0 < i < hidden.len() implies (#[trigger] hidden[i]) != '.' by {
        assert(hidden[i] == extension[i - 1]);
    }
    lemma_last_index(hidden, '.', 0);
}

} // verus!
