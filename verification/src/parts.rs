//! Names of the parts of an Office package, and the targets that relationships give.

use vstd::prelude::*;
use crate::error::{failure, outcome, ErrorKind, Failure, LibraryError, LibraryResult};
use crate::text::{
    ascii_lowercase, chars, contains, ends_with, find_char, has_prefix, has_suffix, has_text,
    index_from, join, join_pieces, joined_pieces_come_apart, last_index, lower_chars, occurs_at,
    pieces_of, push_chars, rfind, rfind_before, rfind_char, rfind_chars, skip_leading, split, split_chars, starts_with, strip_leading, text_between, text_of,
    trim, trim_range,
};

verus! {

/// The two formats whose packages are made safe for a preview.
#[derive(Debug, Clone, Copy, PartialEq, Eq, Structural)]
pub enum OfficeFormat {
    Docx,
    Pptx,
}

impl OfficeFormat {
    /// The name of the format.
    pub open spec fn name(self) -> Seq<char> {
        match self {
            OfficeFormat::Docx => "DOCX"@,
            OfficeFormat::Pptx => "PPTX"@,
        }
    }

    /// The name of the format.
    pub fn label(self) -> (label: &'static str)
        ensures
            label@ == self.name(),
    {
        match self {
            OfficeFormat::Docx => "DOCX",
            OfficeFormat::Pptx => "PPTX",
        }
    }
}

// ---- Part names ----

/// The part name without white space around it and without leading slashes.
pub open spec fn bare_part_name(part_name: Seq<char>) -> Seq<char> {
    strip_leading(trim(part_name), '/')
}

/// A name that a part may have: not empty, no backslash, no step to a parent.
pub open spec fn valid_part_name(bare: Seq<char>) -> bool {
    &&& bare.len() > 0
    &&& !bare.contains('\\')
    &&& !split(bare, '/').contains(".."@)
}

/// The normalized name of a part, or why it is refused; `label` opens the message.
pub open spec fn normalized_part_name(part_name: Seq<char>, label: Seq<char>) -> Result<
    Seq<char>,
    Failure,
> {
    if valid_part_name(bare_part_name(part_name)) {
        Ok(bare_part_name(part_name))
    } else {
        Err(
            failure(
                ErrorKind::ImportFile,
                label + " 结构无效：部件名称异常："@ + part_name + "。"@,
            ),
        )
    }
}

/// Whether some character is `c`.
fn has_char(text: &[char], c: char) -> (found: bool)
    ensures
        found == text@.contains(c),
{
    let mut i: usize = 0;
    while i < text.len()
        invariant
            i <= text@.len(),
            forall|j: int| 0 <= j < i ==> text@[j] != c,
        decreases text@.len() - i,
    {
        if text[i] == c {
            return true;
        }
        i = i + 1;
    }
    false
}

/// Whether the piece is the given text.
fn piece_is(piece: &Vec<char>, text: &str) -> (equal: bool)
    ensures
        equal == (piece@ == text@),
{
    let other = chars(text);
    let equal = piece.len() == other.len() && crate::text::matches_at(
        piece.as_slice(),
        other.as_slice(),
        0,
    );
    assert(piece@.len() == text@.len() ==> piece@.subrange(0, text@.len() as int) =~= piece@);
    equal
}

/// Whether one of the pieces is the given text.
fn has_piece(pieces: &Vec<Vec<char>>, text: &str) -> (found: bool)
    ensures
        found == pieces_of(pieces@).contains(text@),
{
    let mut i: usize = 0;
    while i < pieces.len()
        invariant
            i <= pieces@.len(),
            forall|j: int| 0 <= j < i ==> pieces@[j]@ != text@,
        decreases pieces@.len() - i,
    {
        if piece_is(&pieces[i], text) {
            assert(pieces_of(pieces@)[i as int] == text@);
            return true;
        }
        i = i + 1;
    }
    assert forall|j: int| 0 <= j < pieces_of(pieces@).len() implies pieces_of(pieces@)[j]
        != text@ by {
        assert(pieces@[j]@ != text@);
    }
    false
}

/// The normalized name of a part, or why it is refused; `label` opens the message.
pub fn normalize_part_name(part_name: &str, label: &str) -> (result: LibraryResult<String>)
    ensures
        outcome(result) == normalized_part_name(part_name@, label@),
{
    let all = chars(part_name);
    let (from, to) = trim_range(all.as_slice());
    let start = skip_leading(all.as_slice(), '/', from, to);
    let bare = vstd::slice::slice_subrange(all.as_slice(), start, to);
    if bare.len() == 0 || has_char(bare, '\\') || has_piece(&split_chars(bare, '/'), "..") {
        let mut message = label.to_owned();
        message.append(" 结构无效：部件名称异常：");
        message.append(part_name);
        message.append("。");
        return Err(LibraryError::ImportFile(message));
    }
    Ok(text_of(bare))
}

// ---- Targets ----

/// A letter or digit of ASCII.
pub open spec fn ascii_alphanumeric(c: char) -> bool {
    ('0' <= c && c <= '9') || ('a' <= c && c <= 'z') || ('A' <= c && c <= 'Z')
}

/// A character that a URI scheme may hold.
pub open spec fn scheme_char(c: char) -> bool {
    ascii_alphanumeric(c) || c == '.' || c == '-' || c == '+'
}

/// The text opens with a URI scheme and a colon.
pub open spec fn has_scheme(text: Seq<char>) -> bool {
    index_from(text, ':', 0) matches Some(at) && forall|i: int|
        0 <= i < at ==> scheme_char(#[trigger] text[i])
}

/// The target leaves the package: a URI with a scheme, or a network path.
pub open spec fn external_target(target: Seq<char>) -> bool {
    let lower = ascii_lowercase(trim(target));
    starts_with(lower, "//"@) || starts_with(lower, "\\\\"@) || has_scheme(lower)
}

/// Whether the target leaves the package.
pub fn target_is_external(target: &str) -> (external: bool)
    ensures
        external == external_target(target@),
{
    let all = chars(target);
    let (from, to) = trim_range(all.as_slice());
    let lower = lower_chars(vstd::slice::slice_subrange(all.as_slice(), from, to));
    if has_prefix(lower.as_slice(), "//") || has_prefix(lower.as_slice(), "\\\\") {
        return true;
    }
    match find_char(lower.as_slice(), ':', 0) {
        None => false,
        Some(at) => {
            let mut i: usize = 0;
            while i < at
                invariant
                    i <= at < lower@.len(),
                    index_from(lower@, ':', 0) == Some(at as int),
                    lower@ == ascii_lowercase(trim(target@)),
                    !starts_with(lower@, "//"@),
                    !starts_with(lower@, "\\\\"@),
                    forall|j: int| 0 <= j < i ==> scheme_char(#[trigger] lower@[j]),
                decreases at - i,
            {
                let c = lower[i];
                if !(('0' <= c && c <= '9') || ('a' <= c && c <= 'z') || ('A' <= c && c <= 'Z') || c
                    == '.' || c == '-' || c == '+') {
                    assert(!scheme_char(lower@[i as int]));
                    return false;
                }
                i = i + 1;
            }
            true
        },
    }
}

/// What stands before the first `#` or `?`.
pub open spec fn before_fragment(text: Seq<char>) -> Seq<char>
    decreases text.len(),
{
    if text.len() == 0 || text[0] == '#' || text[0] == '?' {
        Seq::empty()
    } else {
        seq![text[0]] + before_fragment(text.skip(1))
    }
}

proof fn lemma_before_fragment(text: Seq<char>, n: int)
    requires
        0 <= n <= text.len(),
        forall|i: int| 0 <= i < n ==> text[i] != '#' && text[i] != '?',
        n < text.len() ==> text[n] == '#' || text[n] == '?',
    ensures
        before_fragment(text) == text.take(n),
    decreases n,
{
    if n > 0 {
        assert forall|i: int| 0 <= i < n - 1 implies text.skip(1)[i] != '#' && text.skip(1)[i]
            != '?' by {
            assert(text[i + 1] != '#');
        }
        lemma_before_fragment(text.skip(1), n - 1);
        assert(seq![text[0]] + text.skip(1).take(n - 1) =~= text.take(n));
    } else {
        assert(text.take(0) =~= Seq::empty());
    }
}

/// The directory of a part: what stands before the last slash.
pub open spec fn directory_of(part: Seq<char>) -> Seq<char> {
    match last_index(part, '/') {
        Some(at) => part.take(at),
        None => Seq::empty(),
    }
}

/// The path to follow from the package root for a target that is not empty.
pub open spec fn raw_path(source_part: Seq<char>, target: Seq<char>) -> Seq<char> {
    if target[0] == '/' {
        strip_leading(target, '/')
    } else {
        directory_of(source_part) + seq!['/'] + target
    }
}

/// Where the steps lead from the package root; `None` where one of them leaves it.
pub open spec fn followed(steps: Seq<Seq<char>>) -> Option<Seq<Seq<char>>>
    decreases steps.len(),
{
    if steps.len() == 0 {
        Some(Seq::empty())
    } else {
        match followed(steps.drop_last()) {
            None => None,
            Some(path) => {
                let step = steps.last();
                if step == ""@ || step == "."@ {
                    Some(path)
                } else if step == ".."@ {
                    if path.len() == 0 {
                        None
                    } else {
                        Some(path.drop_last())
                    }
                } else {
                    Some(path.push(step))
                }
            },
        }
    }
}

/// The part that a target names, or why it names none; `label` opens the message on a part name.
pub open spec fn resolved_target(
    source_part: Seq<char>,
    target: Seq<char>,
    format: Seq<char>,
    label: Seq<char>,
) -> Result<Seq<char>, Failure> {
    let bare = before_fragment(trim(target));
    if external_target(target) || target.contains('\\') {
        Err(
            failure(
                ErrorKind::ImportFile,
                format + " 结构无效：关系目标不是包内部部件："@ + target + "。"@,
            ),
        )
    } else if bare.len() == 0 {
        normalized_part_name(source_part, label)
    } else {
        match followed(split(raw_path(source_part, bare), '/')) {
            None => Err(
                failure(ErrorKind::ImportFile, format + " 结构无效：关系目标逃逸包根目录。"@),
            ),
            Some(path) => if path.len() == 0 {
                Err(failure(ErrorKind::ImportFile, format + " 结构无效：关系目标为空。"@))
            } else {
                Ok(join(path, seq!['/']))
            },
        }
    }
}

proof fn lemma_followed_none_stays(steps: Seq<Seq<char>>, i: int)
    requires
        0 <= i <= steps.len(),
        followed(steps.take(i)) is None,
    ensures
        followed(steps) is None,
    decreases steps.len() - i,
{
    if i < steps.len() {
        assert(steps.take(i + 1).drop_last() =~= steps.take(i));
        lemma_followed_none_stays(steps, i + 1);
    } else {
        assert(steps.take(i) =~= steps);
    }
}

/// Where the steps lead from the package root; `None` where one of them leaves it.
fn follow(steps: &Vec<Vec<char>>) -> (path: Option<Vec<Vec<char>>>)
    ensures
        (match path {
            Some(found) => Some(pieces_of(found@)),
            None => None,
        }) == followed(pieces_of(steps@)),
{
    let ghost all = pieces_of(steps@);
    let mut path: Vec<Vec<char>> = Vec::new();
    assert(pieces_of(path@) =~= Seq::empty());
    let mut i: usize = 0;
    while i < steps.len()
        invariant
            i <= steps@.len(),
            all == pieces_of(steps@),
            followed(all.take(i as int)) == Some(pieces_of(path@)),
        decreases steps@.len() - i,
    {
        assert(all.take(i + 1).drop_last() =~= all.take(i as int));
        assert(all.take(i + 1).last() == steps@[i as int]@);
        let ghost before = pieces_of(path@);
        let step = &steps[i];
        if piece_is(step, "") || piece_is(step, ".") {
        } else if piece_is(step, "..") {
            if path.len() == 0 {
                proof {
                    lemma_followed_none_stays(all, i + 1);
                }
                return None;
            }
            path.pop();
            assert(pieces_of(path@) =~= before.drop_last());
        } else {
            let copy = step.clone();
            assert(copy@ =~= step@);
            path.push(copy);
            assert(pieces_of(path@) =~= before.push(step@));
        }
        i = i + 1;
    }
    assert(all.take(i as int) =~= all);
    Some(path)
}

/// The part that a target names, or why it names none; `label` opens the message on a part name.
pub fn resolve_internal_target(source_part: &str, target: &str, format: &str, label: &str) -> (result:
    LibraryResult<String>)
    ensures
        outcome(result) == resolved_target(source_part@, target@, format@, label@),
{
    let all = chars(target);
    if target_is_external(target) || has_char(all.as_slice(), '\\') {
        let mut message = format.to_owned();
        message.append(" 结构无效：关系目标不是包内部部件：");
        message.append(target);
        message.append("。");
        return Err(LibraryError::ImportFile(message));
    }
    let (from, to) = trim_range(all.as_slice());
    let ghost trimmed = trim(target@);
    let mut end: usize = from;
    while end < to && all[end] != '#' && all[end] != '?'
        invariant
            from <= end <= to <= all@.len(),
            trimmed == all@.subrange(from as int, to as int),
            forall|j: int| 0 <= j < end - from ==> trimmed[j] != '#' && trimmed[j] != '?',
        decreases to - end,
    {
        assert(trimmed[end - from] == all@[end as int]);
        end = end + 1;
    }
    proof {
        if end < to {
            assert(trimmed[end - from] == all@[end as int]);
        }
        lemma_before_fragment(trimmed, end - from);
        assert(trimmed.take(end - from) =~= all@.subrange(from as int, end as int));
    }
    let ghost bare = before_fragment(trimmed);
    if end == from {
        return normalize_part_name(source_part, label);
    }
    let raw: Vec<char> = if all[from] == '/' {
        let start = skip_leading(all.as_slice(), '/', from, end);
        chars(text_between(all.as_slice(), start, end).as_str())
    } else {
        let source = chars(source_part);
        let mut path: Vec<char> = match rfind_char(source.as_slice(), '/') {
            Some(at) => {
                let directory = chars(text_between(source.as_slice(), 0, at).as_str());
                assert(directory@ =~= source@.take(at as int));
                directory
            },
            None => Vec::new(),
        };
        assert(path@ == directory_of(source_part@));
        path.push('/');
        push_chars(&mut path, text_between(all.as_slice(), from, end).as_str());
        assert(path@ =~= directory_of(source_part@) + seq!['/'] + bare);
        path
    };
    assert(raw@ == raw_path(source_part@, bare));
    match follow(&split_chars(raw.as_slice(), '/')) {
        None => {
            let mut message = format.to_owned();
            message.append(" 结构无效：关系目标逃逸包根目录。");
            Err(LibraryError::ImportFile(message))
        },
        Some(path) => {
            if path.len() == 0 {
                let mut message = format.to_owned();
                message.append(" 结构无效：关系目标为空。");
                Err(LibraryError::ImportFile(message))
            } else {
                Ok(text_of(join_pieces(path.as_slice(), '/').as_slice()))
            }
        },
    }
}

// ---- Parts that hold relationships ----

/// The part that holds the relationships of a part.
pub open spec fn relationships_part(source_part: Seq<char>) -> Seq<char> {
    match last_index(source_part, '/') {
        Some(at) if at > 0 => source_part.take(at) + "/_rels/"@ + source_part.skip(at + 1) + ".rels"@,
        Some(at) => "_rels/"@ + source_part.skip(at + 1) + ".rels"@,
        None => "_rels/"@ + source_part + ".rels"@,
    }
}

/// The part that holds the relationships of a part.
pub fn relationship_part_name(source_part: &str) -> (name: String)
    ensures
        name@ == relationships_part(source_part@),
{
    let all = chars(source_part);
    match rfind_char(all.as_slice(), '/') {
        Some(at) => {
            let file_name = text_between(all.as_slice(), at + 1, all.len());
            assert(file_name@ =~= source_part@.skip(at + 1));
            if at > 0 {
                let mut name = text_between(all.as_slice(), 0, at);
                assert(name@ =~= source_part@.take(at as int));
                name.append("/_rels/");
                name.append(file_name.as_str());
                name.append(".rels");
                name
            } else {
                let mut name = "_rels/".to_owned();
                name.append(file_name.as_str());
                name.append(".rels");
                name
            }
        },
        None => {
            let mut name = "_rels/".to_owned();
            name.append(source_part);
            name.append(".rels");
            name
        },
    }
}

/// The part whose relationships a part holds, or why its name is refused.
pub open spec fn relationships_source(relationship_part: Seq<char>) -> Result<Seq<char>, Failure> {
    if relationship_part == "_rels/.rels"@ {
        Ok(Seq::empty())
    } else {
        match rfind(relationship_part, "/_rels/"@) {
            None => Err(
                failure(
                    ErrorKind::ImportFile,
                    "OOXML 结构无效：relationship 部件路径异常："@ + relationship_part + "。"@,
                ),
            ),
            Some(at) => {
                let file_name = relationship_part.skip(at + "/_rels/"@.len());
                if !ends_with(file_name, ".rels"@) {
                    Err(
                        failure(
                            ErrorKind::ImportFile,
                            "OOXML 结构无效：relationship 部件缺少 .rels 后缀："@ + relationship_part
                                + "。"@,
                        ),
                    )
                } else if at == 0 {
                    Ok(file_name.take(file_name.len() - ".rels"@.len()))
                } else {
                    Ok(
                        relationship_part.take(at) + "/"@ + file_name.take(
                            file_name.len() - ".rels"@.len(),
                        ),
                    )
                }
            },
        }
    }
}

/// The part whose relationships a part holds, or why its name is refused.
pub fn source_part_for_relationships(relationship_part: &str) -> (result: LibraryResult<String>)
    ensures
        outcome(result) == relationships_source(relationship_part@),
{
    if crate::text::same(relationship_part, "_rels/.rels") {
        return Ok(String::new());
    }
    let all = chars(relationship_part);
    let marker = chars("/_rels/");
    let suffix = chars(".rels");
    match rfind_chars(all.as_slice(), marker.as_slice()) {
        None => {
            let mut message = "OOXML 结构无效：relationship 部件路径异常：".to_owned();
            message.append(relationship_part);
            message.append("。");
            Err(LibraryError::ImportFile(message))
        },
        Some(at) => {
            let size: usize = all.len();
            let start: usize = at + marker.len();
            let file_name = vstd::slice::slice_subrange(all.as_slice(), start, all.len());
            assert(file_name@ =~= relationship_part@.skip(at + "/_rels/"@.len()));
            if !has_suffix(file_name, ".rels") {
                let mut message = "OOXML 结构无效：relationship 部件缺少 .rels 后缀：".to_owned();
                message.append(relationship_part);
                message.append("。");
                return Err(LibraryError::ImportFile(message));
            }
            let source_file = text_between(file_name, 0, file_name.len() - suffix.len());
            assert(source_file@ =~= file_name@.take(file_name@.len() - ".rels"@.len()));
            if at == 0 {
                Ok(source_file)
            } else {
                let mut name = text_between(all.as_slice(), 0, at);
                assert(name@ =~= relationship_part@.take(at as int));
                name.append("/");
                name.append(source_file.as_str());
                Ok(name)
            }
        },
    }
}

/// The part of `directory` whose relationships a part holds, where it holds those of one.
pub open spec fn source_in_directory(relationship_part: Seq<char>, directory: Seq<char>) -> Option<
    Seq<char>,
> {
    let prefix = directory + "/_rels/"@;
    if starts_with(relationship_part, prefix) && ends_with(
        relationship_part.skip(prefix.len() as int),
        ".rels"@,
    ) {
        let rest = relationship_part.skip(prefix.len() as int);
        Some(directory + "/"@ + rest.take(rest.len() - ".rels"@.len()))
    } else {
        None
    }
}

/// The part of `directory` whose relationships a part holds, where it holds those of one.
pub fn relationship_source_part(relationship_part: &str, directory: &str) -> (source: Option<String>)
    ensures
        (match source {
            Some(part) => Some(part@),
            None => None,
        }) == source_in_directory(relationship_part@, directory@),
{
    let all = chars(relationship_part);
    let mut prefix = directory.to_owned();
    prefix.append("/_rels/");
    let suffix = chars(".rels");
    let prefix_chars = chars(prefix.as_str());
    if !crate::text::matches_at(all.as_slice(), prefix_chars.as_slice(), 0) {
        return None;
    }
    let rest = vstd::slice::slice_subrange(all.as_slice(), prefix_chars.len(), all.len());
    assert(rest@ =~= relationship_part@.skip(prefix@.len() as int));
    if !has_suffix(rest, ".rels") {
        return None;
    }
    let source_name = text_between(rest, 0, rest.len() - suffix.len());
    assert(source_name@ =~= rest@.take(rest@.len() - ".rels"@.len()));
    let mut part = directory.to_owned();
    part.append("/");
    part.append(source_name.as_str());
    Some(part)
}

// ---- What a preview leaves out ----

/// What stands after the last dot.
pub open spec fn extension_of(name: Seq<char>) -> Option<Seq<char>> {
    match last_index(name, '.') {
        Some(at) => Some(name.skip(at + 1)),
        None => None,
    }
}

/// What stands after the last dot.
pub fn extension(name: &[char]) -> (found: Option<String>)
    ensures
        (match found {
            Some(text) => Some(text@),
            None => None,
        }) == extension_of(name@),
{
    match rfind_char(name, '.') {
        Some(at) => {
            let size: usize = name.len();
            let text = text_between(name, at + 1, size);
            assert(text@ =~= name@.skip(at + 1));
            Some(text)
        },
        None => None,
    }
}

/// The extensions of sound and film.
pub open spec fn media_extensions() -> Seq<Seq<char>> {
    seq!["mp3"@, "wav"@, "m4a"@, "mp4"@, "mov"@, "avi"@, "wmv"@, "webm"@]
}

/// A part that a preview must not hold: controls, macros, scripts, embedded objects, sound, film,
/// embedded fonts.
pub open spec fn removed_part(name: Seq<char>, format: OfficeFormat) -> bool {
    let lower = ascii_lowercase(name);
    let extension = extension_of(lower);
    ||| contains(lower, "/activex/"@)
    ||| ends_with(lower, "vbaproject.bin"@)
    ||| contains(lower, "/scripts/"@)
    ||| contains(lower, "/embeddings/"@)
    ||| extension matches Some(found) && media_extensions().contains(found)
    ||| match format {
        OfficeFormat::Docx => contains(lower, "/fonts/"@) && extension == Some("odttf"@),
        OfficeFormat::Pptx => contains(lower, "/fonts/"@) || (contains(lower, "/media/"@) && (
        extension == Some("fntdata"@) || extension == Some("ttf"@) || extension == Some("otf"@))),
    }
}

/// Whether an optional text is the given one.
fn option_is(text: &Option<String>, other: &str) -> (equal: bool)
    ensures
        equal == (text matches Some(inner) && inner@ == other@),
{
    match text {
        Some(inner) => crate::text::same(inner.as_str(), other),
        None => false,
    }
}

/// Whether a preview must not hold this part.
pub fn is_removed_part(name: &str, format: OfficeFormat) -> (removed: bool)
    ensures
        removed == removed_part(name@, format),
{
    let lower = lower_chars(chars(name).as_slice());
    if has_text(lower.as_slice(), "/activex/") || has_suffix(lower.as_slice(), "vbaproject.bin")
        || has_text(lower.as_slice(), "/scripts/") {
        return true;
    }
    if has_text(lower.as_slice(), "/embeddings/") {
        return true;
    }
    let extension = extension(lower.as_slice());
    let media = option_is(&extension, "mp3") || option_is(&extension, "wav") || option_is(
        &extension,
        "m4a",
    ) || option_is(&extension, "mp4") || option_is(&extension, "mov") || option_is(
        &extension,
        "avi",
    ) || option_is(&extension, "wmv") || option_is(&extension, "webm");
    assert(media == (extension matches Some(found) && media_extensions().contains(found@))) by {
        if let Some(found) = extension {
            let list = media_extensions();
            assert(list[0] == "mp3"@ && list[1] == "wav"@ && list[2] == "m4a"@ && list[3] == "mp4"@
                && list[4] == "mov"@ && list[5] == "avi"@ && list[6] == "wmv"@ && list[7] == "webm"@);
        }
    }
    if media {
        return true;
    }
    match format {
        OfficeFormat::Docx => has_text(lower.as_slice(), "/fonts/") && option_is(
            &extension,
            "odttf",
        ),
        OfficeFormat::Pptx => {
            has_text(lower.as_slice(), "/fonts/") || (has_text(lower.as_slice(), "/media/") && (
            option_is(&extension, "fntdata") || option_is(&extension, "ttf") || option_is(
                &extension,
                "otf",
            )))
        },
    }
}

/// The endings of relationship types that lead out of a safe preview.
pub open spec fn blocked_endings() -> Seq<Seq<char>> {
    seq![
        "/hyperlink"@,
        "/oleobject"@,
        "/package"@,
        "/video"@,
        "/audio"@,
        "/media"@,
        "/font"@,
        "/script"@,
        "/control"@,
        "/activex"@,
        "/externallink"@,
        "/subdocument"@,
        "/altchunk"@,
    ]
}

/// A relationship of this type must not stay in a preview.
pub open spec fn blocked_type(relationship_type: Seq<char>) -> bool {
    exists|i: int|
        0 <= i < blocked_endings().len() && ends_with(
            ascii_lowercase(relationship_type),
            #[trigger] blocked_endings()[i],
        )
}

/// Whether a relationship of this type must not stay in a preview.
pub fn relationship_is_blocked(relationship_type: &str) -> (blocked: bool)
    ensures
        blocked == blocked_type(relationship_type@),
{
    let lower = lower_chars(chars(relationship_type).as_slice());
    let endings: [&str; 13] = [
        "/hyperlink",
        "/oleobject",
        "/package",
        "/video",
        "/audio",
        "/media",
        "/font",
        "/script",
        "/control",
        "/activex",
        "/externallink",
        "/subdocument",
        "/altchunk",
    ];
    let mut i: usize = 0;
    while i < 13
        invariant
            i <= 13,
            lower@ == ascii_lowercase(relationship_type@),
            forall|j: int| 0 <= j < 13 ==> (#[trigger] endings@[j])@ == blocked_endings()[j],
            forall|j: int|
                0 <= j < i ==> !ends_with(lower@, #[trigger] blocked_endings()[j]),
        decreases 13 - i,
    {
        if has_suffix(lower.as_slice(), endings[i]) {
            assert(endings@[i as int]@ == blocked_endings()[i as int]);
            return true;
        }
        assert(endings@[i as int]@ == blocked_endings()[i as int]);
        i = i + 1;
    }
    false
}

/// Whether the relationship leads to a slide.
pub fn relationship_is_slide(relationship_type: &str) -> (found: bool)
    ensures
        found == ends_with(ascii_lowercase(relationship_type@), "/slide"@),
{
    has_suffix(lower_chars(chars(relationship_type).as_slice()).as_slice(), "/slide")
}

/// Whether the relationship leads to a chart.
pub fn relationship_is_chart(relationship_type: &str) -> (found: bool)
    ensures
        found == ends_with(ascii_lowercase(relationship_type@), "/chart"@),
{
    has_suffix(lower_chars(chars(relationship_type).as_slice()).as_slice(), "/chart")
}

// ---- Laws ----

/// A path that the steps lead to holds no empty step, no step in place and no step to a parent.
pub proof fn followed_paths_are_plain(steps: Seq<Seq<char>>)
    ensures
        followed(steps) matches Some(path) ==> forall|i: int|
            0 <= i < path.len() ==> (#[trigger] path[i]) != ""@ && path[i] != "."@ && path[i]
                != ".."@,
    decreases steps.len(),
{
    if steps.len() > 0 {
        followed_paths_are_plain(steps.drop_last());
    }
}

/// A part name that was normalized is kept as it is by another normalization.
pub proof fn normalization_is_idempotent(part_name: Seq<char>, label: Seq<char>)
    requires
        bare_part_name(part_name).len() > 0 ==> !crate::text::white(bare_part_name(part_name)[0]),
    ensures
        normalized_part_name(part_name, label) matches Ok(name) ==> normalized_part_name(name, label)
            == Ok::<_, Failure>(name),
{
    let trimmed = trim(part_name);
    let bare = bare_part_name(part_name);
    crate::text::lemma_trim_is_final(part_name);
    lemma_strip_leading_end(trimmed, '/');
    if bare.len() > 0 {
        assert(crate::text::trim_start(bare) == bare);
        assert(crate::text::trim_end(bare) == bare);
        assert(strip_leading(bare, '/') == bare);
    }
}

proof fn lemma_strip_leading_end(text: Seq<char>, c: char)
    ensures
        strip_leading(text, c).len() > 0 ==> strip_leading(text, c)[0] != c && strip_leading(
            text,
            c,
        ).last() == text.last(),
    decreases text.len(),
{
    if text.len() > 0 && text[0] == c {
        lemma_strip_leading_end(text.skip(1), c);
    }
}

/// A step of a path that leads down.
pub open spec fn is_plain_step(step: Seq<char>) -> bool {
    step.len() > 0 && step != "."@ && step != ".."@ && !step.contains('/')
}

/// Steps that lead down.
pub open spec fn are_plain_steps(steps: Seq<Seq<char>>) -> bool {
    forall|i: int| 0 <= i < steps.len() ==> is_plain_step(#[trigger] steps[i])
}

proof fn lemma_steps_down(start: Seq<Seq<char>>, steps: Seq<Seq<char>>, path: Seq<Seq<char>>)
    requires
        followed(start) == Some(path),
        are_plain_steps(steps),
    ensures
        followed(start + steps) == Some(path + steps),
    decreases steps.len(),
{
    if steps.len() == 0 {
        assert(start + steps =~= start);
        assert(path + steps =~= path);
    } else {
        let fewer = steps.drop_last();
        assert(is_plain_step(steps[steps.len() - 1]));
        assert(are_plain_steps(fewer)) by {
            assert forall|i: int| 0 <= i < fewer.len() implies is_plain_step(#[trigger] fewer[i]) by {
                assert(fewer[i] == steps[i]);
            }
        }
        lemma_steps_down(start, fewer, path);
        reveal_strlit("");
        assert((start + steps).drop_last() =~= start + fewer);
        assert((path + fewer).push(steps.last()) =~= path + steps);
    }
}

proof fn lemma_steps_up(start: Seq<Seq<char>>, ups: nat, path: Seq<Seq<char>>)
    requires
        followed(start) == Some(path),
        ups <= path.len(),
    ensures
        followed(start + Seq::new(ups, |i: int| ".."@)) == Some(path.take(path.len() - ups)),
    decreases ups,
{
    let steps = Seq::new(ups, |i: int| ".."@);
    if ups == 0 {
        assert(start + steps =~= start);
        assert(path.take(path.len() as int) =~= path);
    } else {
        let fewer = Seq::new((ups - 1) as nat, |i: int| ".."@);
        lemma_steps_up(start, (ups - 1) as nat, path);
        assert((start + steps).drop_last() =~= start + fewer);
        assert((start + steps).last() == ".."@);
        reveal_strlit("");
        reveal_strlit(".");
        reveal_strlit("..");
        assert(".."@.len() == 2 && "."@.len() == 1);
        assert(path.take(path.len() - (ups - 1)).drop_last() =~= path.take(path.len() - ups));
    }
}

proof fn lemma_join_in_turn(first: Seq<Seq<char>>, second: Seq<Seq<char>>, separator: Seq<char>)
    requires
        first.len() > 0,
        second.len() > 0,
    ensures
        join(first + second, separator) == join(first, separator) + separator + join(second, separator),
    decreases second.len(),
{
    let all = first + second;
    if second.len() == 1 {
        assert(all.drop_last() =~= first);
        assert(all.last() == second[0]);
    } else {
        lemma_join_in_turn(first, second.drop_last(), separator);
        assert(all.drop_last() =~= first + second.drop_last());
        assert(all.last() == second.last());
        assert(join(all, separator) =~= join(first, separator) + separator + join(second, separator));
    }
}

/// A target that leads up so many directories and then down names the part that lies there, seen from
/// the directory of the part that holds the relationship; one that opens with a slash is seen from
/// the root. A target that leads out of the package is refused.
pub proof fn targets_are_followed(
    directory: Seq<Seq<char>>,
    file: Seq<char>,
    ups: nat,
    steps: Seq<Seq<char>>,
    format: Seq<char>,
    label: Seq<char>,
)
    requires
        directory.len() > 0,
        are_plain_steps(directory),
        is_plain_step(file),
        steps.len() > 0,
        are_plain_steps(steps),
        ({
            let target = join(Seq::new(ups, |i: int| ".."@) + steps, seq!['/']);
            &&& trim(target) == target
            &&& before_fragment(target) == target
            &&& !external_target(target)
            &&& !target.contains('\\')
        }),
    ensures
        ({
            let source = join(directory.push(file), seq!['/']);
            let target = join(Seq::new(ups, |i: int| ".."@) + steps, seq!['/']);
            &&& ups <= directory.len() ==> resolved_target(source, target, format, label) == Ok::<
                _,
                Failure,
            >(join(directory.take(directory.len() - ups) + steps, seq!['/']))
            &&& ups > directory.len() ==> resolved_target(source, target, format, label) is Err
        }),
{
    let slash = seq!['/'];
    let back = Seq::new(ups, |i: int| ".."@);
    let named = back + steps;
    let source = join(directory.push(file), slash);
    let target = join(named, slash);
    let place = join(directory, slash);
    assert(directory.push(file).drop_last() =~= directory);
    assert(source =~= place + slash + file);
    assert(is_plain_step(file));
    lemma_last_slash(place, file);
    reveal_strlit("..");
    assert(".."@.len() == 2 && ".."@[0] == '.' && ".."@[1] == '.');
    assert forall|i: int| 0 <= i < named.len() implies !(#[trigger] named[i]).contains('/') && named[i].len()
        > 0 by {
        if i < ups {
            assert(named[i] == ".."@);
        } else {
            assert(named[i] == steps[i - ups]);
            assert(is_plain_step(steps[i - ups]));
        }
    }
    lemma_join_first(named, slash);
    assert(target[0] == named[0][0]);
    assert(named[0].contains(named[0][0]));
    assert(target[0] != '/');
    let all = directory + named;
    lemma_join_in_turn(directory, named, slash);
    assert(raw_path(source, target) == join(all, slash)) by {
        assert(source.take(place.len() as int) =~= place);
    }
    assert forall|i: int| 0 <= i < all.len() implies !(#[trigger] all[i]).contains('/') by {
        if i < directory.len() {
            assert(all[i] == directory[i]);
            assert(is_plain_step(directory[i]));
        } else {
            assert(all[i] == named[i - directory.len()]);
        }
    }
    joined_pieces_come_apart(all, '/');
    let nowhere = Seq::<Seq<char>>::empty();
    lemma_steps_down(nowhere, directory, nowhere);
    assert(nowhere + directory =~= directory);
    if ups <= directory.len() {
        lemma_steps_up(directory, ups, directory);
        lemma_steps_down(directory + back, steps, directory.take(directory.len() - ups));
        assert(directory + back + steps =~= all);
    } else {
        let most = directory.len();
        let first = Seq::new(most, |i: int| ".."@);
        lemma_steps_up(directory, most, directory);
        assert(directory.take(0) =~= nowhere);
        let over = (directory + first).push(".."@);
        assert(over.drop_last() =~= directory + first);
        reveal_strlit("");
        reveal_strlit(".");
        assert("."@.len() == 1);
        assert(followed(over) is None);
        let rest = all.skip(over.len() as int);
        assert(over + rest =~= all) by {
            assert forall|i: int| 0 <= i < over.len() implies over[i] == all[i] by {
                if i >= directory.len() {
                    assert(all[i] == back[i - directory.len()]);
                }
            }
        }
        lemma_nothing_follows(over, rest);
    }
}

proof fn lemma_nothing_follows(start: Seq<Seq<char>>, steps: Seq<Seq<char>>)
    requires
        followed(start) is None,
    ensures
        followed(start + steps) is None,
    decreases steps.len(),
{
    if steps.len() == 0 {
        assert(start + steps =~= start);
    } else {
        assert((start + steps).drop_last() =~= start + steps.drop_last());
        lemma_nothing_follows(start, steps.drop_last());
    }
}

proof fn lemma_join_first(texts: Seq<Seq<char>>, separator: Seq<char>)
    requires
        texts.len() > 0,
        texts[0].len() > 0,
    ensures
        join(texts, separator).len() > 0,
        join(texts, separator)[0] == texts[0][0],
    decreases texts.len(),
{
    if texts.len() > 1 {
        lemma_join_first(texts.drop_last(), separator);
        assert(texts.drop_last()[0] == texts[0]);
    }
}

proof fn lemma_last_slash(place: Seq<char>, file: Seq<char>)
    requires
        !file.contains('/'),
    ensures
        last_index(place + seq!['/'] + file, '/') == Some(place.len() as int),
    decreases file.len(),
{
    let path = place + seq!['/'] + file;
    if file.len() == 0 {
        assert(path.last() == '/');
    } else {
        let shorter = file.drop_last();
        assert(file[file.len() - 1] != '/');
        assert(path.last() == file.last());
        assert forall|i: int| 0 <= i < shorter.len() implies shorter[i] != '/' by {
            assert(shorter[i] == file[i]);
        }
        assert(path.drop_last() =~= place + seq!['/'] + shorter);
        lemma_last_slash(place, shorter);
    }
}

/// The part with the relationships of a part lies beside it in a directory of its own, and tells
/// whose relationships it holds.
pub proof fn relationship_parts_name_their_source(directory: Seq<char>, file: Seq<char>)
    requires
        directory.len() > 0,
        file.len() > 0,
        !file.contains('/'),
    ensures
        relationships_part(directory + seq!['/'] + file) == directory + "/_rels/"@ + file + ".rels"@,
        relationships_source(relationships_part(directory + seq!['/'] + file)) == Ok::<_, Failure>(
            directory + seq!['/'] + file,
        ),
{
    let source = directory + seq!['/'] + file;
    let between = "/_rels/"@;
    let ending = ".rels"@;
    let part = directory + between + file + ending;
    reveal_strlit("/_rels/");
    reveal_strlit(".rels");
    reveal_strlit("/");
    reveal_strlit("_rels/.rels");
    lemma_last_slash(directory, file);
    assert(source.take(directory.len() as int) =~= directory);
    assert(source.skip(directory.len() as int + 1) =~= file);
    let at: int = directory.len() as int;
    assert(part.subrange(at, at + between.len()) =~= between);
    assert(occurs_at(part, between, at));
    lemma_no_later_slash(directory, file, part.len() as int);
    assert(part != "_rels/.rels"@) by {
        if part == "_rels/.rels"@ {
            assert(part.len() == 11 && between.len() == 7 && ending.len() == 5);
        }
    }
    let name = part.skip(at + between.len());
    assert(name =~= file + ending);
    assert(name.subrange(name.len() - ending.len(), name.len() as int) =~= ending);
    assert(ends_with(name, ending));
    assert(name.take(name.len() - ending.len()) =~= file);
    assert(part.take(at) =~= directory);
    assert("/"@ =~= seq!['/']);
}

proof fn lemma_no_later_slash(directory: Seq<char>, file: Seq<char>, from: int)
    requires
        !file.contains('/'),
        directory.len() <= from,
    ensures
        rfind_before(directory + "/_rels/"@ + file + ".rels"@, "/_rels/"@, from) == Some(
            directory.len() as int,
        ),
    decreases from,
{
    let between = "/_rels/"@;
    let part = directory + between + file + ".rels"@;
    let at: int = directory.len() as int;
    reveal_strlit("/_rels/");
    reveal_strlit(".rels");
    if from == at {
        assert(part.subrange(at, at + between.len()) =~= between);
        assert(occurs_at(part, between, at));
    } else {
        assert(!occurs_at(part, between, from)) by {
            if occurs_at(part, between, from) {
                let found = part.subrange(from, from + between.len());
                assert(found[0] == '/' && found[6] == '/');
                assert(part[from] == '/' && part[from + 6] == '/');
                let k = from + 6 - at;
                if k < 7 {
                } else if k - 7 < file.len() {
                    assert(part[from + 6] == file[k - 7]);
                } else {
                    assert(part[from + 6] == ".rels"@[k - 7 - file.len()]);
                }
            }
        }
        lemma_no_later_slash(directory, file, from - 1);
    }
}

proof fn lemma_lower_case_in_turn(first: Seq<char>, second: Seq<char>)
    ensures
        ascii_lowercase(first + second) == ascii_lowercase(first) + ascii_lowercase(second),
{
    assert(ascii_lowercase(first + second) =~= ascii_lowercase(first) + ascii_lowercase(second));
}

/// Controls, scripts and embedded objects are taken out of a preview by the directory in which they
/// lie, macros by their name, whatever the case of the letters and whatever else their path says.
pub proof fn unsafe_directories_are_taken_out(
    start: Seq<char>,
    middle: Seq<char>,
    end: Seq<char>,
    format: OfficeFormat,
)
    ensures
        ascii_lowercase(middle) == "/activex/"@ || ascii_lowercase(middle) == "/scripts/"@
            || ascii_lowercase(middle) == "/embeddings/"@ ==> removed_part(start + middle + end, format),
        ascii_lowercase(middle) == "vbaproject.bin"@ ==> removed_part(start + middle, format),
        ascii_lowercase(middle) == "/fonts/"@ && format == OfficeFormat::Pptx ==> removed_part(
            start + middle + end,
            format,
        ),
{
    let whole = start + middle + end;
    let lower = ascii_lowercase(whole);
    let at: int = start.len() as int;
    lemma_lower_case_in_turn(start + middle, end);
    lemma_lower_case_in_turn(start, middle);
    let part = lower.subrange(at, at + middle.len());
    assert(part =~= ascii_lowercase(middle));
    assert(occurs_at(lower, ascii_lowercase(middle), at));
    assert(contains(lower, ascii_lowercase(middle)));
    let short = ascii_lowercase(start + middle);
    assert(short.subrange(at, at + middle.len()) =~= ascii_lowercase(middle));
    assert(ends_with(short, ascii_lowercase(middle)));
}

/// Sound and film are taken out of a preview by their extension, whatever the case of its letters.
pub proof fn media_are_taken_out(start: Seq<char>, extension: Seq<char>, format: OfficeFormat)
    requires
        media_extensions().contains(ascii_lowercase(extension)),
        !extension.contains('.'),
    ensures
        removed_part(start + seq!['.'] + extension, format),
{
    let name = start + seq!['.'] + extension;
    let lower = ascii_lowercase(name);
    let dot = seq!['.'];
    lemma_lower_case_in_turn(start + dot, extension);
    lemma_lower_case_in_turn(start, dot);
    assert(ascii_lowercase(dot) =~= dot);
    let small = ascii_lowercase(extension);
    assert forall|i: int| 0 <= i < small.len() implies small[i] != '.' by {
        assert(small[i] == crate::text::ascii_lower(extension[i]));
        assert(extension[i] != '.');
    }
    lemma_last_dot(ascii_lowercase(start), small);
    assert(lower.skip(start.len() as int + 1) =~= small);
}

proof fn lemma_last_dot(start: Seq<char>, extension: Seq<char>)
    requires
        !extension.contains('.'),
    ensures
        last_index(start + seq!['.'] + extension, '.') == Some(start.len() as int),
    decreases extension.len(),
{
    let name = start + seq!['.'] + extension;
    if extension.len() == 0 {
        assert(name.last() == '.');
    } else {
        let shorter = extension.drop_last();
        assert(extension[extension.len() - 1] != '.');
        assert(name.last() == extension.last());
        assert forall|i: int| 0 <= i < shorter.len() implies shorter[i] != '.' by {
            assert(shorter[i] == extension[i]);
        }
        assert(name.drop_last() =~= start + seq!['.'] + shorter);
        lemma_last_dot(start, shorter);
    }
}

/// A relationship does not stay in a preview where its type ends with one of those that lead out of
/// it, whatever the case of the letters.
pub proof fn relationships_are_blocked_by_their_ending(start: Seq<char>, ending: Seq<char>)
    ensures
        seq![
            "/hyperlink"@,
            "/oleobject"@,
            "/package"@,
            "/video"@,
            "/audio"@,
            "/media"@,
            "/font"@,
            "/script"@,
            "/control"@,
            "/activex"@,
            "/externallink"@,
            "/subdocument"@,
            "/altchunk"@,
        ].contains(ascii_lowercase(ending)) ==> blocked_type(start + ending),
{
    let lower = ascii_lowercase(start + ending);
    let small = ascii_lowercase(ending);
    lemma_lower_case_in_turn(start, ending);
    assert(lower.subrange(start.len() as int, lower.len() as int) =~= small);
    assert(ends_with(lower, small));
    if blocked_endings().contains(small) {
        let i = choose|i: int| 0 <= i < blocked_endings().len() && blocked_endings()[i] == small;
        assert(ends_with(lower, blocked_endings()[i]));
    }
}

} // verus!
