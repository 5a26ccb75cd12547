//! Text as sequences of characters: searching, trimming, case folding, joining.

use vstd::prelude::*;

verus! {

// ---- Trusted items of std ----

/// `String::push` appends one character to the end of the string.
pub assume_specification[ String::push ](text: &mut String, c: char)
    ensures
        final(text)@ == old(text)@.push(c),
;

/// `<str as PartialEq>::eq` holds exactly when the two texts have the same characters.
pub assume_specification[ <str as PartialEq>::eq ](left: &str, right: &str) -> (equal: bool)
    ensures
        equal == (left@ == right@),
;

/// The lower-case form of a text under the Unicode mapping that std carries.
pub uninterp spec fn lowercase(text: Seq<char>) -> Seq<char>;

/// `str::to_lowercase`: the result is a function of the text alone. The Unicode tables behind it
/// are not stated.
#[verifier::external_body]
pub(crate) fn to_lowercase(text: &str) -> (lower: String)
    ensures
        lower@ == lowercase(text@),
{
    text.to_lowercase()
}

/// The text that std makes of bytes, with U+FFFD in place of each ill-formed run.
pub uninterp spec fn utf8_lossy(bytes: Seq<u8>) -> Seq<char>;

/// `String::from_utf8_lossy`: well-formed bytes give the text they encode; where ill-formed runs
/// begin and end is not stated.
#[verifier::external_body]
pub(crate) fn from_utf8_lossy(bytes: &[u8]) -> (text: String)
    ensures
        text@ == utf8_lossy(bytes@),
        vstd::utf8::valid_utf8(bytes@) ==> text@ == vstd::utf8::decode_utf8(bytes@),
{
    String::from_utf8_lossy(bytes).into_owned()
}

/// The first `at` bytes are well-formed UTF-8, and no more of them are.
pub open spec fn valid_up_to(bytes: Seq<u8>, at: int) -> bool {
    &&& 0 <= at <= bytes.len()
    &&& vstd::utf8::valid_utf8(bytes.take(at))
    &&& forall|more: int| at < more <= bytes.len() ==> !vstd::utf8::valid_utf8(#[trigger] bytes.take(more))
}

/// How many of the bytes are well-formed UTF-8.
pub open spec fn valid_length(bytes: Seq<u8>) -> int {
    choose|at: int| valid_up_to(bytes, at)
}

/// `std::str::from_utf8`: succeeds exactly on well-formed UTF-8, with the text it encodes; else it
/// gives `Utf8Error::valid_up_to`, the largest number of bytes that are well-formed.
#[verifier::external_body]
fn str_from_utf8(bytes: &[u8]) -> (text: Result<String, usize>)
    ensures
        text is Ok <==> vstd::utf8::valid_utf8(bytes@),
        text matches Ok(decoded) ==> decoded@ == vstd::utf8::decode_utf8(bytes@),
        text matches Err(at) ==> valid_up_to(bytes@, at as int),
{
    std::str::from_utf8(bytes).map(str::to_owned).map_err(|error| error.valid_up_to())
}

/// The text that the bytes encode, or how many of them are well-formed.
pub fn from_utf8(bytes: &[u8]) -> (text: Result<String, usize>)
    ensures
        text is Ok <==> vstd::utf8::valid_utf8(bytes@),
        text matches Ok(decoded) ==> decoded@ == vstd::utf8::decode_utf8(bytes@),
        text matches Err(at) ==> at == valid_length(bytes@) && at <= bytes@.len(),
{
    let text = str_from_utf8(bytes);
    proof {
        if let Err(at) = text {
            let other = valid_length(bytes@);
            assert(valid_up_to(bytes@, other));
            if other < at {
                assert(!vstd::utf8::valid_utf8(bytes@.take(at as int)));
            }
            if at < other {
                assert(!vstd::utf8::valid_utf8(bytes@.take(other)));
            }
        }
    }
    text
}

// ---- Occurrences ----

/// `needle` stands in `hay` at position `at`.
pub open spec fn occurs_at<T>(hay: Seq<T>, needle: Seq<T>, at: int) -> bool {
    &&& 0 <= at
    &&& at + needle.len() <= hay.len()
    &&& hay.subrange(at, at + needle.len()) == needle
}

/// `needle` stands somewhere in `hay`.
pub open spec fn contains<T>(hay: Seq<T>, needle: Seq<T>) -> bool {
    exists|at: int| occurs_at(hay, needle, at)
}

/// `at` is the first position, not before `from`, where `needle` stands in `hay`.
pub open spec fn first_at<T>(hay: Seq<T>, needle: Seq<T>, from: int, at: int) -> bool {
    &&& from <= at
    &&& occurs_at(hay, needle, at)
    &&& forall|j: int| from <= j < at ==> !occurs_at(hay, needle, j)
}

/// `needle` stands nowhere in `hay` from position `from` on.
pub open spec fn absent_from<T>(hay: Seq<T>, needle: Seq<T>, from: int) -> bool {
    forall|j: int| from <= j ==> !occurs_at(hay, needle, j)
}

/// The first position, not before `from`, where `needle` stands in `hay`.
pub open spec fn find_from<T>(hay: Seq<T>, needle: Seq<T>, from: int) -> Option<int> {
    if exists|at: int| first_at(hay, needle, from, at) {
        Some(choose|at: int| first_at(hay, needle, from, at))
    } else {
        None
    }
}

pub proof fn lemma_find_some<T>(hay: Seq<T>, needle: Seq<T>, from: int, at: int)
    requires
        first_at(hay, needle, from, at),
    ensures
        find_from(hay, needle, from) == Some(at),
{
    let other = choose|other: int| first_at(hay, needle, from, other);
    assert(first_at(hay, needle, from, other));
    if other < at {
        assert(!occurs_at(hay, needle, other));
    }
    if at < other {
        assert(!occurs_at(hay, needle, at));
    }
}

pub proof fn lemma_find_none<T>(hay: Seq<T>, needle: Seq<T>, from: int)
    requires
        absent_from(hay, needle, from),
    ensures
        find_from(hay, needle, from) is None,
{
    assert forall|at: int| !first_at(hay, needle, from, at) by {
        if from <= at {
            assert(!occurs_at(hay, needle, at));
        }
    }
}

/// Where `find_from` answers, the answer is the first occurrence; where it does not, there is none.
pub proof fn lemma_find_meaning<T>(hay: Seq<T>, needle: Seq<T>, from: int)
    requires
        0 <= from,
    ensures
        find_from(hay, needle, from) matches Some(at) ==> first_at(hay, needle, from, at),
        find_from(hay, needle, from) is None ==> absent_from(hay, needle, from),
{
    if find_from(hay, needle, from) is None {
        assert forall|j: int| from <= j implies !occurs_at(hay, needle, j) by {
            lemma_no_first_no_occurrence(hay, needle, from, j);
        }
    }
}

proof fn lemma_no_first_no_occurrence<T>(hay: Seq<T>, needle: Seq<T>, from: int, at: int)
    requires
        0 <= from <= at,
        !exists|first: int| first_at(hay, needle, from, first),
    ensures
        !occurs_at(hay, needle, at),
    decreases at - from,
{
    if occurs_at(hay, needle, at) {
        assert forall|j: int| from <= j < at implies !occurs_at(hay, needle, j) by {
            lemma_no_first_no_occurrence(hay, needle, from, j);
        }
        assert(first_at(hay, needle, from, at));
    }
}

/// The text begins with `prefix`.
pub open spec fn starts_with<T>(hay: Seq<T>, prefix: Seq<T>) -> bool {
    occurs_at(hay, prefix, 0)
}

/// The text ends with `suffix`.
pub open spec fn ends_with<T>(hay: Seq<T>, suffix: Seq<T>) -> bool {
    occurs_at(hay, suffix, hay.len() - suffix.len())
}

// ---- Conversions ----

/// The characters of a text.
pub fn chars(text: &str) -> (out: Vec<char>)
    ensures
        out@ == text@,
{
    let mut out: Vec<char> = Vec::new();
    for c in it: text.chars()
        invariant
            it.seq() == text@,
            out@ == text@.take(it.index() as int),
    {
        out.push(c);
    }
    out
}

/// The text made of the given characters.
pub fn text_of(chars: &[char]) -> (text: String)
    ensures
        text@ == chars@,
{
    let mut text = String::new();
    let mut i: usize = 0;
    while i < chars.len()
        invariant
            i <= chars@.len(),
            text@ == chars@.take(i as int),
        decreases chars@.len() - i,
    {
        text.push(chars[i]);
        i = i + 1;
    }
    text
}

/// The characters `chars[from..to]` as a text.
pub fn text_between(chars: &[char], from: usize, to: usize) -> (text: String)
    requires
        from <= to <= chars@.len(),
    ensures
        text@ == chars@.subrange(from as int, to as int),
{
    text_of(vstd::slice::slice_subrange(chars, from, to))
}

/// Appends the characters of `part` to `chars`.
pub fn push_chars(chars: &mut Vec<char>, part: &str)
    ensures
        final(chars)@ == old(chars)@ + part@,
{
    let ghost before = chars@;
    for c in it: part.chars()
        invariant
            it.seq() == part@,
            chars@ == before + part@.take(it.index() as int),
    {
        chars.push(c);
    }
}

// ---- Comparison and search ----

/// The two texts are equal.
pub fn same(left: &str, right: &str) -> (equal: bool)
    ensures
        equal == (left@ == right@),
{
    *left == *right
}

/// The two optional texts are equal.
pub fn same_option(left: &Option<String>, right: &Option<String>) -> (equal: bool)
    ensures
        equal == (optional(*left) == optional(*right)),
{
    match (left, right) {
        (Some(a), Some(b)) => same(a.as_str(), b.as_str()),
        (None, None) => true,
        _ => false,
    }
}

/// An optional text by its characters.
pub open spec fn optional(text: Option<String>) -> Option<Seq<char>> {
    match text {
        Some(inner) => Some(inner@),
        None => None,
    }
}

/// A copy of an optional text.
pub fn copy_option(text: &Option<String>) -> (copy: Option<String>)
    ensures
        copy == *text,
{
    match text {
        Some(inner) => Some(inner.clone()),
        None => None,
    }
}

/// The characters of each text.
pub open spec fn views(texts: Seq<String>) -> Seq<Seq<char>> {
    texts.map_values(|text: String| text@)
}

/// A copy of the list.
pub fn copy_texts(list: &Vec<String>) -> (copy: Vec<String>)
    ensures
        views(copy@) == views(list@),
{
    let mut copy: Vec<String> = Vec::new();
    let mut i: usize = 0;
    while i < list.len()
        invariant
            i <= list@.len(),
            copy@.len() == i,
            forall|j: int| 0 <= j < i ==> (#[trigger] copy@[j])@ == list@[j]@,
        decreases list@.len() - i,
    {
        copy.push(list[i].clone());
        i = i + 1;
    }
    assert(views(copy@) =~= views(list@));
    copy
}

/// Whether `list` holds a text with these characters.
pub fn list_contains(list: &Vec<String>, text: &str) -> (found: bool)
    ensures
        found == views(list@).contains(text@),
{
    let mut i: usize = 0;
    while i < list.len()
        invariant
            i <= list@.len(),
            forall|j: int| 0 <= j < i ==> list@[j]@ != text@,
        decreases list@.len() - i,
    {
        if same(list[i].as_str(), text) {
            assert(views(list@)[i as int] == text@);
            return true;
        }
        i = i + 1;
    }
    assert forall|j: int| 0 <= j < views(list@).len() implies views(list@)[j] != text@ by {
        assert(list@[j]@ != text@);
    }
    false
}

/// Whether `needle` stands in `hay` at `at`.
pub fn matches_at(hay: &[char], needle: &[char], at: usize) -> (found: bool)
    ensures
        found == occurs_at(hay@, needle@, at as int),
{
    let size: usize = hay.len();
    if at > size || needle.len() > size - at {
        return false;
    }
    let mut i: usize = 0;
    while i < needle.len()
        invariant
            i <= needle@.len(),
            at + needle@.len() <= hay@.len() <= usize::MAX,
            forall|j: int| 0 <= j < i ==> hay@[at + j] == needle@[j],
        decreases needle@.len() - i,
    {
        if hay[at + i] != needle[i] {
            assert(hay@.subrange(at as int, at + needle@.len())[i as int] != needle@[i as int]);
            return false;
        }
        i = i + 1;
    }
    assert(hay@.subrange(at as int, at + needle@.len()) =~= needle@);
    true
}

/// The first position, not before `from`, where `needle` stands in `hay`.
pub fn find_chars(hay: &[char], needle: &[char], from: usize) -> (found: Option<usize>)
    ensures
        found matches Some(at) ==> first_at(hay@, needle@, from as int, at as int),
        found is None ==> absent_from(hay@, needle@, from as int),
        find_from(hay@, needle@, from as int) == (match found {
            Some(at) => Some(at as int),
            None => None,
        }),
{
    if needle.len() > hay.len() {
        proof {
            lemma_find_none(hay@, needle@, from as int);
        }
        return None;
    }
    let last: usize = hay.len() - needle.len();
    let mut at: usize = from;
    while at < last
        invariant
            from <= at,
            last + needle@.len() == hay@.len(),
            forall|j: int| from <= j < at ==> !occurs_at(hay@, needle@, j),
        decreases last - at,
    {
        if matches_at(hay, needle, at) {
            proof {
                lemma_find_some(hay@, needle@, from as int, at as int);
            }
            return Some(at);
        }
        at = at + 1;
    }
    if at == last && matches_at(hay, needle, at) {
        proof {
            lemma_find_some(hay@, needle@, from as int, at as int);
        }
        return Some(at);
    }
    proof {
        lemma_find_none(hay@, needle@, from as int);
    }
    None
}

/// Whether `text` begins with `prefix`.
pub fn has_prefix(text: &[char], prefix: &str) -> (found: bool)
    ensures
        found == starts_with(text@, prefix@),
{
    let prefix = chars(prefix);
    matches_at(text, prefix.as_slice(), 0)
}

/// Whether `text` ends with `suffix`.
pub fn has_suffix(text: &[char], suffix: &str) -> (found: bool)
    ensures
        found == ends_with(text@, suffix@),
{
    let suffix = chars(suffix);
    if suffix.len() > text.len() {
        return false;
    }
    matches_at(text, suffix.as_slice(), text.len() - suffix.len())
}

/// Whether `needle` stands somewhere in `text`.
pub fn has_text(text: &[char], needle: &str) -> (found: bool)
    ensures
        found == contains(text@, needle@),
{
    let needle = chars(needle);
    match find_chars(text, needle.as_slice(), 0) {
        Some(_) => true,
        None => {
            assert(!contains(text@, needle@)) by {
                assert forall|at: int| !occurs_at(text@, needle@, at) by {}
            }
            false
        },
    }
}

// ---- Whitespace ----

/// The characters with the Unicode property `White_Space`.
pub open spec fn white(c: char) -> bool {
    let n = c as u32;
    ||| 0x09 <= n <= 0x0d
    ||| n == 0x20
    ||| n == 0x85
    ||| n == 0xa0
    ||| n == 0x1680
    ||| 0x2000 <= n <= 0x200a
    ||| n == 0x2028
    ||| n == 0x2029
    ||| n == 0x202f
    ||| n == 0x205f
    ||| n == 0x3000
}

/// Whether `c` is white space.
pub fn is_white(c: char) -> (found: bool)
    ensures
        found == white(c),
{
    let n: u32 = c as u32;
    (0x09 <= n && n <= 0x0d) || n == 0x20 || n == 0x85 || n == 0xa0 || n == 0x1680 || (0x2000 <= n
        && n <= 0x200a) || n == 0x2028 || n == 0x2029 || n == 0x202f || n == 0x205f || n == 0x3000
}

/// The text without the white space at its start.
pub open spec fn trim_start(text: Seq<char>) -> Seq<char>
    decreases text.len(),
{
    if text.len() > 0 && white(text[0]) {
        trim_start(text.skip(1))
    } else {
        text
    }
}

/// The text without the white space at its end.
pub open spec fn trim_end(text: Seq<char>) -> Seq<char>
    decreases text.len(),
{
    if text.len() > 0 && white(text.last()) {
        trim_end(text.drop_last())
    } else {
        text
    }
}

/// The text without the white space at either end.
pub open spec fn trim(text: Seq<char>) -> Seq<char> {
    trim_end(trim_start(text))
}

/// The bounds of the text without the white space at either end.
pub fn trim_range(text: &[char]) -> (bounds: (usize, usize))
    ensures
        bounds.0 <= bounds.1 <= text@.len(),
        text@.subrange(bounds.0 as int, bounds.1 as int) == trim(text@),
{
    let mut from: usize = 0;
    assert(text@.skip(0) =~= text@);
    while from < text.len() && is_white(text[from])
        invariant
            from <= text@.len(),
            trim_start(text@.skip(from as int)) == trim_start(text@),
        decreases text@.len() - from,
    {
        assert(text@.skip(from as int).skip(1) =~= text@.skip(from + 1));
        from = from + 1;
    }
    assert(trim_start(text@) == text@.skip(from as int));
    let mut to: usize = text.len();
    assert(text@.subrange(from as int, to as int) =~= text@.skip(from as int));
    while from < to && is_white(text[to - 1])
        invariant
            from <= to <= text@.len(),
            trim_end(text@.subrange(from as int, to as int)) == trim(text@),
        decreases to - from,
    {
        assert(text@.subrange(from as int, to as int).drop_last() =~= text@.subrange(
            from as int,
            to - 1,
        ));
        to = to - 1;
    }
    (from, to)
}

/// The text without the white space at either end.
pub fn trimmed(text: &str) -> (out: String)
    ensures
        out@ == trim(text@),
{
    let all = chars(text);
    let (from, to) = trim_range(all.as_slice());
    text_between(all.as_slice(), from, to)
}

/// A trimmed text neither begins nor ends with white space, and trimming it again changes nothing.
pub proof fn lemma_trim_is_final(text: Seq<char>)
    ensures
        trim(text).len() > 0 ==> !white(trim(text)[0]) && !white(trim(text).last()),
        trim(trim(text)) == trim(text),
{
    lemma_trim_start_edge(text);
    lemma_trim_end_edge(trim_start(text));
    let out = trim(text);
    if out.len() > 0 {
        assert(out[0] == trim_start(text)[0]);
        assert(trim_start(out) == out);
        assert(trim_end(out) == out);
    }
}

proof fn lemma_trim_start_edge(text: Seq<char>)
    ensures
        trim_start(text).len() > 0 ==> !white(trim_start(text)[0]),
    decreases text.len(),
{
    if text.len() > 0 && white(text[0]) {
        lemma_trim_start_edge(text.skip(1));
    }
}

proof fn lemma_trim_end_edge(text: Seq<char>)
    ensures
        trim_end(text).len() > 0 ==> !white(trim_end(text).last()),
        trim_end(text).len() <= text.len(),
        forall|i: int| 0 <= i < trim_end(text).len() ==> trim_end(text)[i] == text[i],
    decreases text.len(),
{
    if text.len() > 0 && white(text.last()) {
        lemma_trim_end_edge(text.drop_last());
        let shorter = text.drop_last();
        assert forall|i: int| 0 <= i < trim_end(text).len() implies trim_end(text)[i] == text[i] by {
            assert(trim_end(shorter)[i] == shorter[i]);
        }
    }
}

// ---- ASCII case ----

/// The lower-case form of an ASCII letter; every other character is kept.
pub open spec fn ascii_lower(c: char) -> char {
    if 'A' <= c && c <= 'Z' {
        (c as u32 + 32) as char
    } else {
        c
    }
}

/// The text with its ASCII letters in lower case.
pub open spec fn ascii_lowercase(text: Seq<char>) -> Seq<char> {
    text.map_values(|c: char| ascii_lower(c))
}

/// The lower-case form of an ASCII letter; every other character is kept.
pub fn lower_char(c: char) -> (lower: char)
    ensures
        lower == ascii_lower(c),
{
    if 'A' <= c && c <= 'Z' {
        (c as u8 + 32) as char
    } else {
        c
    }
}

/// The characters with the ASCII letters in lower case.
pub fn lower_chars(text: &[char]) -> (out: Vec<char>)
    ensures
        out@ == ascii_lowercase(text@),
{
    let mut out: Vec<char> = Vec::new();
    let mut i: usize = 0;
    while i < text.len()
        invariant
            i <= text@.len(),
            out@ == ascii_lowercase(text@).take(i as int),
        decreases text@.len() - i,
    {
        out.push(lower_char(text[i]));
        i = i + 1;
    }
    out
}

/// The text with its ASCII letters in lower case.
pub fn to_ascii_lowercase(text: &str) -> (out: String)
    ensures
        out@ == ascii_lowercase(text@),
{
    text_of(lower_chars(chars(text).as_slice()).as_slice())
}

/// Whether the two texts are equal but for the case of ASCII letters.
pub fn eq_ignore_ascii_case(left: &str, right: &str) -> (equal: bool)
    ensures
        equal == (ascii_lowercase(left@) == ascii_lowercase(right@)),
{
    same(to_ascii_lowercase(left).as_str(), to_ascii_lowercase(right).as_str())
}

// ---- Numbers ----

/// The character of a decimal digit.
pub open spec fn digit(n: nat) -> char {
    ('0' as u32 + n) as char
}

/// A number in decimal notation.
pub open spec fn decimal(n: nat) -> Seq<char>
    decreases n,
{
    if n < 10 {
        seq![digit(n)]
    } else {
        decimal(n / 10).push(digit(n % 10))
    }
}

/// Appends a number in decimal notation.
pub fn push_decimal(text: &mut String, n: u64)
    ensures
        final(text)@ == old(text)@ + decimal(n as nat),
    decreases n,
{
    let ghost before = text@;
    if n >= 10 {
        push_decimal(text, n / 10);
    }
    let last: u8 = (n % 10) as u8;
    text.push(('0' as u8 + last) as char);
    assert(text@ =~= before + decimal(n as nat));
}

// ---- Order ----

/// `left` comes before `right` in the order of code points, compared from position `at` on.
pub open spec fn before_from(left: Seq<char>, right: Seq<char>, at: int) -> bool
    decreases left.len() - at,
{
    if at >= right.len() {
        false
    } else if at >= left.len() {
        true
    } else if left[at] != right[at] {
        left[at] < right[at]
    } else {
        before_from(left, right, at + 1)
    }
}

/// `left` comes before `right` in the order of code points.
pub open spec fn before(left: Seq<char>, right: Seq<char>) -> bool {
    before_from(left, right, 0)
}

/// Whether `left` comes before `right` in the order of code points.
pub fn is_before(left: &str, right: &str) -> (found: bool)
    ensures
        found == before(left@, right@),
{
    let first = chars(left);
    let second = chars(right);
    let mut i: usize = 0;
    while i < first.len() && i < second.len()
        invariant
            first@ == left@,
            second@ == right@,
            i <= left@.len(),
            i <= right@.len(),
            before_from(left@, right@, i as int) == before(left@, right@),
        decreases left@.len() - i,
    {
        if first[i] != second[i] {
            return first[i] < second[i];
        }
        i = i + 1;
    }
    i < second.len()
}

/// Of two different texts, exactly one comes before the other.
pub proof fn lemma_order_is_total(left: Seq<char>, right: Seq<char>, at: int)
    requires
        0 <= at <= left.len(),
        at <= right.len(),
        left.take(at) == right.take(at),
    ensures
        left != right ==> before_from(left, right, at) != before_from(right, left, at),
        left == right ==> !before_from(left, right, at),
    decreases left.len() - at,
{
    if at < left.len() && at < right.len() && left[at] == right[at] {
        assert(left.take(at + 1) =~= left.take(at).push(left[at]));
        assert(right.take(at + 1) =~= right.take(at).push(right[at]));
        lemma_order_is_total(left, right, at + 1);
    } else if at == left.len() && at == right.len() {
        assert(left.take(at) =~= left);
        assert(right.take(at) =~= right);
    } else if left == right {
        assert(at == left.len());
    }
}

/// A text that comes before a second one comes before all that the second one comes before.
pub proof fn lemma_order_is_transitive(a: Seq<char>, b: Seq<char>, c: Seq<char>, at: int)
    requires
        0 <= at,
        before_from(a, b, at),
        before_from(b, c, at),
    ensures
        before_from(a, c, at),
    decreases a.len() - at,
{
    if at < a.len() && at < b.len() && at < c.len() && a[at] == b[at] && b[at] == c[at] {
        lemma_order_is_transitive(a, b, c, at + 1);
    }
}

/// A sorted list without repetitions, with `text` put in its place.
pub open spec fn with_text(list: Seq<Seq<char>>, text: Seq<char>) -> Seq<Seq<char>>
    decreases list.len(),
{
    if list.len() == 0 {
        seq![text]
    } else if list.last() == text {
        list
    } else if before(list.last(), text) {
        list.push(text)
    } else {
        with_text(list.drop_last(), text).push(list.last())
    }
}

/// The texts in order, each once.
pub open spec fn sorted(texts: Seq<Seq<char>>) -> Seq<Seq<char>>
    decreases texts.len(),
{
    if texts.len() == 0 {
        Seq::empty()
    } else {
        with_text(sorted(texts.drop_last()), texts.last())
    }
}

/// Puts `text` in its place in a sorted list without repetitions.
pub fn insert_text(list: &mut Vec<String>, text: &str)
    ensures
        views(final(list)@) == with_text(views(old(list)@), text@),
{
    let ghost all = views(list@);
    let mut at: usize = list.len();
    assert(all.take(at as int) =~= all);
    assert(all.skip(at as int) =~= Seq::empty());
    assert(with_text(all, text@) =~= with_text(all.take(at as int), text@) + all.skip(at as int));
    while at > 0 && !is_before(list[at - 1].as_str(), text)
        invariant
            at <= list@.len(),
            all == views(list@),
            with_text(all, text@) == with_text(all.take(at as int), text@) + all.skip(at as int),
        decreases at,
    {
        let ghost head = all.take(at as int);
        assert(head.last() == list@[at - 1]@);
        assert(head.drop_last() =~= all.take(at - 1));
        if same(list[at - 1].as_str(), text) {
            assert(head + all.skip(at as int) =~= all);
            return;
        }
        assert(with_text(head.drop_last(), text@).push(head.last()) + all.skip(at as int)
            =~= with_text(head.drop_last(), text@) + all.skip(at - 1));
        at = at - 1;
    }
    proof {
        let head = all.take(at as int);
        lemma_order_is_total(text@, text@, 0);
        if at > 0 {
            assert(head.last() == list@[at - 1]@);
        } else {
            assert(head =~= Seq::empty());
        }
        assert(with_text(head, text@) =~= head.push(text@));
    }
    list.insert(at, text.to_owned());
    assert(views(list@) =~= all.take(at as int).push(text@) + all.skip(at as int));
}

/// The texts in order, each once.
pub fn sort_texts(texts: &Vec<String>) -> (list: Vec<String>)
    ensures
        views(list@) == sorted(views(texts@)),
{
    let ghost all = views(texts@);
    let mut list: Vec<String> = Vec::new();
    assert(views(list@) =~= Seq::empty());
    let mut i: usize = 0;
    while i < texts.len()
        invariant
            i <= texts@.len(),
            all == views(texts@),
            views(list@) == sorted(all.take(i as int)),
        decreases texts@.len() - i,
    {
        assert(all.take(i + 1).drop_last() =~= all.take(i as int));
        assert(all.take(i + 1).last() == texts@[i as int]@);
        insert_text(&mut list, texts[i].as_str());
        i = i + 1;
    }
    assert(all.take(i as int) =~= all);
    list
}

/// Each text comes before the next.
pub open spec fn strictly_ordered(list: Seq<Seq<char>>) -> bool {
    forall|i: int, j: int| 0 <= i < j < list.len() ==> before(#[trigger] list[i], #[trigger] list[j])
}

proof fn lemma_with_text_is_ordered(list: Seq<Seq<char>>, text: Seq<char>)
    requires
        strictly_ordered(list),
    ensures
        strictly_ordered(with_text(list, text)),
        forall|other: Seq<char>|
            #[trigger] with_text(list, text).contains(other) <==> list.contains(other) || other == text,
    decreases list.len(),
{
    if list.len() == 0 {
        assert(seq![text][0] == text);
        assert forall|other: Seq<char>| seq![text].contains(other) <==> other == text by {}
    } else if list.last() == text {
        assert(list[list.len() - 1] == text);
    } else if before(list.last(), text) {
        let longer = list.push(text);
        assert forall|i: int, j: int| 0 <= i < j < longer.len() implies before(
            #[trigger] longer[i],
            #[trigger] longer[j],
        ) by {
            if j == list.len() && i < list.len() - 1 {
                lemma_order_is_transitive(list[i], list.last(), text, 0);
            }
        }
        assert forall|other: Seq<char>|
            longer.contains(other) <==> list.contains(other) || other == text by {
            if list.contains(other) {
                let k = choose|k: int| 0 <= k < list.len() && list[k] == other;
                assert(longer[k] == other);
            }
            if other == text {
                assert(longer[list.len() as int] == text);
            }
        }
    } else {
        let shorter = list.drop_last();
        lemma_with_text_is_ordered(shorter, text);
        let inner = with_text(shorter, text);
        let longer = inner.push(list.last());
        assert(list.last().take(0) =~= text.take(0));
        lemma_order_is_total(list.last(), text, 0);
        assert forall|i: int, j: int| 0 <= i < j < longer.len() implies before(
            #[trigger] longer[i],
            #[trigger] longer[j],
        ) by {
            if j == inner.len() {
                assert(inner.contains(inner[i]));
                if inner[i] != text {
                    assert(shorter.contains(inner[i]));
                    let k = choose|k: int| 0 <= k < shorter.len() && shorter[k] == inner[i];
                    assert(before(list[k], list[list.len() - 1]));
                }
            }
        }
        assert forall|other: Seq<char>|
            longer.contains(other) <==> list.contains(other) || other == text by {
            if longer.contains(other) {
                let k = choose|k: int| 0 <= k < longer.len() && longer[k] == other;
                if k < inner.len() {
                    assert(inner[k] == other);
                    assert(inner.contains(other));
                    if other != text {
                        assert(shorter.contains(other));
                        let m = choose|m: int| 0 <= m < shorter.len() && shorter[m] == other;
                        assert(list[m] == other);
                    }
                } else {
                    assert(list[list.len() - 1] == other);
                }
            }
            if list.contains(other) {
                let k = choose|k: int| 0 <= k < list.len() && list[k] == other;
                if k < shorter.len() {
                    assert(shorter[k] == other);
                    assert(shorter.contains(other));
                    assert(inner.contains(other));
                    let m = choose|m: int| 0 <= m < inner.len() && inner[m] == other;
                    assert(longer[m] == other);
                } else {
                    assert(longer[inner.len() as int] == other);
                }
            }
            if other == text {
                assert(inner.contains(text));
                let m = choose|m: int| 0 <= m < inner.len() && inner[m] == text;
                assert(longer[m] == text);
            }
        }
    }
}

/// Sorting keeps exactly the texts there were, in order and without repetitions.
pub proof fn sorting_orders_and_keeps(texts: Seq<Seq<char>>)
    ensures
        strictly_ordered(sorted(texts)),
        forall|text: Seq<char>| sorted(texts).contains(text) <==> texts.contains(text),
    decreases texts.len(),
{
    if texts.len() > 0 {
        let shorter = texts.drop_last();
        sorting_orders_and_keeps(shorter);
        lemma_with_text_is_ordered(sorted(shorter), texts.last());
        assert forall|text: Seq<char>|
            texts.contains(text) <==> shorter.contains(text) || text == texts.last() by {
            if texts.contains(text) {
                let k = choose|k: int| 0 <= k < texts.len() && texts[k] == text;
                if k < shorter.len() {
                    assert(shorter[k] == text);
                }
            }
            if shorter.contains(text) {
                let k = choose|k: int| 0 <= k < shorter.len() && shorter[k] == text;
                assert(texts[k] == text);
            }
            if text == texts.last() {
                assert(texts[texts.len() - 1] == text);
            }
        }
    }
}

// ---- Splitting ----

/// The last position of `c` in `text`.
pub open spec fn last_index(text: Seq<char>, c: char) -> Option<int>
    decreases text.len(),
{
    if text.len() == 0 {
        None
    } else if text.last() == c {
        Some(text.len() - 1)
    } else {
        last_index(text.drop_last(), c)
    }
}

/// The last position of `c` in `text`.
pub fn rfind_char(text: &[char], c: char) -> (found: Option<usize>)
    ensures
        found matches Some(at) ==> at < text@.len() && text@[at as int] == c,
        last_index(text@, c) == (match found {
            Some(at) => Some(at as int),
            None => None,
        }),
{
    let mut i: usize = text.len();
    assert(text@.take(i as int) =~= text@);
    while i > 0
        invariant
            i <= text@.len(),
            last_index(text@.take(i as int), c) == last_index(text@, c),
        decreases i,
    {
        assert(text@.take(i as int).drop_last() =~= text@.take(i - 1));
        i = i - 1;
        if text[i] == c {
            return Some(i);
        }
    }
    None
}

/// The first position of `c` in `text`, not before `from`.
pub open spec fn index_from<T>(text: Seq<T>, c: T, from: int) -> Option<int>
    decreases text.len() - from,
{
    if from >= text.len() {
        None
    } else if text[from] == c {
        Some(from)
    } else {
        index_from(text, c, from + 1)
    }
}

/// The first position of `c` in `text`, not before `from`.
pub fn find_char(text: &[char], c: char, from: usize) -> (found: Option<usize>)
    ensures
        found matches Some(at) ==> from <= at < text@.len() && text@[at as int] == c,
        index_from(text@, c, from as int) == (match found {
            Some(at) => Some(at as int),
            None => None,
        }),
{
    let mut i: usize = from;
    while i < text.len()
        invariant
            from <= i,
            index_from(text@, c, i as int) == index_from(text@, c, from as int),
        decreases text@.len() - i,
    {
        if text[i] == c {
            return Some(i);
        }
        i = i + 1;
    }
    None
}

/// The last position where `needle` stands in `hay`.
pub open spec fn rfind<T>(hay: Seq<T>, needle: Seq<T>) -> Option<int> {
    rfind_before(hay, needle, hay.len() as int)
}

/// The last position, not after `before`, where `needle` stands in `hay`.
pub open spec fn rfind_before<T>(hay: Seq<T>, needle: Seq<T>, before: int) -> Option<int>
    decreases before + 1,
{
    if before < 0 {
        None
    } else if occurs_at(hay, needle, before) {
        Some(before)
    } else {
        rfind_before(hay, needle, before - 1)
    }
}

/// The last position where `needle` stands in `hay`.
pub fn rfind_chars(hay: &[char], needle: &[char]) -> (found: Option<usize>)
    ensures
        found matches Some(at) ==> at + needle@.len() <= hay@.len(),
        rfind(hay@, needle@) == (match found {
            Some(at) => Some(at as int),
            None => None,
        }),
{
    let mut i: usize = hay.len();
    if matches_at(hay, needle, i) {
        return Some(i);
    }
    while i > 0
        invariant
            i <= hay@.len(),
            rfind_before(hay@, needle@, i - 1) == rfind(hay@, needle@),
        decreases i,
    {
        i = i - 1;
        if matches_at(hay, needle, i) {
            return Some(i);
        }
    }
    None
}

/// The pieces of `text` between the separators.
pub open spec fn split(text: Seq<char>, separator: char) -> Seq<Seq<char>>
    decreases text.len(),
{
    if text.len() == 0 {
        seq![Seq::empty()]
    } else {
        let pieces = split(text.drop_last(), separator);
        if text.last() == separator {
            pieces.push(Seq::empty())
        } else {
            pieces.drop_last().push(pieces.last().push(text.last()))
        }
    }
}

/// The pieces by their characters.
pub open spec fn pieces_of(pieces: Seq<Vec<char>>) -> Seq<Seq<char>> {
    pieces.map_values(|piece: Vec<char>| piece@)
}

/// The pieces of `text` between the separators.
pub fn split_chars(text: &[char], separator: char) -> (pieces: Vec<Vec<char>>)
    ensures
        pieces_of(pieces@) == split(text@, separator),
        pieces@.len() > 0,
{
    let mut pieces: Vec<Vec<char>> = Vec::new();
    let mut current: Vec<char> = Vec::new();
    let mut i: usize = 0;
    assert(pieces_of(pieces@).push(current@) =~= split(text@.take(0), separator));
    while i < text.len()
        invariant
            i <= text@.len(),
            pieces_of(pieces@).push(current@) == split(text@.take(i as int), separator),
        decreases text@.len() - i,
    {
        let c = text[i];
        let ghost before = pieces_of(pieces@);
        let ghost piece = current@;
        assert(text@.take(i + 1).drop_last() =~= text@.take(i as int));
        assert(before.push(piece).drop_last() =~= before);
        if c == separator {
            pieces.push(current);
            current = Vec::new();
            assert(pieces_of(pieces@) =~= before.push(piece));
        } else {
            current.push(c);
        }
        i = i + 1;
    }
    assert(text@.take(i as int) =~= text@);
    let ghost before = pieces_of(pieces@);
    let ghost piece = current@;
    pieces.push(current);
    assert(pieces_of(pieces@) =~= before.push(piece));
    pieces
}

/// Without the leading characters `c`.
pub open spec fn strip_leading(text: Seq<char>, c: char) -> Seq<char>
    decreases text.len(),
{
    if text.len() > 0 && text[0] == c {
        strip_leading(text.skip(1), c)
    } else {
        text
    }
}

/// The position after the leading characters `c` of `text[from..to]`.
pub fn skip_leading(text: &[char], c: char, from: usize, to: usize) -> (start: usize)
    requires
        from <= to <= text@.len(),
    ensures
        from <= start <= to,
        text@.subrange(start as int, to as int) == strip_leading(
            text@.subrange(from as int, to as int),
            c,
        ),
{
    let mut start: usize = from;
    while start < to && text[start] == c
        invariant
            from <= start <= to <= text@.len(),
            strip_leading(text@.subrange(start as int, to as int), c) == strip_leading(
                text@.subrange(from as int, to as int),
                c,
            ),
        decreases to - start,
    {
        assert(text@.subrange(start as int, to as int).skip(1) =~= text@.subrange(
            start + 1,
            to as int,
        ));
        start = start + 1;
    }
    start
}

// ---- Joining ----

/// The texts with `separator` between each two.
pub open spec fn join(texts: Seq<Seq<char>>, separator: Seq<char>) -> Seq<char>
    decreases texts.len(),
{
    if texts.len() == 0 {
        Seq::empty()
    } else if texts.len() == 1 {
        texts[0]
    } else {
        join(texts.drop_last(), separator) + separator + texts.last()
    }
}

/// The pieces with `separator` between each two.
pub fn join_pieces(pieces: &[Vec<char>], separator: char) -> (out: Vec<char>)
    ensures
        out@ == join(pieces_of(pieces@), seq![separator]),
{
    let mut out: Vec<char> = Vec::new();
    let mut i: usize = 0;
    while i < pieces.len()
        invariant
            i <= pieces@.len(),
            out@ == join(pieces_of(pieces@.take(i as int)), seq![separator]),
        decreases pieces@.len() - i,
    {
        assert(pieces_of(pieces@.take(i + 1)).drop_last() =~= pieces_of(pieces@.take(i as int)));
        let ghost before = out@;
        if i > 0 {
            out.push(separator);
        }
        let mut piece = pieces[i].clone();
        assert(piece@ =~= pieces@[i as int]@);
        out.append(&mut piece);
        i = i + 1;
        assert(out@ =~= join(pieces_of(pieces@.take(i as int)), seq![separator]));
    }
    assert(pieces@.take(i as int) =~= pieces@);
    out
}

/// The texts with `separator` between each two.
pub fn join_texts(texts: &[String], separator: &str) -> (out: String)
    ensures
        out@ == join(views(texts@), separator@),
{
    let mut out = String::new();
    let mut i: usize = 0;
    while i < texts.len()
        invariant
            i <= texts@.len(),
            out@ == join(views(texts@.take(i as int)), separator@),
        decreases texts@.len() - i,
    {
        assert(views(texts@.take(i + 1)).drop_last() =~= views(texts@.take(i as int)));
        if i > 0 {
            out.append(separator);
        }
        out.append(texts[i].as_str());
        i = i + 1;
        assert(out@ =~= join(views(texts@.take(i as int)), separator@));
    }
    assert(texts@.take(i as int) =~= texts@);
    out
}

// ---- Lists without repetitions ----

/// The list with the texts that it does not hold yet behind it, each once.
pub open spec fn with_new(list: Seq<Seq<char>>, more: Seq<Seq<char>>) -> Seq<Seq<char>>
    decreases more.len(),
{
    if more.len() == 0 {
        list
    } else {
        let so_far = with_new(list, more.drop_last());
        if so_far.contains(more.last()) {
            so_far
        } else {
            so_far.push(more.last())
        }
    }
}

/// Adds to the list what it does not hold yet.
pub fn add_new(list: &mut Vec<String>, more: &Vec<String>)
    ensures
        views(final(list)@) == with_new(views(old(list)@), views(more@)),
{
    let ghost all = views(more@);
    let ghost start = views(list@);
    let mut i: usize = 0;
    assert(with_new(start, all.take(0)) == start);
    while i < more.len()
        invariant
            i <= more@.len(),
            all == views(more@),
            start == views(old(list)@),
            views(list@) == with_new(start, all.take(i as int)),
        decreases more@.len() - i,
    {
        assert(all.take(i + 1).drop_last() =~= all.take(i as int));
        assert(all.take(i + 1).last() == more@[i as int]@);
        if !list_contains(list, more[i].as_str()) {
            let ghost so_far = views(list@);
            list.push(more[i].clone());
            assert(views(list@) =~= so_far.push(more@[i as int]@));
        }
        i = i + 1;
    }
    assert(all.take(i as int) =~= all);
}

pub proof fn lemma_with_new_keeps_distinct(list: Seq<Seq<char>>, more: Seq<Seq<char>>)
    requires
        list.no_duplicates(),
    ensures
        with_new(list, more).no_duplicates(),
        forall|text: Seq<char>|
            with_new(list, more).contains(text) ==> list.contains(text) || more.contains(text),
    decreases more.len(),
{
    if more.len() > 0 {
        let shorter = more.drop_last();
        lemma_with_new_keeps_distinct(list, shorter);
        let so_far = with_new(list, shorter);
        assert forall|text: Seq<char>| with_new(list, more).contains(text) implies list.contains(text)
            || more.contains(text) by {
            let result = with_new(list, more);
            let k = choose|k: int| 0 <= k < result.len() && result[k] == text;
            if k < so_far.len() {
                assert(so_far[k] == text);
                assert(so_far.contains(text));
                if shorter.contains(text) {
                    let m = choose|m: int| 0 <= m < shorter.len() && shorter[m] == text;
                    assert(more[m] == text);
                }
            } else {
                assert(more[more.len() - 1] == text);
            }
        }
    }
}

// ---- Lines ----

/// The text without a carriage return at its end.
pub open spec fn without_return(line: Seq<char>) -> Seq<char> {
    if line.len() > 0 && line.last() == '\r' {
        line.drop_last()
    } else {
        line
    }
}

/// The lines of a text from `from` on, without their ends. A line ends with a line feed, before
/// which a carriage return belongs to the end; the last line needs none.
pub open spec fn lines_from(text: Seq<char>, from: int) -> Seq<Seq<char>>
    decreases text.len() - from,
{
    if from < 0 || from >= text.len() {
        Seq::empty()
    } else {
        match index_from(text, '\n', from) {
            Some(at) if from <= at < text.len() => seq![
                without_return(text.subrange(from, at)),
            ] + lines_from(text, at + 1),
            _ => seq![text.skip(from)],
        }
    }
}

/// The lines of a text.
pub open spec fn lines(text: Seq<char>) -> Seq<Seq<char>> {
    lines_from(text, 0)
}

proof fn lemma_index_is_ahead<T>(text: Seq<T>, c: T, from: int)
    requires
        0 <= from,
    ensures
        index_from(text, c, from) matches Some(at) ==> from <= at < text.len(),
    decreases text.len() - from,
{
    if from < text.len() && text[from] != c {
        lemma_index_is_ahead(text, c, from + 1);
    }
}

/// The lines of a text.
pub fn split_lines(text: &str) -> (list: Vec<String>)
    ensures
        views(list@) == lines(text@),
{
    let all = chars(text);
    let size: usize = all.len();
    let mut list: Vec<String> = Vec::new();
    let mut from: usize = 0;
    assert(views(list@) + lines_from(text@, 0) =~= lines(text@));
    while from < size
        invariant
            from <= size,
            size == all@.len(),
            all@ == text@,
            views(list@) + lines_from(text@, from as int) == lines(text@),
        decreases size - from,
    {
        proof {
            lemma_index_is_ahead(text@, '\n', from as int);
        }
        let ghost before = views(list@);
        match find_char(all.as_slice(), '\n', from) {
            Some(at) => {
                let end: usize = if at > from && all[at - 1] == '\r' {
                    at - 1
                } else {
                    at
                };
                let line = text_between(all.as_slice(), from, end);
                let ghost raw = text@.subrange(from as int, at as int);
                assert(line@ =~= without_return(raw));
                list.push(line);
                assert(views(list@) =~= before.push(without_return(raw)));
                assert(views(list@) + lines_from(text@, at + 1) =~= before + lines_from(
                    text@,
                    from as int,
                ));
                from = at + 1;
            },
            None => {
                let line = text_between(all.as_slice(), from, size);
                assert(line@ =~= text@.skip(from as int));
                list.push(line);
                assert(views(list@) =~= before + lines_from(text@, from as int));
                return list;
            },
        }
    }
    assert(lines_from(text@, from as int) =~= Seq::empty());
    assert(views(list@) + Seq::<Seq<char>>::empty() =~= views(list@));
    list
}

/// The text without the white space at its end.
pub fn trimmed_end(text: &str) -> (out: String)
    ensures
        out@ == trim_end(text@),
{
    let all = chars(text);
    let mut end: usize = all.len();
    assert(text@.take(end as int) =~= text@);
    while end > 0 && is_white(all[end - 1])
        invariant
            end <= all@.len(),
            all@ == text@,
            trim_end(text@.take(end as int)) == trim_end(text@),
        decreases end,
    {
        assert(text@.take(end as int).drop_last() =~= text@.take(end - 1));
        end = end - 1;
    }
    let out = text_between(all.as_slice(), 0, end);
    assert(out@ =~= text@.take(end as int));
    out
}

// ---- Laws ----

/// Trimming takes white space off both ends and nothing else.
pub proof fn trimming_takes_only_white_space(text: Seq<char>)
    ensures
        exists|from: int, to: int|
            0 <= from <= to <= text.len() && trim(text) == #[trigger] text.subrange(from, to) && (forall|
                i: int,
            |
                0 <= i < from ==> white(#[trigger] text[i])) && (forall|i: int|
                to <= i < text.len() ==> white(#[trigger] text[i])),
        trim(text).len() > 0 ==> !white(trim(text)[0]) && !white(trim(text).last()),
{
    lemma_trim_is_final(text);
    lemma_trim_start_range(text);
    let middle = trim_start(text);
    lemma_trim_end_range(middle);
    let from = text.len() - middle.len();
    let to = from + trim_end(middle).len();
    assert(trim(text) =~= text.subrange(from, to));
    assert forall|i: int| to <= i < text.len() implies white(#[trigger] text[i]) by {
        assert(middle[i - from] == text[i]);
    }
}

proof fn lemma_trim_start_range(text: Seq<char>)
    ensures
        trim_start(text).len() <= text.len(),
        trim_start(text) == text.skip(text.len() - trim_start(text).len()),
        forall|i: int| 0 <= i < text.len() - trim_start(text).len() ==> white(#[trigger] text[i]),
    decreases text.len(),
{
    if text.len() > 0 && white(text[0]) {
        let rest = text.skip(1);
        lemma_trim_start_range(rest);
        assert(rest.skip(rest.len() - trim_start(rest).len()) =~= text.skip(
            text.len() - trim_start(text).len(),
        ));
        assert forall|i: int| 0 <= i < text.len() - trim_start(text).len() implies white(
            #[trigger] text[i],
        ) by {
            if i > 0 {
                assert(rest[i - 1] == text[i]);
            }
        }
    } else {
        assert(text.skip(0) =~= text);
    }
}

proof fn lemma_trim_end_range(text: Seq<char>)
    ensures
        trim_end(text).len() <= text.len(),
        trim_end(text) == text.take(trim_end(text).len() as int),
        forall|i: int| trim_end(text).len() <= i < text.len() ==> white(#[trigger] text[i]),
    decreases text.len(),
{
    if text.len() > 0 && white(text.last()) {
        let shorter = text.drop_last();
        lemma_trim_end_range(shorter);
        assert(shorter.take(trim_end(shorter).len() as int) =~= text.take(
            trim_end(text).len() as int,
        ));
        assert forall|i: int| trim_end(text).len() <= i < text.len() implies white(#[trigger] text[i]) by {
            if i < shorter.len() {
                assert(shorter[i] == text[i]);
            }
        }
    } else {
        assert(text.take(text.len() as int) =~= text);
    }
}

/// Lower case changes the letters from A to Z and nothing else, and each to the letter with the same
/// place in the alphabet.
pub proof fn lower_case_changes_only_capitals(text: Seq<char>)
    ensures
        ascii_lowercase(text).len() == text.len(),
        forall|i: int|
            0 <= i < text.len() ==> if 'A' <= #[trigger] text[i] <= 'Z' {
                ascii_lowercase(text)[i] as int - 'a' as int == text[i] as int - 'A' as int
            } else {
                ascii_lowercase(text)[i] == text[i]
            },
        ascii_lowercase(ascii_lowercase(text)) == ascii_lowercase(text),
{
    let lower = ascii_lowercase(text);
    assert forall|i: int| 0 <= i < text.len() implies ascii_lower(lower[i]) == lower[i] by {
        assert(lower[i] == ascii_lower(text[i]));
    }
    assert(ascii_lowercase(lower) =~= lower);
}

/// The pieces of a text hold no separator, and with separators between them they are the text again.
pub proof fn pieces_make_the_text(text: Seq<char>, separator: char)
    ensures
        split(text, separator).len() > 0,
        join(split(text, separator), seq![separator]) == text,
        forall|i: int|
            0 <= i < split(text, separator).len() ==> !(#[trigger] split(text, separator)[i]).contains(
                separator,
            ),
    decreases text.len(),
{
    let pieces = split(text, separator);
    let between = seq![separator];
    if text.len() == 0 {
        assert(join(pieces, between) =~= text);
    } else {
        let shorter = text.drop_last();
        let before = split(shorter, separator);
        pieces_make_the_text(shorter, separator);
        if text.last() == separator {
            assert(pieces.drop_last() =~= before);
            assert(join(pieces, between) =~= text);
            assert forall|i: int| 0 <= i < pieces.len() implies !(#[trigger] pieces[i]).contains(
                separator,
            ) by {
                if i < before.len() {
                    assert(pieces[i] == before[i]);
                }
            }
        } else {
            assert(pieces.drop_last() =~= before.drop_last());
            assert(join(pieces, between) =~= join(before, between).push(text.last()));
            assert(join(pieces, between) =~= text);
            assert forall|i: int| 0 <= i < pieces.len() implies !(#[trigger] pieces[i]).contains(
                separator,
            ) by {
                if i < before.len() - 1 {
                    assert(pieces[i] == before[i]);
                } else {
                    let last = before[before.len() - 1];
                    assert(!last.contains(separator));
                    assert forall|k: int| 0 <= k < pieces[i].len() implies pieces[i][k] != separator by {
                        if k < last.len() {
                            assert(pieces[i][k] == last[k]);
                        }
                    }
                }
            }
        }
    }
}

/// Pieces without the separator come apart again when they are joined by it.
pub proof fn joined_pieces_come_apart(pieces: Seq<Seq<char>>, separator: char)
    requires
        pieces.len() > 0,
        forall|i: int| 0 <= i < pieces.len() ==> !(#[trigger] pieces[i]).contains(separator),
    ensures
        split(join(pieces, seq![separator]), separator) == pieces,
    decreases pieces.len(),
{
    let between = seq![separator];
    let last = pieces.last();
    assert(!pieces[pieces.len() - 1].contains(separator));
    if pieces.len() == 1 {
        assert(join(pieces, between) =~= Seq::empty() + last);
        lemma_split_grows(Seq::empty(), last, separator);
        assert(split(Seq::<char>::empty(), separator) =~= seq![Seq::<char>::empty()]);
        assert(split(join(pieces, between), separator) =~= pieces);
    } else {
        let shorter = pieces.drop_last();
        assert forall|i: int| 0 <= i < shorter.len() implies !(#[trigger] shorter[i]).contains(
            separator,
        ) by {
            assert(shorter[i] == pieces[i]);
        }
        joined_pieces_come_apart(shorter, separator);
        let open = join(shorter, between).push(separator);
        assert(open.drop_last() =~= join(shorter, between));
        assert(split(open, separator) =~= shorter.push(Seq::empty()));
        assert(join(pieces, between) =~= open + last);
        lemma_split_grows(open, last, separator);
        assert(split(join(pieces, between), separator) =~= pieces);
    }
}

/// A text without the separator behind another one makes its last piece longer.
proof fn lemma_split_grows(text: Seq<char>, more: Seq<char>, separator: char)
    requires
        !more.contains(separator),
    ensures
        split(text, separator).len() > 0,
        split(text + more, separator) == split(text, separator).drop_last().push(
            split(text, separator).last() + more,
        ),
    decreases more.len(),
{
    pieces_make_the_text(text, separator);
    let pieces = split(text, separator);
    if more.len() == 0 {
        assert(text + more =~= text);
        assert(pieces.last() + more =~= pieces.last());
        assert(pieces.drop_last().push(pieces.last()) =~= pieces);
    } else {
        let less = more.drop_last();
        assert forall|i: int| 0 <= i < less.len() implies less[i] != separator by {
            assert(less[i] == more[i]);
        }
        assert(more[more.len() - 1] != separator);
        lemma_split_grows(text, less, separator);
        assert((text + more).drop_last() =~= text + less);
        let before = split(text + less, separator);
        assert(before.drop_last() =~= pieces.drop_last());
        assert(before.last().push(more.last()) =~= pieces.last() + more);
    }
}

/// One text comes before another where it is the smaller at the first place where they differ, or
/// where it ends there.
pub proof fn texts_are_ordered_by_their_first_difference(left: Seq<char>, right: Seq<char>, at: int)
    requires
        0 <= at <= left.len(),
        at < right.len(),
        left.take(at) == right.take(at),
        at < left.len() ==> left[at] != right[at],
    ensures
        before(left, right) <==> at == left.len() || left[at] < right[at],
{
    lemma_equal_start(left, right, 0, at);
}

proof fn lemma_equal_start(left: Seq<char>, right: Seq<char>, from: int, at: int)
    requires
        0 <= from <= at <= left.len(),
        at <= right.len(),
        left.take(at) == right.take(at),
    ensures
        before_from(left, right, from) == before_from(left, right, at),
    decreases at - from,
{
    if from < at {
        assert(left.take(at)[from] == left[from]);
        assert(right.take(at)[from] == right[from]);
        lemma_equal_start(left, right, from + 1, at);
    }
}

/// A number in decimal notation has digits only, the first of which is no zero unless it is alone.
pub proof fn decimals_are_digits(n: nat)
    ensures
        decimal(n).len() > 0,
        forall|i: int| 0 <= i < decimal(n).len() ==> '0' <= #[trigger] decimal(n)[i] <= '9',
        decimal(n).len() > 1 ==> decimal(n)[0] != '0',
        decimal(n).last() as int == '0' as int + n % 10,
        n >= 10 ==> decimal(n).drop_last() == decimal(n / 10),
    decreases n,
{
    if n >= 10 {
        decimals_are_digits(n / 10);
        assert(decimal(n).drop_last() =~= decimal(n / 10));
        if decimal(n / 10).len() == 1 {
            assert(n / 10 < 100) by {
                if n / 10 >= 10 {
                    decimals_are_digits(n / 10 / 10);
                }
            }
            if n / 10 >= 10 {
                decimals_are_digits(n / 10 / 10);
            }
        }
    }
}

/// A list with new texts behind it holds what it held, in its order, and the new texts.
pub proof fn lemma_with_new_holds_all(list: Seq<Seq<char>>, more: Seq<Seq<char>>)
    ensures
        list.len() <= with_new(list, more).len(),
        with_new(list, more).take(list.len() as int) == list,
        forall|text: Seq<char>|
            list.contains(text) || more.contains(text) ==> #[trigger] with_new(list, more).contains(text),
    decreases more.len(),
{
    if more.len() > 0 {
        let shorter = more.drop_last();
        lemma_with_new_holds_all(list, shorter);
        let so_far = with_new(list, shorter);
        let all = with_new(list, more);
        assert(all.take(list.len() as int) =~= so_far.take(list.len() as int));
        assert forall|text: Seq<char>| list.contains(text) || more.contains(text) implies #[trigger] all.contains(
            text,
        ) by {
            if more.contains(text) && !shorter.contains(text) {
                let k = choose|k: int| 0 <= k < more.len() && more[k] == text;
                if k < shorter.len() {
                    assert(shorter[k] == text);
                }
                assert(text == more.last());
                if !so_far.contains(text) {
                    assert(all[all.len() - 1] == text);
                }
            } else {
                assert(so_far.contains(text));
                let k = choose|k: int| 0 <= k < so_far.len() && so_far[k] == text;
                assert(all[k] == text);
            }
        }
    } else {
        assert(list.take(list.len() as int) =~= list);
    }
}

} // verus!
