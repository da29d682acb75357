//! Text as a sequence of characters: splitting, trimming, searching and number formatting.

use vstd::arithmetic::div_mod::{
    lemma_div_decreases, lemma_fundamental_div_mod, lemma_mod_bound,
};
use vstd::prelude::*;
use vstd::string::StringExecFns;
use vstd::utf8::{char_is_scalar, encode_scalar, encode_utf8, encode_utf8_decode_utf8};

verus! {

// ---------------------------------------------------------------------------
// What the standard library decides
// ---------------------------------------------------------------------------

/// Whether a text is made of ASCII characters alone.
pub open spec fn is_ascii(text: Seq<char>) -> bool {
    forall|i: int| 0 <= i < text.len() ==> #[trigger] text[i] <= '\u{7f}'
}

/// The lowercase form of an ASCII character.
pub open spec fn ascii_lower(c: char) -> char {
    if 'A' <= c <= 'Z' {
        ((c as u8) + 32) as u8 as char
    } else {
        c
    }
}

/// A text with the ASCII letters in lowercase.
pub open spec fn ascii_lowered(text: Seq<char>) -> Seq<char> {
    text.map_values(|c: char| ascii_lower(c))
}

/// The lowercase form of a text that is not of ASCII characters alone, as Unicode defines it.
pub uninterp spec fn unicode_lowercase(text: Seq<char>) -> Seq<char>;

/// The lowercase form of a text.
#[verifier::opaque]
pub open spec fn lowercase(text: Seq<char>) -> Seq<char> {
    if is_ascii(text) {
        ascii_lowered(text)
    } else {
        unicode_lowercase(text)
    }
}

/// `str::to_lowercase`: of an ASCII text the letters A to Z become a to z and nothing else
/// changes; of another text the result depends on the text alone.
pub assume_specification[ str::to_lowercase ](text: &str) -> (lowered: String)
    ensures
        lowered@ == lowercase(text@),
        !is_ascii(text@) ==> lowered@ == unicode_lowercase(text@),
;

/// Whether a character is an ASCII letter or digit.
pub open spec fn ascii_alphanumeric(c: char) -> bool {
    'a' <= c <= 'z' || 'A' <= c <= 'Z' || '0' <= c <= '9'
}

/// Whether Unicode classes a character beyond ASCII as alphabetic or numeric.
pub uninterp spec fn unicode_alphanumeric(c: char) -> bool;

/// Whether a character is alphabetic or numeric, which white space is not.
pub open spec fn alphanumeric(c: char) -> bool {
    if c <= '\u{7f}' {
        ascii_alphanumeric(c)
    } else {
        !white_space(c) && unicode_alphanumeric(c)
    }
}

/// `char::is_alphanumeric`: among the ASCII characters the letters and the digits, never white
/// space, and beyond ASCII the answer depends on the character alone.
pub assume_specification[ char::is_alphanumeric ](c: char) -> (answer: bool)
    ensures
        answer == alphanumeric(c),
        c > '\u{7f}' ==> answer == unicode_alphanumeric(c),
;

/// `String::push`: the character is appended to the end of the string.
pub assume_specification[ String::push ](text: &mut String, c: char)
    ensures
        final(text)@ == old(text)@.push(c),
;

// ---------------------------------------------------------------------------
// Characters and strings
// ---------------------------------------------------------------------------

/// The texts that a sequence of strings holds.
pub open spec fn texts(strings: Seq<String>) -> Seq<Seq<char>> {
    strings.map_values(|s: String| s@)
}

/// The text of an optional string.
pub open spec fn optional_text(text: Option<String>) -> Option<Seq<char>> {
    match text {
        Some(t) => Some(t@),
        None => None,
    }
}

/// The text of an optional string slice.
pub open spec fn optional_str(text: Option<&str>) -> Option<Seq<char>> {
    match text {
        Some(t) => Some(t@),
        None => None,
    }
}

/// The characters of a text, one by one.
pub fn to_chars(text: &str) -> (chars: Vec<char>)
    ensures
        chars@ == text@,
{
    let mut chars: Vec<char> = Vec::new();
    for c in it: text.chars()
        invariant
            it.seq() == text@,
            chars@ == text@.take(it.index()),
    {
        chars.push(c);
        assert(text@.take(it.index() + 1) =~= text@.take(it.index()).push(c));
    }
    assert(text@.take(text@.len() as int) =~= text@);
    chars
}

/// The characters from `from` up to `to` as a string.
pub fn slice_text(chars: &Vec<char>, from: usize, to: usize) -> (text: String)
    requires
        from <= to <= chars@.len(),
    ensures
        text@ == chars@.subrange(from as int, to as int),
{
    let mut text = String::new();
    let mut i: usize = from;
    while i < to
        invariant
            from <= i <= to <= chars@.len(),
            text@ == chars@.subrange(from as int, i as int),
        decreases to - i,
    {
        text.push(chars[i]);
        i = i + 1;
        assert(chars@.subrange(from as int, i as int) =~= chars@.subrange(
            from as int,
            i - 1,
        ).push(chars@[i - 1]));
    }
    text
}

/// Whether two texts are the same.
pub fn same_text(left: &str, right: &str) -> (same: bool)
    ensures
        same == (left@ == right@),
{
    let a = left.as_bytes();
    let b = right.as_bytes();
    if a.len() != b.len() {
        return false;
    }
    let mut i: usize = 0;
    while i < a.len()
        invariant
            i <= a@.len(),
            a@.len() == b@.len(),
            a@ == encode_utf8(left@),
            b@ == encode_utf8(right@),
            forall|k: int| 0 <= k < i ==> a@[k] == b@[k],
        decreases a.len() - i,
    {
        if a[i] != b[i] {
            return false;
        }
        i = i + 1;
    }
    proof {
        assert(a@ =~= b@);
        encode_utf8_decode_utf8(left@);
        encode_utf8_decode_utf8(right@);
    }
    true
}

// ---------------------------------------------------------------------------
// Searching
// ---------------------------------------------------------------------------

/// Whether `pattern` stands in `text` from position `at` on.
pub open spec fn stands_at(text: Seq<char>, pattern: Seq<char>, at: int) -> bool {
    0 <= at && at + pattern.len() <= text.len() && text.subrange(at, at + pattern.len())
        == pattern
}

/// Whether `pattern` stands somewhere in `text`.
pub open spec fn has_text(text: Seq<char>, pattern: Seq<char>) -> bool {
    exists|at: int| stands_at(text, pattern, at)
}

/// Whether `text` begins with `prefix`.
pub open spec fn begins_with(text: Seq<char>, prefix: Seq<char>) -> bool {
    stands_at(text, prefix, 0)
}

/// Whether `text` ends with `suffix`.
pub open spec fn finishes_with(text: Seq<char>, suffix: Seq<char>) -> bool {
    stands_at(text, suffix, text.len() - suffix.len())
}

fn matches_at(text: &Vec<char>, pattern: &Vec<char>, at: usize) -> (found: bool)
    requires
        at + pattern@.len() <= text@.len(),
    ensures
        found == stands_at(text@, pattern@, at as int),
{
    let length: usize = text.len();
    let mut i: usize = 0;
    while i < pattern.len()
        invariant
            i <= pattern@.len(),
            at + pattern@.len() <= text@.len() == length,
            forall|k: int| 0 <= k < i ==> text@[at + k] == pattern@[k],
        decreases pattern.len() - i,
    {
        if text[at + i] != pattern[i] {
            assert(text@.subrange(at as int, at + pattern@.len())[i as int] != pattern@[i as int]);
            return false;
        }
        i = i + 1;
    }
    assert(text@.subrange(at as int, at + pattern@.len()) =~= pattern@);
    true
}

/// Whether `pattern` stands somewhere in `text`.
pub fn contains(text: &str, pattern: &str) -> (found: bool)
    ensures
        found == has_text(text@, pattern@),
{
    let t = to_chars(text);
    let p = to_chars(pattern);
    if p.len() > t.len() {
        return false;
    }
    let last: usize = t.len() - p.len();
    let mut at: usize = 0;
    while at <= last
        invariant
            t@ == text@,
            p@ == pattern@,
            last == t@.len() - p@.len(),
            at <= last + 1,
            forall|k: int| 0 <= k < at ==> !stands_at(t@, p@, k),
        decreases last + 1 - at,
    {
        if matches_at(&t, &p, at) {
            return true;
        }
        if at == last {
            return false;
        }
        at = at + 1;
    }
    false
}

/// Whether the character occurs in `text`.
pub fn contains_char(text: &str, c: char) -> (found: bool)
    ensures
        found == text@.contains(c),
{
    let chars = to_chars(text);
    let mut i: usize = 0;
    while i < chars.len()
        invariant
            i <= chars@.len(),
            chars@ == text@,
            forall|k: int| 0 <= k < i ==> chars@[k] != c,
        decreases chars.len() - i,
    {
        if chars[i] == c {
            return true;
        }
        i = i + 1;
    }
    false
}

/// Whether `text` begins with `prefix`.
pub fn starts_with(text: &str, prefix: &str) -> (found: bool)
    ensures
        found == begins_with(text@, prefix@),
{
    let t = to_chars(text);
    let p = to_chars(prefix);
    p.len() <= t.len() && matches_at(&t, &p, 0)
}

/// Whether `text` ends with `suffix`.
pub fn ends_with(text: &str, suffix: &str) -> (found: bool)
    ensures
        found == finishes_with(text@, suffix@),
{
    let t = to_chars(text);
    let p = to_chars(suffix);
    p.len() <= t.len() && matches_at(&t, &p, t.len() - p.len())
}

/// What follows `prefix` in a text that begins with it.
pub open spec fn after_prefix(text: Seq<char>, prefix: Seq<char>) -> Option<Seq<char>> {
    if begins_with(text, prefix) {
        Some(text.skip(prefix.len() as int))
    } else {
        None
    }
}

/// What follows `prefix` in a text that begins with it.
pub fn strip_prefix(text: &str, prefix: &str) -> (rest: Option<String>)
    ensures
        optional_text(rest) == after_prefix(text@, prefix@),
{
    let t = to_chars(text);
    let p = to_chars(prefix);
    if p.len() <= t.len() && matches_at(&t, &p, 0) {
        Some(slice_text(&t, p.len(), t.len()))
    } else {
        None
    }
}

// ---------------------------------------------------------------------------
// Lines and segments
// ---------------------------------------------------------------------------

/// The position of the first `c` in `text`, or the length of `text` where it has none.
pub open spec fn first_index(text: Seq<char>, c: char) -> int
    decreases text.len(),
{
    if text.len() == 0 || text[0] == c {
        0
    } else {
        1 + first_index(text.skip(1), c)
    }
}

pub proof fn lemma_first_index(text: Seq<char>, c: char)
    ensures
        0 <= first_index(text, c) <= text.len(),
        first_index(text, c) < text.len() ==> text[first_index(text, c)] == c,
        forall|k: int| 0 <= k < first_index(text, c) ==> text[k] != c,
    decreases text.len(),
{
    if text.len() > 0 && text[0] != c {
        lemma_first_index(text.skip(1), c);
        assert forall|k: int| 0 <= k < first_index(text, c) implies text[k] != c by {
            if k > 0 {
                assert(text[k] == text.skip(1)[k - 1]);
            }
        }
    }
}

pub proof fn lemma_first_index_is(text: Seq<char>, c: char, at: int)
    requires
        0 <= at <= text.len(),
        at < text.len() ==> text[at] == c,
        forall|k: int| 0 <= k < at ==> text[k] != c,
    ensures
        first_index(text, c) == at,
{
    lemma_first_index(text, c);
    let f = first_index(text, c);
    if f < at {
        assert(text[f] == c);
    } else if at < f {
        assert(text[at] != c);
    }
}

fn find_char(text: &Vec<char>, from: usize, c: char) -> (at: usize)
    requires
        from <= text@.len(),
    ensures
        at == from + first_index(text@.skip(from as int), c),
        from <= at <= text@.len(),
{
    let mut i: usize = from;
    while i < text.len() && text[i] != c
        invariant
            from <= i <= text@.len(),
            forall|k: int| 0 <= k < i - from ==> text@.skip(from as int)[k] != c,
        decreases text.len() - i,
    {
        i = i + 1;
    }
    proof {
        lemma_first_index_is(text@.skip(from as int), c, i - from);
    }
    i
}

/// A line without the carriage return that ends it.
pub open spec fn without_return(line: Seq<char>) -> Seq<char> {
    if line.len() > 0 && line.last() == '\r' {
        line.drop_last()
    } else {
        line
    }
}

/// The lines of a text: each ends at a line feed, alone or after a carriage return; what
/// follows the last line feed is a line too unless it is empty.
pub open spec fn lines_of(text: Seq<char>) -> Seq<Seq<char>>
    decreases text.len(),
    via lines_of_shrinks
{
    if text.len() == 0 {
        Seq::empty()
    } else {
        let end = first_index(text, '\n');
        if end < text.len() {
            seq![without_return(text.take(end))] + lines_of(text.skip(end + 1))
        } else {
            seq![text]
        }
    }
}

#[via_fn]
proof fn lines_of_shrinks(text: Seq<char>) {
    lemma_first_index(text, '\n');
}

/// The lines of a text.
pub fn lines(text: &str) -> (lines: Vec<String>)
    ensures
        texts(lines@) == lines_of(text@),
{
    let chars = to_chars(text);
    let mut lines: Vec<String> = Vec::new();
    let mut start: usize = 0;
    assert(chars@.skip(0) =~= chars@);
    assert(texts(lines@) + lines_of(chars@) =~= lines_of(chars@));
    while start < chars.len()
        invariant
            start <= chars@.len(),
            texts(lines@) + lines_of(chars@.skip(start as int)) == lines_of(chars@),
        decreases chars.len() - start,
    {
        let ghost before = lines@;
        let ghost rest = chars@.skip(start as int);
        let end = find_char(&chars, start, '\n');
        if end < chars.len() {
            let stop: usize = if end > start && chars[end - 1] == '\r' {
                end - 1
            } else {
                end
            };
            lines.push(slice_text(&chars, start, stop));
            assert(chars@.subrange(start as int, stop as int) =~= without_return(
                rest.take(end - start),
            ));
            assert(rest.skip(end - start + 1) =~= chars@.skip(end + 1));
            start = end + 1;
        } else {
            lines.push(slice_text(&chars, start, end));
            assert(chars@.subrange(start as int, end as int) =~= rest);
            assert(chars@.skip(end as int) =~= Seq::empty());
            start = end;
        }
        assert(texts(lines@) =~= texts(before).push(lines@.last()@));
        assert(texts(lines@) + lines_of(chars@.skip(start as int)) =~= texts(before) + lines_of(
            rest,
        ));
    }
    assert(chars@.skip(start as int) =~= Seq::empty());
    assert(texts(lines@) + lines_of(Seq::empty()) =~= texts(lines@));
    lines
}

/// The parts of a text between separators. A text without one is one part.
pub open spec fn parts_of(text: Seq<char>, separator: char) -> Seq<Seq<char>>
    decreases text.len(),
    via parts_of_shrinks
{
    let end = first_index(text, separator);
    if end < text.len() {
        seq![text.take(end)] + parts_of(text.skip(end + 1), separator)
    } else {
        seq![text]
    }
}

#[via_fn]
proof fn parts_of_shrinks(text: Seq<char>, separator: char) {
    lemma_first_index(text, separator);
}

/// The parts of a text between separators.
pub fn split(text: &str, separator: char) -> (parts: Vec<String>)
    ensures
        texts(parts@) == parts_of(text@, separator),
{
    let chars = to_chars(text);
    let mut parts: Vec<String> = Vec::new();
    let mut start: usize = 0;
    let mut end: usize = find_char(&chars, 0, separator);
    assert(chars@.skip(0) =~= chars@);
    assert(texts(parts@) + parts_of(chars@, separator) =~= parts_of(chars@, separator));
    while end < chars.len()
        invariant
            start <= end <= chars@.len(),
            end == start + first_index(chars@.skip(start as int), separator),
            texts(parts@) + parts_of(chars@.skip(start as int), separator) == parts_of(
                chars@,
                separator,
            ),
        decreases chars.len() - end,
    {
        let ghost before = parts@;
        let ghost rest = chars@.skip(start as int);
        parts.push(slice_text(&chars, start, end));
        assert(chars@.subrange(start as int, end as int) =~= rest.take(end - start));
        assert(rest.skip(end - start + 1) =~= chars@.skip(end + 1));
        start = end + 1;
        end = find_char(&chars, start, separator);
        assert(texts(parts@) =~= texts(before).push(parts@.last()@));
        assert(texts(parts@) + parts_of(chars@.skip(start as int), separator) =~= texts(before)
            + parts_of(rest, separator));
    }
    let ghost before = parts@;
    parts.push(slice_text(&chars, start, end));
    assert(chars@.subrange(start as int, end as int) =~= chars@.skip(start as int));
    assert(texts(parts@) =~= texts(before).push(chars@.skip(start as int)));
    assert(texts(parts@) =~= texts(before) + parts_of(chars@.skip(start as int), separator));
    parts
}

/// What follows the last separator, or the whole text where it has none.
pub open spec fn last_part(text: Seq<char>, separator: char) -> Seq<char> {
    parts_of(text, separator).last()
}

/// What follows the last separator, or the whole text where it has none.
pub fn rsplit_first(text: &str, separator: char) -> (part: String)
    ensures
        part@ == last_part(text@, separator),
{
    let parts = split(text, separator);
    proof {
        lemma_first_index(text@, separator);
        assert(parts_of(text@, separator).len() > 0);
        assert(texts(parts@).len() == parts@.len());
    }
    parts[parts.len() - 1].clone()
}

// ---------------------------------------------------------------------------
// Trimming
// ---------------------------------------------------------------------------

/// Whether a character is white space, as the Unicode property of that name lists it.
pub open spec fn white_space(c: char) -> bool {
    ||| '\u{9}' <= c <= '\u{d}'
    ||| c == '\u{20}'
    ||| c == '\u{85}'
    ||| c == '\u{a0}'
    ||| c == '\u{1680}'
    ||| '\u{2000}' <= c <= '\u{200a}'
    ||| c == '\u{2028}'
    ||| c == '\u{2029}'
    ||| c == '\u{202f}'
    ||| c == '\u{205f}'
    ||| c == '\u{3000}'
}

/// Whether a character is white space.
pub fn is_white_space(c: char) -> (answer: bool)
    ensures
        answer == white_space(c),
{
    ('\u{9}' <= c && c <= '\u{d}') || c == '\u{20}' || c == '\u{85}' || c == '\u{a0}' || c
        == '\u{1680}' || ('\u{2000}' <= c && c <= '\u{200a}') || c == '\u{2028}' || c == '\u{2029}'
        || c == '\u{202f}' || c == '\u{205f}' || c == '\u{3000}'
}

/// The text without its leading characters of one kind.
pub open spec fn drop_leading(text: Seq<char>, kind: spec_fn(char) -> bool) -> Seq<char>
    decreases text.len(),
{
    if text.len() > 0 && kind(text[0]) {
        drop_leading(text.skip(1), kind)
    } else {
        text
    }
}

/// The text without its trailing characters of one kind.
pub open spec fn drop_trailing(text: Seq<char>, kind: spec_fn(char) -> bool) -> Seq<char>
    decreases text.len(),
{
    if text.len() > 0 && kind(text.last()) {
        drop_trailing(text.drop_last(), kind)
    } else {
        text
    }
}

/// The text without leading white space.
pub open spec fn trimmed_start(text: Seq<char>) -> Seq<char> {
    drop_leading(text, |c: char| white_space(c))
}

/// The text without leading and trailing white space.
pub open spec fn trimmed(text: Seq<char>) -> Seq<char> {
    drop_trailing(trimmed_start(text), |c: char| white_space(c))
}

/// What begins and ends with a character of another kind loses nothing, and nothing is left
/// only of what is all of the kind.
pub proof fn lemma_drops(text: Seq<char>, kind: spec_fn(char) -> bool)
    ensures
        text.len() > 0 && !kind(text[0]) ==> drop_leading(text, kind) == text,
        text.len() > 0 && !kind(text.last()) ==> drop_trailing(text, kind) == text,
        drop_trailing(drop_leading(text, kind), kind).len() == 0 ==> forall|i: int|
            0 <= i < text.len() ==> kind(#[trigger] text[i]),
    decreases text.len(),
{
    if text.len() > 0 && kind(text[0]) {
        lemma_drops(text.skip(1), kind);
        assert forall|i: int| drop_trailing(drop_leading(text, kind), kind).len() == 0 && 0 <= i
            < text.len() implies kind(#[trigger] text[i]) by {
            if i > 0 {
                assert(text.skip(1)[i - 1] == text[i]);
            }
        }
    } else if text.len() > 0 {
        lemma_first_stays(text, kind);
    }
}

proof fn lemma_first_stays(text: Seq<char>, kind: spec_fn(char) -> bool)
    requires
        text.len() > 0,
        !kind(text[0]),
    ensures
        drop_trailing(text, kind).len() > 0,
    decreases text.len(),
{
    if kind(text.last()) {
        lemma_first_stays(text.drop_last(), kind);
    }
}

/// An ASCII text takes one byte for each character.
pub proof fn lemma_ascii_bytes(text: Seq<char>)
    requires
        is_ascii(text),
    ensures
        byte_length(text) == text.len(),
    decreases text.len(),
{
    if text.len() > 0 {
        lemma_ascii_bytes(text.skip(1));
    }
}

/// The lowercase form of an ASCII text is ASCII, as long, and its own lowercase form.
pub proof fn lemma_ascii_lowered(text: Seq<char>)
    requires
        is_ascii(text),
    ensures
        lowercase(text) == ascii_lowered(text),
        is_ascii(ascii_lowered(text)),
        ascii_lowered(ascii_lowered(text)) == ascii_lowered(text),
{
    reveal(lowercase);
    let lower = ascii_lowered(text);
    assert forall|i: int| 0 <= i < lower.len() implies #[trigger] lower[i] <= '\u{7f}'
        && ascii_lower(lower[i]) == lower[i] by {
        assert(text[i] <= '\u{7f}');
    }
    assert(ascii_lowered(lower) =~= lower);
}

/// Where the characters marked in `drop` stop at the front.
pub(crate) fn leading_end(
    chars: &Vec<char>,
    drop: &Vec<bool>,
    Ghost(kind): Ghost<spec_fn(char) -> bool>,
) -> (at: usize)
    requires
        drop@.len() == chars@.len(),
        forall|k: int| 0 <= k < chars@.len() ==> drop@[k] == kind(#[trigger] chars@[k]),
    ensures
        at <= chars@.len(),
        chars@.skip(at as int) == drop_leading(chars@, kind),
{
    let mut at: usize = 0;
    assert(chars@.skip(0) =~= chars@);
    while at < chars.len() && drop[at]
        invariant
            at <= chars@.len(),
            drop@.len() == chars@.len(),
            forall|k: int| 0 <= k < chars@.len() ==> drop@[k] == kind(#[trigger] chars@[k]),
            drop_leading(chars@.skip(at as int), kind) == drop_leading(chars@, kind),
        decreases chars.len() - at,
    {
        assert(chars@.skip(at as int)[0] == chars@[at as int]);
        assert(chars@.skip(at as int).skip(1) =~= chars@.skip(at + 1));
        at = at + 1;
    }
    assert(at < chars@.len() ==> chars@.skip(at as int)[0] == chars@[at as int]);
    at
}

/// Where the characters marked in `drop` start at the back, down to `from`.
pub(crate) fn trailing_start(
    chars: &Vec<char>,
    drop: &Vec<bool>,
    from: usize,
    Ghost(kind): Ghost<spec_fn(char) -> bool>,
) -> (at: usize)
    requires
        drop@.len() == chars@.len(),
        from <= chars@.len(),
        forall|k: int| 0 <= k < chars@.len() ==> drop@[k] == kind(#[trigger] chars@[k]),
    ensures
        from <= at <= chars@.len(),
        chars@.subrange(from as int, at as int) == drop_trailing(chars@.skip(from as int), kind),
{
    let mut at: usize = chars.len();
    assert(chars@.subrange(from as int, at as int) =~= chars@.skip(from as int));
    while at > from && drop[at - 1]
        invariant
            from <= at <= chars@.len(),
            drop@.len() == chars@.len(),
            forall|k: int| 0 <= k < chars@.len() ==> drop@[k] == kind(#[trigger] chars@[k]),
            drop_trailing(chars@.subrange(from as int, at as int), kind) == drop_trailing(
                chars@.skip(from as int),
                kind,
            ),
        decreases at,
    {
        assert(chars@.subrange(from as int, at as int).last() == chars@[at - 1]);
        assert(chars@.subrange(from as int, at as int).drop_last() =~= chars@.subrange(
            from as int,
            at - 1,
        ));
        at = at - 1;
    }
    assert(at > from ==> chars@.subrange(from as int, at as int).last() == chars@[at - 1]);
    at
}

fn white_space_marks(chars: &Vec<char>) -> (marks: Vec<bool>)
    ensures
        marks@.len() == chars@.len(),
        forall|k: int| 0 <= k < chars@.len() ==> marks@[k] == white_space(#[trigger] chars@[k]),
{
    let mut marks: Vec<bool> = Vec::new();
    let mut i: usize = 0;
    while i < chars.len()
        invariant
            i <= chars@.len(),
            marks@.len() == i,
            forall|k: int| 0 <= k < i ==> marks@[k] == white_space(#[trigger] chars@[k]),
        decreases chars.len() - i,
    {
        marks.push(is_white_space(chars[i]));
        i = i + 1;
    }
    marks
}

/// The text without leading white space.
pub fn trim_start(text: &str) -> (rest: String)
    ensures
        rest@ == trimmed_start(text@),
{
    let chars = to_chars(text);
    let marks = white_space_marks(&chars);
    let ghost kind = |c: char| white_space(c);
    let from = leading_end(&chars, &marks, Ghost(kind));
    assert(chars@.subrange(from as int, chars@.len() as int) =~= chars@.skip(from as int));
    slice_text(&chars, from, chars.len())
}

/// The text without leading and trailing white space.
pub fn trim(text: &str) -> (rest: String)
    ensures
        rest@ == trimmed(text@),
{
    let chars = to_chars(text);
    let marks = white_space_marks(&chars);
    let ghost kind = |c: char| white_space(c);
    let from = leading_end(&chars, &marks, Ghost(kind));
    let to = trailing_start(&chars, &marks, from, Ghost(kind));
    slice_text(&chars, from, to)
}

// ---------------------------------------------------------------------------
// Lengths in bytes
// ---------------------------------------------------------------------------

/// How many bytes a character takes in UTF-8.
pub open spec fn char_bytes(c: char) -> nat {
    if c <= '\u{7f}' {
        1
    } else if c <= '\u{7ff}' {
        2
    } else if c <= '\u{ffff}' {
        3
    } else {
        4
    }
}

/// How many bytes a text takes in UTF-8.
pub open spec fn byte_length(text: Seq<char>) -> nat
    decreases text.len(),
{
    if text.len() == 0 {
        0
    } else {
        char_bytes(text[0]) + byte_length(text.skip(1))
    }
}

pub(crate) fn count_char_bytes(c: char) -> (count: usize)
    ensures
        count == char_bytes(c),
{
    if c <= '\u{7f}' {
        1
    } else if c <= '\u{7ff}' {
        2
    } else if c <= '\u{ffff}' {
        3
    } else {
        4
    }
}

proof fn lemma_char_bytes(c: char)
    ensures
        encode_scalar(c as u32).len() == char_bytes(c),
{
    char_is_scalar(c);
}

/// The encoding of a text in UTF-8 is as long as its characters say.
proof fn lemma_byte_length(text: Seq<char>)
    ensures
        encode_utf8(text).len() == byte_length(text),
    decreases text.len(),
{
    if text.len() > 0 {
        lemma_char_bytes(text[0]);
        assert(text.drop_first() =~= text.skip(1));
        lemma_byte_length(text.skip(1));
    }
}

/// How many bytes a text takes in UTF-8.
pub fn byte_count(text: &str) -> (count: usize)
    ensures
        count == byte_length(text@),
{
    proof {
        lemma_byte_length(text@);
    }
    text.as_bytes().len()
}

/// Whether a text takes fewer than four bytes in UTF-8.
pub fn under_four_bytes(text: &str) -> (answer: bool)
    ensures
        answer == (byte_length(text@) < 4),
{
    byte_count(text) < 4
}

// ---------------------------------------------------------------------------
// Numbers as text, and joining
// ---------------------------------------------------------------------------

/// The digit for a number below sixteen.
pub open spec fn digit(n: int) -> char {
    seq!['0', '1', '2', '3', '4', '5', '6', '7', '8', '9', 'a', 'b', 'c', 'd', 'e', 'f'][n]
}

/// A number written in a base, most significant digit first, without leading zeros.
pub open spec fn digits_in(n: nat, base: nat) -> Seq<char>
    decreases n,
{
    if base < 2 || n < base {
        seq![digit(n as int)]
    } else {
        proof {
            lemma_div_decreases(n as int, base as int);
        }
        digits_in(n / base, base).push(digit((n % base) as int))
    }
}

/// A number in decimal.
pub open spec fn decimal_text(n: nat) -> Seq<char> {
    digits_in(n, 10)
}

/// A number in lowercase hexadecimal.
pub open spec fn hex_text(n: nat) -> Seq<char> {
    digits_in(n, 16)
}

/// The digits of a number are none but digits, and there is one at least.
proof fn lemma_digits(n: nat, base: nat)
    requires
        2 <= base <= 16,
    ensures
        digits_in(n, base).len() > 0,
        forall|k: int| 0 <= k < digits_in(n, base).len() ==> #[trigger] digits_in(n, base)[k] != '_',
    decreases n,
{
    lemma_mod_bound(n as int, base as int);
    if n >= base {
        lemma_div_decreases(n as int, base as int);
        lemma_digits(n / base, base);
    }
}

/// Ten times itself, a number of times.
pub open spec fn power_of_ten(size: nat) -> nat
    decreases size,
{
    if size == 0 {
        1
    } else {
        10 * power_of_ten((size - 1) as nat)
    }
}

/// A number in decimal is digits alone, begins with no zero that could be left out, and has no
/// more digits than its size asks for.
pub proof fn lemma_decimal(n: nat, size: nat)
    requires
        size > 0,
        n < power_of_ten(size),
    ensures
        0 < decimal_text(n).len() <= size,
        forall|k: int|
            0 <= k < decimal_text(n).len() ==> '0' <= #[trigger] decimal_text(n)[k] <= '9',
        decimal_text(n)[0] == '0' ==> n == 0 && decimal_text(n).len() == 1,
    decreases n,
{
    if n >= 10 {
        reveal_with_fuel(power_of_ten, 2);
        lemma_decimal(n / 10, (size - 1) as nat);
        let whole = decimal_text(n / 10);
        assert(decimal_text(n) == whole.push(digit((n % 10) as int)));
        assert(decimal_text(n)[0] == whole[0]);
    }
}

/// A hexadecimal text holds no underscore.
pub proof fn hex_text_is_plain(n: nat)
    ensures
        !hex_text(n).contains('_'),
{
    lemma_digits(n, 16);
}

/// Numbers that are written the same are the same.
pub proof fn digits_are_unique(a: nat, b: nat, base: nat)
    requires
        2 <= base <= 16,
        digits_in(a, base) == digits_in(b, base),
    ensures
        a == b,
    decreases a,
{
    lemma_mod_bound(a as int, base as int);
    lemma_mod_bound(b as int, base as int);
    lemma_fundamental_div_mod(a as int, base as int);
    lemma_fundamental_div_mod(b as int, base as int);
    let (x, y) = (digits_in(a, base), digits_in(b, base));
    if a >= base {
        lemma_div_decreases(a as int, base as int);
        lemma_digits(a / base, base);
        assert(x.drop_last() =~= digits_in(a / base, base));
    }
    if b >= base {
        lemma_digits(b / base, base);
        assert(y.drop_last() =~= digits_in(b / base, base));
    }
    if a >= base && b >= base {
        digits_are_unique(a / base, b / base, base);
        assert(x.last() == digit((a % base) as int));
        assert(y.last() == digit((b % base) as int));
    } else if a < base && b < base {
        assert(x[0] == digit(a as int));
        assert(y[0] == digit(b as int));
    }
}

pub(crate) fn digit_char(n: u8) -> (c: char)
    requires
        n < 16,
    ensures
        c == digit(n as int),
{
    match n {
        0 => '0',
        1 => '1',
        2 => '2',
        3 => '3',
        4 => '4',
        5 => '5',
        6 => '6',
        7 => '7',
        8 => '8',
        9 => '9',
        10 => 'a',
        11 => 'b',
        12 => 'c',
        13 => 'd',
        14 => 'e',
        _ => 'f',
    }
}

fn append_digits(out: &mut String, n: u128, base: u128)
    requires
        2 <= base <= 16,
    ensures
        final(out)@ == old(out)@ + digits_in(n as nat, base as nat),
    decreases n,
{
    proof {
        lemma_mod_bound(n as int, base as int);
    }
    let ghost start = out@;
    let low: u8 = (n % base) as u8;
    if n >= base {
        proof {
            lemma_div_decreases(n as int, base as int);
        }
        append_digits(out, n / base, base);
        assert(out@ == start + digits_in((n / base) as nat, base as nat));
        assert(digits_in(n as nat, base as nat) == digits_in((n / base) as nat, base as nat).push(
            digit(low as int),
        ));
    } else {
        assert(n % base == n) by (nonlinear_arith)
            requires
                n < base,
        ;
        assert(digits_in(n as nat, base as nat) == seq![digit(low as int)]);
    }
    out.push(digit_char(low));
    assert(out@ =~= old(out)@ + digits_in(n as nat, base as nat));
}

/// A number in decimal.
pub fn decimal(n: u64) -> (text: String)
    ensures
        text@ == decimal_text(n as nat),
{
    let mut out = String::new();
    append_digits(&mut out, n as u128, 10);
    assert(out@ =~= decimal_text(n as nat));
    out
}

/// A number in lowercase hexadecimal.
pub fn hex(n: u128) -> (text: String)
    ensures
        text@ == hex_text(n as nat),
{
    let mut out = String::new();
    append_digits(&mut out, n, 16);
    assert(out@ =~= hex_text(n as nat));
    out
}

/// The texts one after the other with a separator between two of them.
pub open spec fn joined(parts: Seq<Seq<char>>, separator: Seq<char>) -> Seq<char>
    decreases parts.len(),
{
    if parts.len() == 0 {
        Seq::empty()
    } else if parts.len() == 1 {
        parts[0]
    } else {
        joined(parts.drop_last(), separator) + separator + parts.last()
    }
}

/// The texts one after the other with a separator between two of them.
pub fn join(parts: &Vec<String>, separator: &str) -> (text: String)
    ensures
        text@ == joined(texts(parts@), separator@),
{
    let mut out = String::new();
    let mut i: usize = 0;
    while i < parts.len()
        invariant
            i <= parts@.len(),
            out@ == joined(texts(parts@).take(i as int), separator@),
        decreases parts.len() - i,
    {
        if i > 0 {
            out.append(separator);
        }
        out.append(parts[i].as_str());
        i = i + 1;
        assert(texts(parts@).take(i as int).drop_last() =~= texts(parts@).take(i - 1));
        assert(out@ =~= joined(texts(parts@).take(i as int), separator@));
    }
    assert(texts(parts@).take(i as int) =~= texts(parts@));
    out
}

} // verus!
