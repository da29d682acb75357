//! What splitting, trimming, searching, joining and writing of texts do, character by character.

use vstd::prelude::*;
use vstd::arithmetic::div_mod::{lemma_div_decreases, lemma_fundamental_div_mod, lemma_mod_bound};
use vstd::arithmetic::mul::lemma_mul_is_commutative;
use vstd::utf8::{char_is_scalar, encode_scalar, encode_utf8};

use crate::order::text_less;
use crate::paths::{file_in, home_directory, joined_path};
use crate::seqs::first_of;
use crate::terms::term_char;
use crate::text::{
    after_prefix, begins_with, byte_length, char_bytes, decimal_text, digit, digits_in,
    drop_trailing, finishes_with, first_index, has_text, hex_text, is_ascii, joined, last_part,
    lemma_ascii_lowered, lemma_first_index, lemma_first_index_is, lines_of, lowercase, parts_of,
    stands_at, trimmed, trimmed_start, white_space, without_return,
};

verus! {

// ---------------------------------------------------------------------------
// Where a text stands
// ---------------------------------------------------------------------------

/// A pattern stands in a text exactly where the text is something, the pattern and something.
pub proof fn a_text_holds_its_middle(front: Seq<char>, pattern: Seq<char>, back: Seq<char>)
    ensures
        has_text(front + pattern + back, pattern),
        begins_with(pattern + back, pattern),
        finishes_with(front + pattern, pattern),
        after_prefix(pattern + back, pattern) == Some(back),
{
    let whole = front + pattern + back;
    let at = front.len() as int;
    assert(whole.subrange(at, at + pattern.len()) =~= pattern);
    assert(stands_at(whole, pattern, at));
    assert((pattern + back).subrange(0, pattern.len() as int) =~= pattern);
    assert((front + pattern).subrange(at, at + pattern.len()) =~= pattern);
    assert((pattern + back).skip(pattern.len() as int) =~= back);
}

/// A text that holds a pattern is something, the pattern and something.
pub proof fn a_held_pattern_splits_the_text(text: Seq<char>, pattern: Seq<char>) -> (parts: (
    Seq<char>,
    Seq<char>,
))
    requires
        has_text(text, pattern),
    ensures
        text == parts.0 + pattern + parts.1,
{
    let at = choose|at: int| stands_at(text, pattern, at);
    let parts = (text.take(at), text.skip(at + pattern.len()));
    assert(text =~= parts.0 + pattern + parts.1);
    parts
}

/// A text that begins or ends with a pattern is the pattern and something, or something and the
/// pattern.
pub proof fn a_beginning_is_followed(text: Seq<char>, pattern: Seq<char>)
    ensures
        begins_with(text, pattern) <==> text.len() >= pattern.len() && text == pattern + text.skip(
            pattern.len() as int,
        ),
        finishes_with(text, pattern) <==> text.len() >= pattern.len() && text == text.take(
            text.len() - pattern.len(),
        ) + pattern,
        after_prefix(text, pattern) is Some <==> begins_with(text, pattern),
{
    let n = pattern.len() as int;
    if text.len() >= n {
        assert(text =~= text.take(n) + text.skip(n));
        assert(text.subrange(0, n) =~= text.take(n));
        assert((pattern + text.skip(n)).take(n) =~= pattern);
        let cut = text.len() - n;
        assert(text =~= text.take(cut) + text.skip(cut));
        assert(text.subrange(cut, text.len() as int) =~= text.skip(cut));
        assert((text.take(cut) + pattern).skip(cut) =~= pattern);
    }
}

// ---------------------------------------------------------------------------
// White space
// ---------------------------------------------------------------------------

/// White space among the ASCII characters is the space and the characters from tab to carriage
/// return; beyond them it is what Unicode lists.
pub proof fn white_space_is_known(c: char)
    ensures
        c <= '\u{7f}' ==> (white_space(c) <==> c == ' ' || c == '\t' || c == '\n' || c == '\u{b}'
            || c == '\u{c}' || c == '\r'),
        c == '\u{85}' || c == '\u{a0}' || c == '\u{1680}' || c == '\u{2028}' || c == '\u{2029}' || c
            == '\u{202f}' || c == '\u{205f}' || c == '\u{3000}' ==> white_space(c),
        '\u{2000}' <= c <= '\u{200a}' ==> white_space(c),
        c > '\u{7f}' && white_space(c) ==> c == '\u{85}' || c == '\u{a0}' || c == '\u{1680}'
            || '\u{2000}' <= c <= '\u{200a}' || c == '\u{2028}' || c == '\u{2029}' || c
            == '\u{202f}' || c == '\u{205f}' || c == '\u{3000}',
{
}

/// Whether a text is all white space.
pub open spec fn is_blank(text: Seq<char>) -> bool {
    forall|i: int| 0 <= i < text.len() ==> white_space(#[trigger] text[i])
}

/// White space in front of a text is dropped, as far as something else.
pub proof fn leading_blanks_go(blank: Seq<char>, text: Seq<char>)
    requires
        is_blank(blank),
        text.len() > 0 ==> !white_space(text[0]),
    ensures
        trimmed_start(blank + text) == text,
    decreases blank.len(),
{
    let whole = blank + text;
    if blank.len() == 0 {
        assert(whole =~= text);
    } else {
        assert(white_space(blank[0]));
        assert(whole.skip(1) =~= blank.skip(1) + text);
        leading_blanks_go(blank.skip(1), text);
    }
}

proof fn lemma_trailing_blanks_go(text: Seq<char>, blank: Seq<char>)
    requires
        is_blank(blank),
        text.len() > 0 ==> !white_space(text.last()),
    ensures
        drop_trailing(text + blank, |c: char| white_space(c)) == text,
    decreases blank.len(),
{
    let whole = text + blank;
    if blank.len() == 0 {
        assert(whole =~= text);
    } else {
        assert(white_space(blank[blank.len() - 1]));
        assert(whole.drop_last() =~= text + blank.drop_last());
        lemma_trailing_blanks_go(text, blank.drop_last());
    }
}

/// Trimming leaves what stands between the first and the last character that is no white space.
pub proof fn trimming_drops_blanks(front: Seq<char>, text: Seq<char>, back: Seq<char>)
    requires
        is_blank(front),
        is_blank(back),
        text.len() > 0 ==> !white_space(text[0]) && !white_space(text.last()),
    ensures
        trimmed(front + text + back) == text,
{
    let kind = |c: char| white_space(c);
    if text.len() > 0 {
        assert(front + text + back =~= front + (text + back));
        leading_blanks_go(front, text + back);
        lemma_trailing_blanks_go(text, back);
    } else {
        let blank = front + back;
        assert(front + text + back =~= blank + Seq::<char>::empty());
        leading_blanks_go(blank, Seq::empty());
        lemma_trailing_blanks_go(Seq::empty(), Seq::empty());
        assert(Seq::<char>::empty() + Seq::<char>::empty() =~= Seq::<char>::empty());
        assert(text =~= Seq::<char>::empty());
    }
}

/// What white space stands in front of a text, and the rest, which begins with none.
pub proof fn leading_blanks_of(text: Seq<char>) -> (blank: Seq<char>)
    ensures
        is_blank(blank),
        text == blank + trimmed_start(text),
        trimmed_start(text).len() > 0 ==> !white_space(trimmed_start(text)[0]),
    decreases text.len(),
{
    if text.len() > 0 && white_space(text[0]) {
        let rest = leading_blanks_of(text.skip(1));
        let blank = seq![text[0]] + rest;
        assert forall|i: int| 0 <= i < blank.len() implies white_space(#[trigger] blank[i]) by {
            if i > 0 {
                assert(blank[i] == rest[i - 1]);
            }
        }
        assert(trimmed_start(text) == trimmed_start(text.skip(1)));
        assert(text =~= seq![text[0]] + text.skip(1));
        assert(text =~= blank + trimmed_start(text));
        blank
    } else {
        assert(text =~= Seq::<char>::empty() + text);
        Seq::empty()
    }
}

// ---------------------------------------------------------------------------
// Lines and parts
// ---------------------------------------------------------------------------

/// A text begins with a line, which a line feed ends, alone or after a carriage return; the
/// other lines are those of the rest.
pub proof fn a_line_feed_ends_a_line(line: Seq<char>, rest: Seq<char>)
    requires
        !line.contains('\n'),
        line.len() > 0 ==> line.last() != '\r',
    ensures
        lines_of(line + seq!['\n'] + rest) == seq![line] + lines_of(rest),
        lines_of(line + seq!['\r', '\n'] + rest) == seq![line] + lines_of(rest),
{
    lemma_first_line(line, rest);
    let returned = line.push('\r');
    assert(returned.drop_last() =~= line);
    assert(line + seq!['\r', '\n'] + rest =~= returned + seq!['\n'] + rest);
    assert(!returned.contains('\n')) by {
        assert forall|k: int| 0 <= k < returned.len() implies returned[k] != '\n' by {
            if k < line.len() {
                assert(line.contains(line[k]));
            }
        }
    }
    lemma_first_line(returned, rest);
}

proof fn lemma_first_line(line: Seq<char>, rest: Seq<char>)
    requires
        !line.contains('\n'),
    ensures
        lines_of(line + seq!['\n'] + rest) == seq![without_return(line)] + lines_of(rest),
{
    let text = line + seq!['\n'] + rest;
    let at = line.len() as int;
    assert(text[at] == '\n');
    assert forall|k: int| 0 <= k < at implies text[k] != '\n' by {
        assert(text[k] == line[k]);
        assert(line.contains(line[k]));
    }
    lemma_first_index_is(text, '\n', at);
    assert(text.take(at) =~= line);
    assert(text.skip(at + 1) =~= rest);
}

/// A text without a line feed is one line, and the empty text has none.
pub proof fn the_last_line_needs_no_end(line: Seq<char>)
    requires
        !line.contains('\n'),
    ensures
        line.len() > 0 ==> lines_of(line) == seq![line],
        line.len() == 0 ==> lines_of(line).len() == 0,
{
    lemma_first_index(line, '\n');
    if first_index(line, '\n') < line.len() {
        assert(line.contains(line[first_index(line, '\n')]));
    }
}

/// A separator ends the first part of a text, and the others are those of the rest; without a
/// separator a text is its only part.
pub proof fn a_separator_ends_a_part(part: Seq<char>, separator: char, rest: Seq<char>)
    requires
        !part.contains(separator),
    ensures
        parts_of(part + seq![separator] + rest, separator) == seq![part] + parts_of(
            rest,
            separator,
        ),
        parts_of(part, separator) == seq![part],
        last_part(part, separator) == part,
        last_part(rest + seq![separator] + part, separator) == part,
{
    let text = part + seq![separator] + rest;
    let at = part.len() as int;
    assert(text[at] == separator);
    assert forall|k: int| 0 <= k < at implies text[k] != separator by {
        assert(text[k] == part[k]);
        assert(part.contains(part[k]));
    }
    lemma_first_index_is(text, separator, at);
    assert(text.take(at) =~= part);
    assert(text.skip(at + 1) =~= rest);
    lemma_first_index(part, separator);
    if first_index(part, separator) < part.len() {
        assert(part.contains(part[first_index(part, separator)]));
    }
    lemma_last_part(rest, separator, part);
}

proof fn lemma_last_part(front: Seq<char>, separator: char, part: Seq<char>)
    requires
        !part.contains(separator),
    ensures
        parts_of(front + seq![separator] + part, separator).last() == part,
        parts_of(front + seq![separator] + part, separator).len() > 1,
    decreases front.len(),
{
    let text = front + seq![separator] + part;
    lemma_first_index(text, separator);
    let at = first_index(text, separator);
    assert(text[front.len() as int] == separator);
    assert(at <= front.len());
    let rest = text.skip(at + 1);
    assert(parts_of(text, separator) == seq![text.take(at)] + parts_of(rest, separator));
    if at == front.len() {
        assert(rest =~= part);
        lemma_first_index(part, separator);
        if first_index(part, separator) < part.len() {
            assert(part.contains(part[first_index(part, separator)]));
        }
        assert(parts_of(part, separator) == seq![part]);
    } else {
        assert(rest =~= front.skip(at + 1) + seq![separator] + part);
        lemma_last_part(front.skip(at + 1), separator, part);
    }
}

// ---------------------------------------------------------------------------
// Lowercase
// ---------------------------------------------------------------------------

/// The lowercase form of an ASCII text is as long; a letter from A to Z becomes the one in the
/// same place from a to z, and every other character stays.
pub proof fn lowercase_of_ascii(text: Seq<char>)
    requires
        is_ascii(text),
    ensures
        lowercase(text).len() == text.len(),
        forall|i: int|
            0 <= i < text.len() && 'A' <= #[trigger] text[i] <= 'Z' ==> lowercase(text)[i] as int
                - 'a' as int == text[i] as int - 'A' as int,
        forall|i: int|
            0 <= i < text.len() && !('A' <= #[trigger] text[i] <= 'Z') ==> lowercase(text)[i]
                == text[i],
{
    lemma_ascii_lowered(text);
}

// ---------------------------------------------------------------------------
// Numbers
// ---------------------------------------------------------------------------

/// What a digit is worth.
pub open spec fn digit_value(c: char) -> int {
    if '0' <= c <= '9' {
        c as int - '0' as int
    } else {
        c as int - 'a' as int + 10
    }
}

/// What digits are worth in a base.
pub open spec fn value_of(text: Seq<char>, base: int) -> int
    decreases text.len(),
{
    if text.len() == 0 {
        0
    } else {
        value_of(text.drop_last(), base) * base + digit_value(text.last())
    }
}

proof fn lemma_digits_value(n: nat, base: nat)
    requires
        2 <= base <= 16,
    ensures
        value_of(digits_in(n, base), base as int) == n,
        digits_in(n, base).len() > 0,
        digits_in(n, base)[0] == '0' ==> n == 0 && digits_in(n, base).len() == 1,
    decreases n,
{
    reveal_with_fuel(value_of, 2);
    let text = digits_in(n, base);
    if n < base {
        assert(text.drop_last() =~= Seq::empty());
        assert(text.last() == digit(n as int));
    } else {
        lemma_div_decreases(n as int, base as int);
        lemma_fundamental_div_mod(n as int, base as int);
        lemma_mod_bound(n as int, base as int);
        lemma_digits_value(n / base, base);
        let front = digits_in(n / base, base);
        assert(text.drop_last() =~= front);
        assert(text.last() == digit((n % base) as int));
        assert(text[0] == front[0]);
        assert(n / base >= 1) by (nonlinear_arith)
            requires
                n >= base,
                base >= 2,
        ;
        let high = value_of(front, base as int);
        assert(digit_value(digit((n % base) as int)) == n % base);
        lemma_mul_is_commutative(high, base as int);
    }
}

/// A number in decimal or hexadecimal is digits that are worth the number, without a zero in
/// front.
pub proof fn numbers_are_written_in_digits(n: nat)
    ensures
        value_of(decimal_text(n), 10) == n,
        value_of(hex_text(n), 16) == n,
        decimal_text(n)[0] == '0' ==> n == 0 && decimal_text(n).len() == 1,
        hex_text(n)[0] == '0' ==> n == 0 && hex_text(n).len() == 1,
{
    lemma_digits_value(n, 10);
    lemma_digits_value(n, 16);
}

// ---------------------------------------------------------------------------
// Joining, sizes and order
// ---------------------------------------------------------------------------

/// Joined texts stand one after the other with the separator between two of them and nowhere
/// else.
pub proof fn separators_stand_between(
    first: Seq<char>,
    parts: Seq<Seq<char>>,
    separator: Seq<char>,
)
    ensures
        joined(Seq::empty(), separator).len() == 0,
        joined(seq![first], separator) == first,
        parts.len() > 0 ==> joined(seq![first] + parts, separator) == first + separator + joined(
            parts,
            separator,
        ),
    decreases parts.len(),
{
    reveal_with_fuel(joined, 3);
    if parts.len() > 1 {
        let front = parts.drop_last();
        separators_stand_between(first, front, separator);
        assert((seq![first] + parts).drop_last() =~= seq![first] + front);
        assert(joined(seq![first] + parts, separator) =~= first + separator + joined(
            parts,
            separator,
        ));
    } else if parts.len() == 1 {
        assert((seq![first] + parts).drop_last() =~= seq![first]);
        assert(parts =~= seq![parts[0]]);
    }
}

/// A text takes as many bytes as its encoding in UTF-8 has.
pub proof fn bytes_are_those_of_utf8(text: Seq<char>)
    ensures
        byte_length(text) == encode_utf8(text).len(),
    decreases text.len(),
{
    if text.len() > 0 {
        lemma_char_is_encoded(text[0]);
        assert(text.drop_first() =~= text.skip(1));
        bytes_are_those_of_utf8(text.skip(1));
    }
}

proof fn lemma_char_is_encoded(c: char)
    ensures
        encode_scalar(c as u32).len() == char_bytes(c),
{
    char_is_scalar(c);
}

/// Of two texts with a common beginning the one with the lower character after that comes
/// first, and a text comes before every longer one that begins with it.
pub proof fn texts_are_compared_by_characters(
    common: Seq<char>,
    low: char,
    high: char,
    after: Seq<char>,
    other: Seq<char>,
)
    requires
        low < high,
    ensures
        text_less(common + seq![low] + after, common + seq![high] + other),
        !text_less(common + seq![high] + other, common + seq![low] + after),
        text_less(common, common + seq![low] + after),
        !text_less(common + seq![low] + after, common),
    decreases common.len(),
{
    let (a, b) = (common + seq![low] + after, common + seq![high] + other);
    if common.len() > 0 {
        assert(a.skip(1) =~= common.skip(1) + seq![low] + after);
        assert(b.skip(1) =~= common.skip(1) + seq![high] + other);
        texts_are_compared_by_characters(common.skip(1), low, high, after, other);
    } else {
        assert(a[0] == low && b[0] == high);
    }
}

/// The first of some items are as many as asked for, or all where there are fewer, and in their
/// order.
pub proof fn the_first_items_are_taken<T>(items: Seq<T>, count: nat)
    ensures
        items.len() <= count ==> first_of(items, count as int) == items,
        items.len() > count ==> first_of(items, count as int) == items.take(count as int),
{
}

/// The characters of a term are ASCII letters and digits, `_`, `-`, `.` and `/` and, beyond
/// ASCII, no white space.
pub proof fn term_characters_are_known(c: char)
    ensures
        c <= '\u{7f}' ==> (term_char(c) <==> 'a' <= c <= 'z' || 'A' <= c <= 'Z' || '0' <= c <= '9'
            || c == '_' || c == '-' || c == '.' || c == '/'),
        white_space(c) ==> !term_char(c),
{
}

// ---------------------------------------------------------------------------
// Paths
// ---------------------------------------------------------------------------

/// A relative path is appended with one slash between, and an absolute one stands for itself.
pub proof fn paths_are_joined_by_a_slash(base: Seq<char>, path: Seq<char>)
    ensures
        path.len() > 0 && path[0] == '/' ==> joined_path(base, path) == path,
        base.len() > 0 && base.last() != '/' && (path.len() == 0 || path[0] != '/') ==> joined_path(
            base,
            path,
        ) == base + seq!['/'] + path,
        base.len() > 0 && base.last() == '/' && (path.len() == 0 || path[0] != '/') ==> joined_path(
            base,
            path,
        ) == base + path,
        (path.len() == 0 || path[0] != '/') ==> joined_path(Seq::empty(), path) == path,
{
    assert(base.push('/') + path =~= base + seq!['/'] + path);
    assert(Seq::<char>::empty() + path =~= path);
}

/// A file in a directory is the directory, a slash, the name and the extension.
pub proof fn files_stand_in_their_directory(
    directory: Seq<char>,
    name: Seq<char>,
    extension: Seq<char>,
)
    requires
        directory.len() > 0,
        directory.last() != '/',
        name.len() > 0,
        name[0] != '/',
    ensures
        file_in(directory, name, extension) == directory + seq!['/'] + name + extension,
{
    assert((name + extension)[0] == name[0]);
    assert(directory.push('/') + (name + extension) =~= directory + seq!['/'] + name + extension);
}

/// The engine's directory is the one that is set, or else `.clab` in the home directory, or
/// else `.clab` where the engine runs.
pub proof fn the_set_directory_counts_first(set: Seq<char>, home: Option<Seq<char>>, user: Seq<char>)
    requires
        user.len() > 0,
        user.last() != '/',
    ensures
        home_directory(Some(set), home) == set,
        home_directory(None, Some(user)) == user + "/.clab"@,
        home_directory(None, None) == ".clab"@,
{
    reveal_strlit(".clab");
    reveal_strlit("/.clab");
    assert(joined_path(user, ".clab"@) =~= user + "/.clab"@);
}

} // verus!
