//! The search terms in a query.

use vstd::prelude::*;

use crate::text::{
    alphanumeric, ascii_lower, ascii_lowered, byte_length, contains_char, drop_leading,
    drop_trailing, is_ascii, joined, leading_end, lemma_ascii_bytes, lemma_ascii_lowered,
    lemma_drops, lowercase, slice_text, texts, to_chars, trailing_start, trimmed, under_four_bytes,
    white_space,
};

verus! {

/// Whether a character can stand in a search term.
pub open spec fn term_char(c: char) -> bool {
    alphanumeric(c) || c == '_' || c == '-' || c == '.' || c == '/'
}

/// Whether a character can stand in a search term.
pub fn is_term_char(c: char) -> (answer: bool)
    ensures
        answer == term_char(c),
{
    c.is_alphanumeric() || c == '_' || c == '-' || c == '.' || c == '/'
}

// ---------------------------------------------------------------------------
// Words
// ---------------------------------------------------------------------------

/// How many of the first marks are set.
pub open spec fn run_length(marks: Seq<bool>) -> nat
    decreases marks.len(),
{
    if marks.len() > 0 && marks[0] {
        1 + run_length(marks.skip(1))
    } else {
        0
    }
}

/// A run is no longer than its text, and one that starts with a set mark is not empty.
pub proof fn lemma_run_length(marks: Seq<bool>)
    ensures
        run_length(marks) <= marks.len(),
        marks.len() > 0 && marks[0] ==> run_length(marks) > 0,
    decreases marks.len(),
{
    if marks.len() > 0 && marks[0] {
        lemma_run_length(marks.skip(1));
    }
}

pub proof fn lemma_run_length_is(marks: Seq<bool>, n: int)
    requires
        0 <= n <= marks.len(),
        forall|k: int| 0 <= k < n ==> marks[k],
        n < marks.len() ==> !marks[n],
    ensures
        run_length(marks) == n,
    decreases marks.len(),
{
    if n > 0 {
        let rest = marks.skip(1);
        assert forall|k: int| 0 <= k < n - 1 implies rest[k] by {
            assert(rest[k] == marks[k + 1]);
        }
        lemma_run_length_is(rest, n - 1);
    }
}

/// The words of a text: the longest runs of marked characters, in their order.
pub open spec fn words_of(text: Seq<char>, marks: Seq<bool>) -> Seq<Seq<char>>
    decreases marks.len(),
{
    if marks.len() == 0 {
        Seq::empty()
    } else if !marks[0] {
        words_of(text.skip(1), marks.skip(1))
    } else {
        proof {
            lemma_run_length(marks);
        }
        let n = run_length(marks) as int;
        seq![text.take(n)] + words_of(text.skip(n), marks.skip(n))
    }
}

/// The words of a text: the longest runs of marked characters, in their order.
pub fn marked_words(chars: &Vec<char>, marks: &Vec<bool>) -> (words: Vec<String>)
    requires
        marks@.len() == chars@.len(),
    ensures
        texts(words@) == words_of(chars@, marks@),
{
    let mut words: Vec<String> = Vec::new();
    let mut i: usize = 0;
    assert(chars@.skip(0) =~= chars@);
    assert(marks@.skip(0) =~= marks@);
    assert(texts(words@) + words_of(chars@, marks@) =~= words_of(chars@, marks@));
    while i < chars.len()
        invariant
            i <= chars@.len(),
            marks@.len() == chars@.len(),
            words_of(chars@, marks@) == texts(words@) + words_of(
                chars@.skip(i as int),
                marks@.skip(i as int),
            ),
        decreases chars.len() - i,
    {
        let ghost rest = chars@.skip(i as int);
        let ghost left = marks@.skip(i as int);
        if !marks[i] {
            assert(rest.skip(1) =~= chars@.skip(i + 1));
            assert(left.skip(1) =~= marks@.skip(i + 1));
            i = i + 1;
        } else {
            let mut to: usize = i + 1;
            while to < chars.len() && marks[to]
                invariant
                    i < to <= chars@.len(),
                    marks@.len() == chars@.len(),
                    forall|k: int| i <= k < to ==> marks@[k],
                decreases chars.len() - to,
            {
                to = to + 1;
            }
            proof {
                assert forall|k: int| 0 <= k < to - i implies left[k] by {
                    assert(left[k] == marks@[i + k]);
                }
                lemma_run_length_is(left, to - i);
                assert(rest.take(to - i) =~= chars@.subrange(i as int, to as int));
                assert(rest.skip(to - i) =~= chars@.skip(to as int));
                assert(left.skip(to - i) =~= marks@.skip(to as int));
            }
            let ghost done = texts(words@);
            let ghost later = words_of(chars@.skip(to as int), marks@.skip(to as int));
            words.push(slice_text(chars, i, to));
            assert(texts(words@) =~= done.push(chars@.subrange(i as int, to as int)));
            assert(done + (seq![chars@.subrange(i as int, to as int)] + later) =~= texts(words@)
                + later);
            i = to;
        }
    }
    assert(texts(words@) + words_of(chars@.skip(i as int), marks@.skip(i as int)) =~= texts(
        words@,
    ));
    words
}

/// The marks of the characters that can stand in a search term.
pub open spec fn term_marks(text: Seq<char>) -> Seq<bool> {
    text.map_values(|c: char| term_char(c))
}

fn mark_term_chars(chars: &Vec<char>) -> (marks: Vec<bool>)
    ensures
        marks@ == term_marks(chars@),
{
    let mut marks: Vec<bool> = Vec::new();
    let mut i: usize = 0;
    while i < chars.len()
        invariant
            i <= chars@.len(),
            marks@.len() == i,
            forall|k: int| 0 <= k < i ==> marks@[k] == term_char(#[trigger] chars@[k]),
        decreases chars.len() - i,
    {
        marks.push(is_term_char(chars[i]));
        i = i + 1;
    }
    assert(marks@ =~= term_marks(chars@));
    marks
}

// ---------------------------------------------------------------------------
// Terms
// ---------------------------------------------------------------------------

/// The terms with one more, unless that takes fewer than four bytes or is there already.
pub open spec fn admitted(terms: Seq<Seq<char>>, term: Seq<char>) -> Seq<Seq<char>> {
    if byte_length(term) < 4 || terms.contains(term) {
        terms
    } else {
        terms.push(term)
    }
}

/// Appends a term, unless it takes fewer than four bytes or is there already.
pub fn admit_term(terms: &mut Vec<String>, term: String)
    ensures
        texts(final(terms)@) == admitted(texts(old(terms)@), term@),
{
    if under_four_bytes(term.as_str()) {
        return;
    }
    let mut i: usize = 0;
    while i < terms.len()
        invariant
            i <= terms@.len(),
            terms@ == old(terms)@,
            forall|k: int| 0 <= k < i ==> (#[trigger] terms@[k])@ != term@,
        decreases terms.len() - i,
    {
        if terms[i] == term {
            assert(texts(terms@)[i as int] == term@);
            return;
        }
        i = i + 1;
    }
    assert(!texts(terms@).contains(term@)) by {
        assert forall|k: int| 0 <= k < texts(terms@).len() implies texts(terms@)[k] != term@ by {
            assert(texts(terms@)[k] == terms@[k]@);
        }
    }
    let ghost before = terms@;
    terms.push(term);
    assert(texts(terms@) =~= texts(before).push(term@));
}

/// A raw word as a term: without the characters at its ends that no term can have, and in
/// lowercase.
pub open spec fn term_of(raw: Seq<char>) -> Seq<char> {
    let outside = |c: char| !term_char(c);
    lowercase(drop_trailing(drop_leading(raw, outside), outside))
}

/// Appends a raw word as a term, unless that takes fewer than four bytes or is there already.
pub fn push_term(terms: &mut Vec<String>, raw: &str)
    ensures
        texts(final(terms)@) == admitted(texts(old(terms)@), term_of(raw@)),
{
    let chars = to_chars(raw);
    let mut outside: Vec<bool> = Vec::new();
    let mut i: usize = 0;
    while i < chars.len()
        invariant
            i <= chars@.len(),
            outside@.len() == i,
            forall|k: int| 0 <= k < i ==> outside@[k] == !term_char(#[trigger] chars@[k]),
        decreases chars.len() - i,
    {
        outside.push(!is_term_char(chars[i]));
        i = i + 1;
    }
    let ghost kind = |c: char| !term_char(c);
    let from = leading_end(&chars, &outside, Ghost(kind));
    let to = trailing_start(&chars, &outside, from, Ghost(kind));
    let word = slice_text(&chars, from, to);
    admit_term(terms, word.as_str().to_lowercase());
}

/// The terms after a number of raw words.
pub open spec fn terms_after(terms: Seq<Seq<char>>, words: Seq<Seq<char>>) -> Seq<Seq<char>>
    decreases words.len(),
{
    if words.len() == 0 {
        terms
    } else {
        terms_after(admitted(terms, term_of(words[0])), words.skip(1))
    }
}

/// The search terms in a query.
pub open spec fn terms_in(query: Seq<char>) -> Seq<Seq<char>> {
    terms_after(Seq::empty(), words_of(query, term_marks(query)))
}

/// The search terms in a query: its words in lowercase that take at least four bytes, each
/// once.
pub fn query_terms(query: &str) -> (terms: Vec<String>)
    ensures
        texts(terms@) == terms_in(query@),
{
    let chars = to_chars(query);
    let words = marked_words(&chars, &mark_term_chars(&chars));
    let ghost held = texts(words@);
    let mut terms: Vec<String> = Vec::new();
    let mut i: usize = 0;
    assert(held.skip(0) =~= held);
    assert(texts(terms@) =~= Seq::empty());
    while i < words.len()
        invariant
            i <= words@.len(),
            held == texts(words@),
            terms_after(texts(terms@), held.skip(i as int)) == terms_after(Seq::empty(), held),
        decreases words.len() - i,
    {
        assert(held.skip(i as int)[0] == words@[i as int]@);
        assert(held.skip(i as int).skip(1) =~= held.skip(i + 1));
        push_term(&mut terms, words[i].as_str());
        i = i + 1;
    }
    terms
}

pub proof fn lemma_terms_after(terms: Seq<Seq<char>>, words: Seq<Seq<char>>)
    requires
        terms.no_duplicates(),
        forall|k: int| 0 <= k < terms.len() ==> byte_length(#[trigger] terms[k]) >= 4,
    ensures
        terms_after(terms, words).no_duplicates(),
        forall|k: int|
            0 <= k < terms_after(terms, words).len() ==> byte_length(
                #[trigger] terms_after(terms, words)[k],
            ) >= 4,
        terms.is_prefix_of(terms_after(terms, words)),
        terms_after(terms, words).len() <= terms.len() + words.len(),
    decreases words.len(),
{
    if words.len() > 0 {
        let term = term_of(words[0]);
        let next = admitted(terms, term);
        assert(next.no_duplicates()) by {
            assert forall|i: int, j: int| 0 <= i < next.len() && 0 <= j < next.len() && i != j implies next[i]
                != next[j] by {
                if next.len() > terms.len() {
                    assert(!terms.contains(term));
                    if i < terms.len() {
                        assert(terms[i] != term);
                    }
                    if j < terms.len() {
                        assert(terms[j] != term);
                    }
                }
            }
        }
        lemma_terms_after(next, words.skip(1));
    }
}

/// The terms of a query are distinct, each takes at least four bytes, and there are no more of
/// them than words.
pub proof fn terms_are_distinct(query: Seq<char>)
    ensures
        terms_in(query).no_duplicates(),
        forall|k: int|
            0 <= k < terms_in(query).len() ==> byte_length(#[trigger] terms_in(query)[k]) >= 4,
        terms_in(query).len() <= words_of(query, term_marks(query)).len(),
{
    lemma_terms_after(Seq::empty(), words_of(query, term_marks(query)));
}

// ---------------------------------------------------------------------------
// The terms of a text
// ---------------------------------------------------------------------------

/// Whether a text can stand in a query as a word: it is not empty and made of characters that
/// can stand in a term.
pub open spec fn is_word(text: Seq<char>) -> bool {
    text.len() > 0 && forall|i: int| 0 <= i < text.len() ==> term_char(#[trigger] text[i])
}

pub proof fn lemma_run_is_marked(marks: Seq<bool>)
    ensures
        forall|k: int| 0 <= k < run_length(marks) ==> #[trigger] marks[k],
    decreases marks.len(),
{
    if marks.len() > 0 && marks[0] {
        lemma_run_is_marked(marks.skip(1));
        lemma_run_length(marks);
        assert forall|k: int| 0 <= k < run_length(marks) implies #[trigger] marks[k] by {
            if k > 0 {
                assert(marks.skip(1)[k - 1] == marks[k]);
            }
        }
    }
}

/// Every word of a text is a word, and of ASCII characters where the text is.
proof fn lemma_words_are_words(text: Seq<char>)
    ensures
        ({
            let words = words_of(text, term_marks(text));
            forall|k: int|
                0 <= k < words.len() ==> is_word(#[trigger] words[k]) && (is_ascii(text)
                    ==> is_ascii(words[k]))
        }),
    decreases text.len(),
{
    let marks = term_marks(text);
    let words = words_of(text, marks);
    if text.len() > 0 {
        if !marks[0] {
            assert(term_marks(text.skip(1)) =~= marks.skip(1));
            lemma_words_are_words(text.skip(1));
            assert(words == words_of(text.skip(1), marks.skip(1)));
            assert(is_ascii(text) ==> is_ascii(text.skip(1)));
        } else {
            lemma_run_length(marks);
            lemma_run_is_marked(marks);
            let n = run_length(marks) as int;
            assert(term_marks(text.skip(n)) =~= marks.skip(n));
            lemma_words_are_words(text.skip(n));
            let rest = words_of(text.skip(n), marks.skip(n));
            let first = text.take(n);
            assert(words == seq![first] + rest);
            assert(is_ascii(text) ==> is_ascii(first) && is_ascii(text.skip(n)));
            assert forall|i: int| 0 <= i < first.len() implies term_char(#[trigger] first[i]) by {
                assert(marks[i] == term_char(text[i]));
            }
            assert forall|k: int| 0 <= k < words.len() implies is_word(#[trigger] words[k]) && (
            is_ascii(text) ==> is_ascii(words[k])) by {
                if k > 0 {
                    assert(words[k] == rest[k - 1]);
                }
            }
        }
    }
}

/// The words of a text in lowercase are the words in lowercase.
proof fn lemma_words_lowered(text: Seq<char>, marks: Seq<bool>)
    requires
        text.len() == marks.len(),
    ensures
        words_of(ascii_lowered(text), marks) == words_of(text, marks).map_values(
            |w: Seq<char>| ascii_lowered(w),
        ),
    decreases text.len(),
{
    let lower = ascii_lowered(text);
    let each = |w: Seq<char>| ascii_lowered(w);
    if text.len() > 0 {
        if !marks[0] {
            assert(ascii_lowered(text.skip(1)) =~= lower.skip(1));
            lemma_words_lowered(text.skip(1), marks.skip(1));
        } else {
            lemma_run_length(marks);
            let n = run_length(marks) as int;
            assert(ascii_lowered(text.skip(n)) =~= lower.skip(n));
            assert(ascii_lowered(text.take(n)) =~= lower.take(n));
            lemma_words_lowered(text.skip(n), marks.skip(n));
            let rest = words_of(text.skip(n), marks.skip(n));
            assert((seq![text.take(n)] + rest).map_values(each) =~= seq![lower.take(n)]
                + rest.map_values(each));
        }
    } else {
        assert(words_of(text, marks).map_values(each) =~= Seq::empty());
    }
}

/// The words of four characters or more, each once, where it comes first.
pub open spec fn long_words(words: Seq<Seq<char>>) -> Seq<Seq<char>>
    decreases words.len(),
{
    if words.len() == 0 {
        Seq::empty()
    } else {
        let earlier = long_words(words.drop_last());
        if words.last().len() < 4 || earlier.contains(words.last()) {
            earlier
        } else {
            earlier.push(words.last())
        }
    }
}

proof fn lemma_terms_after_last(terms: Seq<Seq<char>>, words: Seq<Seq<char>>)
    requires
        words.len() > 0,
    ensures
        terms_after(terms, words) == admitted(
            terms_after(terms, words.drop_last()),
            term_of(words.last()),
        ),
    decreases words.len(),
{
    if words.len() > 1 {
        lemma_terms_after_last(admitted(terms, term_of(words[0])), words.skip(1));
        assert(words.skip(1).drop_last() =~= words.drop_last().skip(1));
    } else {
        reveal_with_fuel(terms_after, 2);
        assert(words.drop_last() =~= Seq::empty());
    }
}

/// A word loses nothing when it becomes a term, and its letters are put in lowercase.
proof fn lemma_term_of_word(word: Seq<char>)
    requires
        is_word(word),
        is_ascii(word),
    ensures
        term_of(word) == ascii_lowered(word),
        byte_length(term_of(word)) == word.len(),
{
    lemma_drops(word, |c: char| !term_char(c));
    lemma_ascii_lowered(word);
    lemma_ascii_bytes(ascii_lowered(word));
}

proof fn lemma_terms_of_words(words: Seq<Seq<char>>)
    requires
        forall|k: int|
            0 <= k < words.len() ==> is_word(#[trigger] words[k]) && is_ascii(words[k]),
    ensures
        terms_after(Seq::empty(), words) == long_words(
            words.map_values(|w: Seq<char>| ascii_lowered(w)),
        ),
    decreases words.len(),
{
    let each = |w: Seq<char>| ascii_lowered(w);
    if words.len() > 0 {
        lemma_terms_after_last(Seq::empty(), words);
        assert(is_word(words[words.len() - 1]));
        lemma_term_of_word(words.last());
        lemma_terms_of_words(words.drop_last());
        assert(words.map_values(each).drop_last() =~= words.drop_last().map_values(each));
    }
}

proof fn lemma_marks_lowered(text: Seq<char>)
    requires
        is_ascii(text),
    ensures
        term_marks(ascii_lowered(text)) == term_marks(text),
{
    let lower = ascii_lowered(text);
    assert forall|i: int| 0 <= i < text.len() implies term_char(#[trigger] lower[i]) == term_char(
        text[i],
    ) by {
        assert(text[i] <= '\u{7f}');
        assert(lower[i] == ascii_lower(text[i]));
    }
    assert(term_marks(lower) =~= term_marks(text));
}

/// The terms of an ASCII query are the longest runs of letters, digits, `_`, `-`, `.` and `/` in
/// the query in lowercase: those of four characters or more, each once, where it comes first.
pub proof fn terms_of_an_ascii_query(query: Seq<char>)
    requires
        is_ascii(query),
    ensures
        terms_in(query) == long_words(
            words_of(ascii_lowered(query), term_marks(ascii_lowered(query))),
        ),
{
    lemma_words_are_words(query);
    lemma_terms_of_words(words_of(query, term_marks(query)));
    lemma_words_lowered(query, term_marks(query));
    lemma_marks_lowered(query);
}

/// ASCII queries that differ in case alone have the same terms.
pub proof fn case_does_not_count(query: Seq<char>, other: Seq<char>)
    requires
        is_ascii(query),
        is_ascii(other),
        ascii_lowered(query) == ascii_lowered(other),
    ensures
        terms_in(query) == terms_in(other),
{
    terms_of_an_ascii_query(query);
    terms_of_an_ascii_query(other);
}

proof fn lemma_joined_first(parts: Seq<Seq<char>>, separator: Seq<char>)
    requires
        parts.len() > 1,
    ensures
        joined(parts, separator) == parts[0] + separator + joined(parts.skip(1), separator),
    decreases parts.len(),
{
    reveal_with_fuel(joined, 2);
    if parts.len() > 2 {
        let front = parts.drop_last();
        lemma_joined_first(front, separator);
        assert(front.skip(1) =~= parts.skip(1).drop_last());
        assert(joined(parts, separator) =~= parts[0] + separator + joined(
            parts.skip(1),
            separator,
        ));
    } else {
        assert(parts.drop_last() =~= seq![parts[0]]);
        assert(parts.skip(1) =~= seq![parts[1]]);
    }
}

/// A word and what follows it after a space are its first word and the words of the rest.
proof fn lemma_word_then(word: Seq<char>, rest: Seq<char>)
    requires
        is_word(word),
    ensures
        ({
            let text = word + " "@ + rest;
            words_of(text, term_marks(text)) == seq![word] + words_of(rest, term_marks(rest))
        }),
        words_of(word, term_marks(word)) == seq![word],
{
    reveal_strlit(" ");
    let text = word + " "@ + rest;
    let marks = term_marks(text);
    let n = word.len() as int;
    assert forall|k: int| 0 <= k < n implies marks[k] by {
        assert(text[k] == word[k]);
    }
    assert(text[n] == ' ');
    lemma_run_length_is(marks, n);
    assert(marks[0]);
    assert(text.take(n) =~= word);
    assert(text.skip(n).skip(1) =~= rest);
    assert(marks.skip(n).skip(1) =~= term_marks(rest));
    assert(!marks.skip(n)[0]);
    assert(words_of(text.skip(n), marks.skip(n)) == words_of(rest, term_marks(rest)));
    let own = term_marks(word);
    assert forall|k: int| 0 <= k < n implies own[k] by {
        assert(term_char(word[k]));
    }
    lemma_run_length_is(own, n);
    assert(own[0]);
    assert(word.take(n) =~= word);
    assert(words_of(word.skip(n), own.skip(n)) =~= Seq::empty());
    assert(words_of(word, own) =~= seq![word]);
}

proof fn lemma_words_joined(words: Seq<Seq<char>>)
    requires
        forall|k: int| 0 <= k < words.len() ==> is_word(#[trigger] words[k]),
    ensures
        words_of(joined(words, " "@), term_marks(joined(words, " "@))) == words,
    decreases words.len(),
{
    if words.len() == 0 {
        assert(words_of(joined(words, " "@), term_marks(joined(words, " "@))) =~= words);
    } else {
        assert(is_word(words[0]));
        if words.len() == 1 {
            lemma_word_then(words[0], Seq::empty());
            assert(seq![words[0]] =~= words);
        } else {
            let rest = words.skip(1);
            assert forall|k: int| 0 <= k < rest.len() implies is_word(#[trigger] rest[k]) by {
                assert(rest[k] == words[k + 1]);
            }
            lemma_joined_first(words, " "@);
            lemma_words_joined(rest);
            lemma_word_then(words[0], joined(rest, " "@));
            assert(seq![words[0]] + rest =~= words);
        }
    }
}

/// Words of four characters or more that are all different are kept as they are.
proof fn lemma_long_words_stay(words: Seq<Seq<char>>)
    requires
        words.no_duplicates(),
        forall|k: int| 0 <= k < words.len() ==> (#[trigger] words[k]).len() >= 4,
    ensures
        long_words(words) == words,
    decreases words.len(),
{
    if words.len() > 0 {
        let earlier = words.drop_last();
        lemma_long_words_stay(earlier);
        assert(words[words.len() - 1].len() >= 4);
        assert(!earlier.contains(words.last())) by {
            assert forall|k: int| 0 <= k < earlier.len() implies earlier[k] != words.last() by {
                assert(words[k] != words[words.len() - 1]);
            }
        }
        assert(earlier.push(words.last()) =~= words);
    }
}

proof fn lemma_long_words(words: Seq<Seq<char>>)
    ensures
        long_words(words).no_duplicates(),
        forall|k: int|
            0 <= k < long_words(words).len() ==> words.contains(#[trigger] long_words(words)[k])
                && long_words(words)[k].len() >= 4,
    decreases words.len(),
{
    if words.len() > 0 {
        let front = words.drop_last();
        lemma_long_words(front);
        let kept = long_words(words);
        let earlier = long_words(front);
        assert forall|k: int| 0 <= k < kept.len() implies words.contains(#[trigger] kept[k])
            && kept[k].len() >= 4 by {
            if k < earlier.len() {
                assert(kept[k] == earlier[k]);
                let j = front.index_of(earlier[k]);
                assert(words[j] == kept[k]);
            } else {
                assert(words[words.len() - 1] == kept[k]);
            }
        }
    }
}

/// The terms of an ASCII query, put one after the other with spaces between, are a query with
/// the same terms.
pub proof fn terms_are_their_own_terms(query: Seq<char>)
    requires
        is_ascii(query),
    ensures
        terms_in(joined(terms_in(query), " "@)) == terms_in(query),
{
    let lower = ascii_lowered(query);
    let words = words_of(lower, term_marks(lower));
    let terms = terms_in(query);
    terms_of_an_ascii_query(query);
    lemma_ascii_lowered(query);
    lemma_words_are_words(lower);
    lemma_words_lowered(lower, term_marks(lower));
    lemma_long_words(words);
    assert forall|k: int| 0 <= k < terms.len() implies is_word(#[trigger] terms[k]) && is_ascii(
        terms[k],
    ) && ascii_lowered(terms[k]) == terms[k] by {
        let j = words.index_of(terms[k]);
        assert(words[j] == terms[k]);
        assert(words.map_values(|w: Seq<char>| ascii_lowered(w))[j] == words[j]);
    }
    lemma_words_joined(terms);
    lemma_terms_of_words(terms);
    assert(terms.map_values(|w: Seq<char>| ascii_lowered(w)) =~= terms);
    lemma_long_words_stay(terms);
}

proof fn lemma_unmarked_words(text: Seq<char>, marks: Seq<bool>)
    requires
        forall|k: int| 0 <= k < marks.len() ==> !#[trigger] marks[k],
    ensures
        words_of(text, marks).len() == 0,
    decreases marks.len(),
{
    if marks.len() > 0 {
        lemma_unmarked_words(text.skip(1), marks.skip(1));
    }
}

/// A blank query has no terms.
pub proof fn blank_queries_have_no_terms(query: Seq<char>)
    requires
        trimmed(query).len() == 0,
    ensures
        terms_in(query).len() == 0,
{
    lemma_drops(query, |c: char| white_space(c));
    let marks = term_marks(query);
    assert forall|k: int| 0 <= k < marks.len() implies !#[trigger] marks[k] by {
        assert(white_space(query[k]));
    }
    lemma_unmarked_words(query, marks);
}

// ---------------------------------------------------------------------------
// What a term looks like
// ---------------------------------------------------------------------------

/// Whether a term looks like code: a name with an underscore or a hyphen, or a path.
pub open spec fn codeish(term: Seq<char>) -> bool {
    term.contains('_') || term.contains('/') || term.contains('.') || term.contains('-')
}

/// Whether a term looks like code: a name with an underscore or a hyphen, or a path.
pub fn is_codeish_term(term: &str) -> (answer: bool)
    ensures
        answer == codeish(term@),
{
    contains_char(term, '_') || contains_char(term, '/') || contains_char(term, '.')
        || contains_char(term, '-')
}

/// Whether a term looks like the name of a symbol.
pub open spec fn symbol_like(term: Seq<char>) -> bool {
    term.contains('_') && !term.contains('/') && !term.contains('.')
}

/// Whether a term looks like the name of a symbol.
pub fn is_symbol_like_term(term: &str) -> (answer: bool)
    ensures
        answer == symbol_like(term@),
{
    contains_char(term, '_') && !contains_char(term, '/') && !contains_char(term, '.')
}

} // verus!
