//! Which terms a query has, and which searches a plan makes for them.

use vstd::prelude::*;

use crate::laws::names::profile_names;
use crate::seqs::{lemma_filter_has, lemma_filter_keeps, lemma_same_filter};
use crate::steps::{
    bug_lines, bug_symbols, definition_lines, definition_symbols, focused_terms, impact_lines,
    impact_symbols, ordered_terms, searched, step_by, steps_for, whole_query, with_step, with_steps,
    PlanSearchKind, StepRule, StepView,
};
use crate::terms::{
    admitted, codeish, lemma_run_is_marked, lemma_run_length, lemma_run_length_is, run_length,
    symbol_like, term_char, term_marks, term_of, terms_after, terms_are_distinct, terms_in,
    words_of,
};
use crate::text::{byte_length, lemma_drops, lowercase, trimmed};

verus! {

// ---------------------------------------------------------------------------
// Terms
// ---------------------------------------------------------------------------

/// Whether a word stands between a front and a back: it is made of characters that a term can
/// have, and neither the front nor the back goes on with one.
pub open spec fn is_word_between(front: Seq<char>, word: Seq<char>, back: Seq<char>) -> bool {
    &&& word.len() > 0
    &&& forall|i: int| 0 <= i < word.len() ==> term_char(#[trigger] word[i])
    &&& front.len() == 0 || !term_char(front.last())
    &&& back.len() == 0 || !term_char(back[0])
}

proof fn lemma_word_is_among(front: Seq<char>, word: Seq<char>, back: Seq<char>) -> (k: int)
    requires
        is_word_between(front, word, back),
    ensures
        ({
            let text = front + word + back;
            let words = words_of(text, term_marks(text));
            0 <= k < words.len() && words[k] == word
        }),
    decreases front.len(),
{
    let text = front + word + back;
    let marks = term_marks(text);
    if front.len() == 0 {
        let n = word.len() as int;
        assert(text =~= word + back);
        assert forall|i: int| 0 <= i < n implies marks[i] by {
            assert(term_char(word[i]));
            assert(text[i] == word[i]);
        }
        if n < marks.len() {
            assert(text[n] == back[0]);
        }
        lemma_run_length_is(marks, n);
        assert(marks[0]);
        assert(text.take(n) =~= word);
        0
    } else if !term_char(front[0]) {
        assert(text.skip(1) =~= front.skip(1) + word + back);
        assert(marks.skip(1) =~= term_marks(text.skip(1)));
        assert(!marks[0]);
        lemma_word_is_among(front.skip(1), word, back)
    } else {
        assert(marks[0]);
        lemma_run_length(marks);
        lemma_run_is_marked(marks);
        let n = run_length(marks) as int;
        assert(n < front.len()) by {
            assert(text[front.len() - 1] == front.last());
            if n >= front.len() {
                assert(marks[front.len() - 1]);
            }
        }
        assert(text.skip(n) =~= front.skip(n) + word + back);
        assert(marks.skip(n) =~= term_marks(text.skip(n)));
        lemma_word_is_among(front.skip(n), word, back) + 1
    }
}

proof fn lemma_word_stands_between(text: Seq<char>, k: int) -> (parts: (Seq<char>, Seq<char>))
    requires
        0 <= k < words_of(text, term_marks(text)).len(),
    ensures
        ({
            let word = words_of(text, term_marks(text))[k];
            text == parts.0 + word + parts.1 && is_word_between(parts.0, word, parts.1)
        }),
    decreases text.len(),
{
    let marks = term_marks(text);
    if !marks[0] {
        assert(marks.skip(1) =~= term_marks(text.skip(1)));
        let (front, back) = lemma_word_stands_between(text.skip(1), k);
        let longer = seq![text[0]] + front;
        assert(text =~= seq![text[0]] + text.skip(1));
        assert(text =~= longer + words_of(text, marks)[k] + back);
        (longer, back)
    } else {
        lemma_run_length(marks);
        lemma_run_is_marked(marks);
        let n = run_length(marks) as int;
        let word = text.take(n);
        let rest = text.skip(n);
        assert(marks.skip(n) =~= term_marks(rest));
        lemma_run_ends(marks);
        if k == 0 {
            assert forall|i: int| 0 <= i < word.len() implies term_char(#[trigger] word[i]) by {
                assert(marks[i]);
            }
            assert(rest.len() > 0 ==> rest[0] == text[n]);
            assert(text =~= Seq::<char>::empty() + word + rest);
            (Seq::empty(), rest)
        } else {
            let (front, back) = lemma_word_stands_between(rest, k - 1);
            let longer = word + front;
            assert(text =~= word + rest);
            let found = words_of(text, marks)[k];
            assert(found == words_of(rest, term_marks(rest))[k - 1]);
            assert(text =~= longer + found + back);
            assert(longer.len() > 0 && !term_char(longer.last())) by {
                if front.len() == 0 {
                    assert(rest[0] == found[0]);
                    assert(rest[0] == text[n]);
                    assert(!marks[n]);
                } else {
                    assert(longer.last() == front.last());
                }
            }
            (longer, back)
        }
    }
}

proof fn lemma_run_ends(marks: Seq<bool>)
    ensures
        run_length(marks) < marks.len() ==> !marks[run_length(marks) as int],
    decreases marks.len(),
{
    if marks.len() > 0 && marks[0] {
        lemma_run_ends(marks.skip(1));
    }
}

proof fn lemma_terms_stay(terms: Seq<Seq<char>>, words: Seq<Seq<char>>, term: Seq<char>)
    requires
        terms.contains(term),
    ensures
        terms_after(terms, words).contains(term),
    decreases words.len(),
{
    if words.len() > 0 {
        let next = admitted(terms, term_of(words[0]));
        let i = terms.index_of(term);
        assert(next[i] == term);
        lemma_terms_stay(next, words.skip(1), term);
    }
}

proof fn lemma_word_is_admitted(terms: Seq<Seq<char>>, words: Seq<Seq<char>>, k: int)
    requires
        0 <= k < words.len(),
        byte_length(term_of(words[k])) >= 4,
    ensures
        terms_after(terms, words).contains(term_of(words[k])),
    decreases words.len(),
{
    let next = admitted(terms, term_of(words[0]));
    if k == 0 {
        assert(next.contains(term_of(words[0]))) by {
            if !terms.contains(term_of(words[0])) {
                assert(next[terms.len() as int] == term_of(words[0]));
            }
        }
        lemma_terms_stay(next, words.skip(1), term_of(words[0]));
    } else {
        lemma_word_is_admitted(next, words.skip(1), k - 1);
    }
}

proof fn lemma_term_is_of_word(terms: Seq<Seq<char>>, words: Seq<Seq<char>>, j: int) -> (k: int)
    requires
        terms.len() <= j < terms_after(terms, words).len(),
    ensures
        0 <= k < words.len(),
        terms_after(terms, words)[j] == term_of(words[k]),
    decreases words.len(),
{
    if words.len() > 0 {
        let next = admitted(terms, term_of(words[0]));
        lemma_prefix(next, words.skip(1));
        if j < next.len() {
            assert(terms_after(next, words.skip(1))[j] == next[j]);
            0
        } else {
            lemma_term_is_of_word(next, words.skip(1), j) + 1
        }
    } else {
        0
    }
}

proof fn lemma_prefix(terms: Seq<Seq<char>>, words: Seq<Seq<char>>)
    ensures
        terms.is_prefix_of(terms_after(terms, words)),
    decreases words.len(),
{
    if words.len() > 0 {
        let next = admitted(terms, term_of(words[0]));
        lemma_prefix(next, words.skip(1));
        assert(terms.is_prefix_of(next));
    }
}

proof fn lemma_word_as_term(word: Seq<char>)
    requires
        word.len() > 0,
        forall|i: int| 0 <= i < word.len() ==> term_char(#[trigger] word[i]),
    ensures
        term_of(word) == lowercase(word),
{
    assert(term_char(word[0]) && term_char(word[word.len() - 1]));
    lemma_drops(word, |c: char| !term_char(c));
}

/// Every word of a query is one of its terms, in lowercase, where that takes four bytes or
/// more.
pub proof fn every_long_word_is_a_term(front: Seq<char>, word: Seq<char>, back: Seq<char>)
    requires
        is_word_between(front, word, back),
        byte_length(lowercase(word)) >= 4,
    ensures
        terms_in(front + word + back).contains(lowercase(word)),
{
    let text = front + word + back;
    let k = lemma_word_is_among(front, word, back);
    lemma_word_as_term(word);
    lemma_word_is_admitted(Seq::empty(), words_of(text, term_marks(text)), k);
}

/// A query has no other terms: each is a word of it in lowercase that takes four bytes or more.
pub proof fn every_term_is_a_long_word(query: Seq<char>, j: int) -> (parts: (
    Seq<char>,
    Seq<char>,
    Seq<char>,
))
    requires
        0 <= j < terms_in(query).len(),
    ensures
        ({
            let (front, word, back) = parts;
            &&& query == front + word + back
            &&& is_word_between(front, word, back)
            &&& terms_in(query)[j] == lowercase(word)
            &&& byte_length(lowercase(word)) >= 4
        }),
{
    let words = words_of(query, term_marks(query));
    let k = lemma_term_is_of_word(Seq::empty(), words, j);
    let (front, back) = lemma_word_stands_between(query, k);
    lemma_word_as_term(words[k]);
    terms_are_distinct(query);
    (front, words[k], back)
}

proof fn lemma_words_of_two(first: Seq<char>, gap: char, second: Seq<char>)
    requires
        !term_char(gap),
    ensures
        ({
            let text = first + seq![gap] + second;
            words_of(text, term_marks(text)) == words_of(first, term_marks(first)) + words_of(
                second,
                term_marks(second),
            )
        }),
    decreases first.len(),
{
    let text = first + seq![gap] + second;
    let marks = term_marks(text);
    let own = term_marks(first);
    let later = words_of(second, term_marks(second));
    if first.len() == 0 {
        assert(text.skip(1) =~= second);
        assert(marks.skip(1) =~= term_marks(second));
        assert(text[0] == gap);
        assert(words_of(text, marks) =~= words_of(first, own) + later);
    } else if !term_char(first[0]) {
        assert(text.skip(1) =~= first.skip(1) + seq![gap] + second);
        assert(marks.skip(1) =~= term_marks(text.skip(1)));
        assert(own.skip(1) =~= term_marks(first.skip(1)));
        lemma_words_of_two(first.skip(1), gap, second);
    } else {
        lemma_run_length(own);
        lemma_run_is_marked(own);
        lemma_run_ends(own);
        let n = run_length(own) as int;
        assert forall|i: int| 0 <= i < n implies marks[i] by {
            assert(own[i]);
            assert(text[i] == first[i]);
        }
        assert(!marks[n]) by {
            if n < first.len() {
                assert(text[n] == first[n]);
                assert(!own[n]);
            } else {
                assert(text[n] == gap);
            }
        }
        lemma_run_length_is(marks, n);
        assert(marks[0] && own[0]);
        assert(text.take(n) =~= first.take(n));
        assert(text.skip(n) =~= first.skip(n) + seq![gap] + second);
        assert(marks.skip(n) =~= term_marks(text.skip(n)));
        assert(own.skip(n) =~= term_marks(first.skip(n)));
        lemma_words_of_two(first.skip(n), gap, second);
        assert(words_of(text, marks) =~= words_of(first, own) + later);
    }
}

proof fn lemma_terms_after_two(
    terms: Seq<Seq<char>>,
    words: Seq<Seq<char>>,
    more: Seq<Seq<char>>,
)
    ensures
        terms_after(terms, words + more) == terms_after(terms_after(terms, words), more),
    decreases words.len(),
{
    if words.len() == 0 {
        assert(words + more =~= more);
    } else {
        assert((words + more).skip(1) =~= words.skip(1) + more);
        lemma_terms_after_two(admitted(terms, term_of(words[0])), words.skip(1), more);
    }
}

/// The terms of a query come in the order of their words: what is asked for in addition adds
/// terms at the end.
pub proof fn more_words_add_terms_at_the_end(first: Seq<char>, gap: char, second: Seq<char>)
    requires
        !term_char(gap),
    ensures
        terms_in(first).is_prefix_of(terms_in(first + seq![gap] + second)),
{
    lemma_words_of_two(first, gap, second);
    lemma_terms_after_two(
        Seq::empty(),
        words_of(first, term_marks(first)),
        words_of(second, term_marks(second)),
    );
    lemma_prefix(terms_in(first), words_of(second, term_marks(second)));
}

// ---------------------------------------------------------------------------
// Searches
// ---------------------------------------------------------------------------

/// Whether a term holds an underscore, a slash, a point or a hyphen.
pub open spec fn is_code(term: Seq<char>) -> bool {
    term.contains('_') || term.contains('/') || term.contains('.') || term.contains('-')
}

/// Whether a term holds an underscore and neither a slash nor a point.
pub open spec fn is_symbol(term: Seq<char>) -> bool {
    term.contains('_') && !term.contains('/') && !term.contains('.')
}

/// The terms that a definition or its uses are looked for by: those with an underscore and
/// neither slash nor point, or else all that look like code, or else all.
pub open spec fn chosen_terms(terms: Seq<Seq<char>>) -> Seq<Seq<char>> {
    if exists|k: int| 0 <= k < terms.len() && is_symbol(#[trigger] terms[k]) {
        terms.filter(|t: Seq<char>| is_symbol(t))
    } else if exists|k: int| 0 <= k < terms.len() && is_code(#[trigger] terms[k]) {
        terms.filter(|t: Seq<char>| is_code(t))
    } else {
        terms
    }
}

/// The searches for terms, each with one confidence for what looks like code and another for
/// the rest.
pub open spec fn searches(
    terms: Seq<Seq<char>>,
    kind: PlanSearchKind,
    reason: Seq<char>,
    code: u32,
    word: u32,
) -> Seq<StepView> {
    terms.map_values(
        |t: Seq<char>|
            StepView {
                kind,
                term: t,
                reason,
                confidence: if is_code(t) {
                    code
                } else {
                    word
                },
            },
    )
}

proof fn lemma_filters_agree(terms: Seq<Seq<char>>)
    ensures
        terms.filter(|t: Seq<char>| codeish(t)) == terms.filter(|t: Seq<char>| is_code(t)),
        terms.filter(|t: Seq<char>| !codeish(t)) == terms.filter(|t: Seq<char>| !is_code(t)),
        terms.filter(|t: Seq<char>| codeish(t)).filter(|t: Seq<char>| symbol_like(t))
            == terms.filter(|t: Seq<char>| is_symbol(t)),
    decreases terms.len(),
{
    reveal(Seq::filter);
    if terms.len() > 0 {
        let front = terms.drop_last();
        lemma_filters_agree(front);
        let code = |t: Seq<char>| codeish(t);
        if codeish(terms.last()) {
            let kept = front.filter(code);
            assert(terms.filter(code) == kept.push(terms.last()));
            assert(kept.push(terms.last()).drop_last() =~= kept);
        }
    }
}

proof fn lemma_filter_is_empty<T>(items: Seq<T>, keep: spec_fn(T) -> bool)
    ensures
        items.filter(keep).len() > 0 <==> exists|k: int|
            0 <= k < items.len() && keep(#[trigger] items[k]),
        (forall|k: int| 0 <= k < items.len() ==> keep(#[trigger] items[k])) ==> items.filter(keep)
            == items,
    decreases items.len(),
{
    reveal(Seq::filter);
    if items.len() > 0 {
        let front = items.drop_last();
        lemma_filter_is_empty(front, keep);
        if exists|k: int| 0 <= k < items.len() && keep(#[trigger] items[k]) {
            let k = choose|k: int| 0 <= k < items.len() && keep(#[trigger] items[k]);
            lemma_filter_has(items, keep, k);
        }
        if items.filter(keep).len() > 0 {
            lemma_filter_keeps(items, keep);
            let x = items.filter(keep)[0];
            assert(keep(x) && items.contains(x));
        }
        if forall|k: int| 0 <= k < items.len() ==> keep(#[trigger] items[k]) {
            assert forall|k: int| 0 <= k < front.len() implies keep(#[trigger] front[k]) by {
                assert(front[k] == items[k]);
            }
            assert(keep(items[items.len() - 1]));
            assert(front.push(items.last()) =~= items);
        }
    }
}

proof fn lemma_focused_is_chosen(terms: Seq<Seq<char>>)
    ensures
        focused_terms(terms) == chosen_terms(terms),
        ordered_terms(terms) == terms.filter(|t: Seq<char>| is_code(t)) + terms.filter(
            |t: Seq<char>| !is_code(t),
        ),
{
    let symbol = |t: Seq<char>| is_symbol(t);
    let code = |t: Seq<char>| is_code(t);
    let word = |t: Seq<char>| !is_code(t);
    lemma_filters_agree(terms);
    lemma_filter_is_empty(terms, symbol);
    lemma_filter_is_empty(terms, code);
    lemma_filter_is_empty(terms, word);
    if terms.filter(symbol).len() > 0 {
        let k = choose|k: int| 0 <= k < terms.len() && symbol(#[trigger] terms[k]);
        assert(is_symbol(terms[k]));
    }
    if exists|k: int| 0 <= k < terms.len() && is_symbol(#[trigger] terms[k]) {
        let k = choose|k: int| 0 <= k < terms.len() && is_symbol(#[trigger] terms[k]);
        assert(symbol(terms[k]));
    }
    if terms.filter(code).len() > 0 {
        let k = choose|k: int| 0 <= k < terms.len() && code(#[trigger] terms[k]);
        assert(is_code(terms[k]));
    }
    if exists|k: int| 0 <= k < terms.len() && is_code(#[trigger] terms[k]) {
        let k = choose|k: int| 0 <= k < terms.len() && is_code(#[trigger] terms[k]);
        assert(code(terms[k]));
    } else {
        assert forall|k: int| 0 <= k < terms.len() implies word(#[trigger] terms[k]) by {
            assert(!is_code(terms[k]));
        }
    }
}

proof fn lemma_filter_is_distinct(terms: Seq<Seq<char>>, keep: spec_fn(Seq<char>) -> bool)
    requires
        terms.no_duplicates(),
    ensures
        terms.filter(keep).no_duplicates(),
    decreases terms.len(),
{
    reveal(Seq::filter);
    if terms.len() > 0 {
        let front = terms.drop_last();
        lemma_filter_is_distinct(front, keep);
        lemma_filter_keeps(front, keep);
        let kept = front.filter(keep);
        let all = terms.filter(keep);
        assert forall|i: int, j: int| 0 <= i < all.len() && 0 <= j < all.len() && i != j implies all[i]
            != all[j] by {
            if keep(terms.last()) {
                if i < kept.len() && j == kept.len() {
                    assert(front.contains(kept[i]));
                    assert(terms[front.index_of(kept[i])] != terms[terms.len() - 1]);
                }
                if j < kept.len() && i == kept.len() {
                    assert(front.contains(kept[j]));
                    assert(terms[front.index_of(kept[j])] != terms[terms.len() - 1]);
                }
            }
        }
    }
}

/// Whether terms are all different and none is empty.
spec fn are_terms(terms: Seq<Seq<char>>) -> bool {
    terms.no_duplicates() && forall|k: int|
        0 <= k < terms.len() ==> (#[trigger] terms[k]).len() > 0
}

proof fn lemma_chosen_are_terms(query: Seq<char>)
    ensures
        are_terms(chosen_terms(terms_in(query))),
        are_terms(ordered_terms(terms_in(query))),
        terms_in(query).len() > 0 <==> chosen_terms(terms_in(query)).len() > 0,
{
    let terms = terms_in(query);
    let symbol = |t: Seq<char>| is_symbol(t);
    let code = |t: Seq<char>| is_code(t);
    let word = |t: Seq<char>| !is_code(t);
    terms_are_distinct(query);
    assert forall|k: int| 0 <= k < terms.len() implies (#[trigger] terms[k]).len() > 0 by {
        assert(byte_length(terms[k]) >= 4);
    }
    lemma_filter_is_distinct(terms, symbol);
    lemma_filter_is_distinct(terms, code);
    lemma_filter_is_distinct(terms, word);
    lemma_filter_keeps(terms, symbol);
    lemma_filter_keeps(terms, code);
    lemma_filter_keeps(terms, word);
    lemma_filter_is_empty(terms, symbol);
    lemma_filter_is_empty(terms, code);
    if exists|k: int| 0 <= k < terms.len() && is_symbol(#[trigger] terms[k]) {
        let k = choose|k: int| 0 <= k < terms.len() && is_symbol(#[trigger] terms[k]);
        assert(symbol(terms[k]));
    }
    if exists|k: int| 0 <= k < terms.len() && is_code(#[trigger] terms[k]) {
        let k = choose|k: int| 0 <= k < terms.len() && is_code(#[trigger] terms[k]);
        assert(code(terms[k]));
    }
    lemma_focused_is_chosen(terms);
    let (a, b) = (terms.filter(code), terms.filter(word));
    let all = ordered_terms(terms);
    assert(all == a + b);
    assert forall|i: int, j: int| 0 <= i < all.len() && 0 <= j < all.len() && i != j implies all[i]
        != all[j] by {
        if i < a.len() && j >= a.len() {
            assert(code(a[i]) && word(b[j - a.len()]));
        } else if j < a.len() && i >= a.len() {
            assert(code(a[j]) && word(b[i - a.len()]));
        }
    }
    assert forall|k: int| 0 <= k < all.len() implies (#[trigger] all[k]).len() > 0 by {
        if k < a.len() {
            assert(terms.contains(a[k]));
        } else {
            assert(terms.contains(b[k - a.len()]));
        }
    }
    let chosen = chosen_terms(terms);
    assert forall|k: int| 0 <= k < chosen.len() implies (#[trigger] chosen[k]).len() > 0 by {
        assert(terms.contains(chosen[k]));
    }
}

proof fn lemma_steps_last(steps: Seq<StepView>, terms: Seq<Seq<char>>, rule: StepRule)
    requires
        terms.len() > 0,
    ensures
        with_steps(steps, terms, rule) == with_step(
            with_steps(steps, terms.drop_last(), rule),
            step_by(rule, terms.last()),
        ),
    decreases terms.len(),
{
    reveal_with_fuel(with_steps, 2);
    if terms.len() > 1 {
        let next = with_step(steps, step_by(rule, terms[0]));
        lemma_steps_last(next, terms.skip(1), rule);
        assert(terms.skip(1).drop_last() =~= terms.drop_last().skip(1));
    } else {
        assert(terms.drop_last() =~= Seq::empty());
        assert(terms.skip(1) =~= Seq::empty());
    }
}

/// Searches for terms are added for all of them but those that are made already.
proof fn lemma_steps_are_added(steps: Seq<StepView>, terms: Seq<Seq<char>>, rule: StepRule)
    requires
        are_terms(terms),
    ensures
        with_steps(steps, terms, rule) == steps + searches(
            terms.filter(|t: Seq<char>| !searched(steps, rule.kind, t)),
            rule.kind,
            rule.reason@,
            rule.code_confidence,
            rule.word_confidence,
        ),
    decreases terms.len(),
{
    reveal(Seq::filter);
    let fresh = |t: Seq<char>| !searched(steps, rule.kind, t);
    if terms.len() == 0 {
        assert(steps + searches(
            terms.filter(fresh),
            rule.kind,
            rule.reason@,
            rule.code_confidence,
            rule.word_confidence,
        ) =~= steps);
    } else {
        let front = terms.drop_last();
        let last = terms.last();
        assert(are_terms(front)) by {
            assert forall|k: int| 0 <= k < front.len() implies (#[trigger] front[k]).len() > 0 by {
                assert(front[k] == terms[k]);
            }
        }
        lemma_steps_are_added(steps, front, rule);
        lemma_steps_last(steps, terms, rule);
        let kept = front.filter(fresh);
        let made = searches(
            kept,
            rule.kind,
            rule.reason@,
            rule.code_confidence,
            rule.word_confidence,
        );
        let before = steps + made;
        lemma_filter_keeps(front, fresh);
        assert(searched(before, rule.kind, last) <==> searched(steps, rule.kind, last)) by {
            if searched(steps, rule.kind, last) {
                let k = choose|k: int|
                    0 <= k < steps.len() && #[trigger] steps[k].kind == rule.kind && steps[k].term
                        == last;
                assert(before[k].kind == rule.kind && before[k].term == last);
            }
            if searched(before, rule.kind, last) {
                let k = choose|k: int|
                    0 <= k < before.len() && #[trigger] before[k].kind == rule.kind && before[k].term
                        == last;
                if k >= steps.len() {
                    let t = kept[k - steps.len()];
                    assert(before[k].term == t);
                    assert(front.contains(t));
                    let j = front.index_of(t);
                    assert(terms[j] != terms[terms.len() - 1]);
                } else {
                    assert(steps[k].kind == rule.kind && steps[k].term == last);
                }
            }
        }
        assert(terms[terms.len() - 1].len() > 0);
        let all = terms.filter(fresh);
        if fresh(last) {
            assert(all == kept.push(last));
            assert(searches(
                all,
                rule.kind,
                rule.reason@,
                rule.code_confidence,
                rule.word_confidence,
            ) =~= made.push(step_by(rule, last)));
            assert(before.push(step_by(rule, last)) =~= steps + made.push(step_by(rule, last)));
        } else {
            assert(all == kept);
        }
    }
}

proof fn lemma_two_kinds(
    terms: Seq<Seq<char>>,
    first: StepRule,
    second: StepRule,
)
    requires
        are_terms(terms),
        first.kind != second.kind,
    ensures
        with_steps(with_steps(Seq::empty(), terms, first), terms, second) == searches(
            terms,
            first.kind,
            first.reason@,
            first.code_confidence,
            first.word_confidence,
        ) + searches(
            terms,
            second.kind,
            second.reason@,
            second.code_confidence,
            second.word_confidence,
        ),
{
    let none = Seq::<StepView>::empty();
    lemma_steps_are_added(none, terms, first);
    lemma_filter_is_empty(terms, |t: Seq<char>| !searched(none, first.kind, t));
    let made = searches(
        terms,
        first.kind,
        first.reason@,
        first.code_confidence,
        first.word_confidence,
    );
    assert(none + made =~= made);
    assert(with_steps(none, terms, first) == made);
    lemma_steps_are_added(made, terms, second);
    assert forall|t: Seq<char>| !#[trigger] searched(made, second.kind, t) by {
        if searched(made, second.kind, t) {
            let k = choose|k: int|
                0 <= k < made.len() && #[trigger] made[k].kind == second.kind && made[k].term == t;
            assert(made[k].kind == first.kind);
        }
    }
    lemma_filter_is_empty(terms, |t: Seq<char>| !searched(made, second.kind, t));
}

/// Where a definition is wanted, every chosen term is searched for as a symbol and then as a
/// line, in the order of the terms; without terms the query itself is searched for.
pub proof fn definitions_are_searched_by_every_term(query: Seq<char>)
    ensures
        ({
            let steps = steps_for("find_definition"@, query);
            let chosen = chosen_terms(terms_in(query));
            &&& terms_in(query).len() > 0 ==> steps == searches(
                chosen,
                PlanSearchKind::Graph,
                "profile symbol match"@,
                95,
                80,
            ) + searches(
                chosen,
                PlanSearchKind::Code,
                "profile lexical definition match"@,
                72,
                60,
            )
            &&& terms_in(query).len() == 0 && trimmed(query).len() > 0 ==> steps == seq![
                StepView {
                    kind: PlanSearchKind::Code,
                    term: trimmed(query),
                    reason: "fallback lexical match"@,
                    confidence: 50,
                },
            ]
        }),
{
    profile_names();
    let terms = terms_in(query);
    lemma_focused_is_chosen(terms);
    lemma_chosen_are_terms(query);
    lemma_two_kinds(chosen_terms(terms), definition_symbols(), definition_lines());
    if terms.len() == 0 {
        lemma_fallback(query, definition_symbols(), definition_lines());
        assert(chosen_terms(terms) =~= Seq::empty());
    }
}

proof fn lemma_fallback(query: Seq<char>, first: StepRule, second: StepRule)
    ensures
        with_steps(
            with_steps(Seq::empty(), Seq::empty(), first),
            Seq::empty(),
            second,
        ).len() == 0,
        trimmed(query).len() > 0 ==> with_step(
            Seq::empty(),
            whole_query(trimmed(query), "fallback lexical match"@, 50),
        ) == seq![whole_query(trimmed(query), "fallback lexical match"@, 50)],
{
    let none = Seq::<StepView>::empty();
    assert(!searched(none, PlanSearchKind::Code, trimmed(query)));
    assert(none.push(whole_query(trimmed(query), "fallback lexical match"@, 50)) =~= seq![
        whole_query(trimmed(query), "fallback lexical match"@, 50),
    ]);
}

/// Where the reach of a change is wanted, every chosen term is searched for as a line and then
/// as a symbol, in the order of the terms; without terms the query itself is searched for.
pub proof fn impacts_are_searched_by_every_term(query: Seq<char>)
    ensures
        ({
            let steps = steps_for("trace_impact"@, query);
            let chosen = chosen_terms(terms_in(query));
            &&& terms_in(query).len() > 0 ==> steps == searches(
                chosen,
                PlanSearchKind::Code,
                "impact callsite match"@,
                90,
                70,
            ) + searches(chosen, PlanSearchKind::Graph, "impact symbol seed"@, 78, 64)
            &&& terms_in(query).len() == 0 && trimmed(query).len() > 0 ==> steps == seq![
                StepView {
                    kind: PlanSearchKind::Code,
                    term: trimmed(query),
                    reason: "fallback lexical match"@,
                    confidence: 50,
                },
            ]
        }),
{
    profile_names();
    let terms = terms_in(query);
    lemma_focused_is_chosen(terms);
    lemma_chosen_are_terms(query);
    lemma_two_kinds(chosen_terms(terms), impact_lines(), impact_symbols());
    if terms.len() == 0 {
        lemma_fallback(query, impact_lines(), impact_symbols());
        assert(chosen_terms(terms) =~= Seq::empty());
    }
}

/// Where a bug is investigated, or something else is wanted, the query itself is searched for in
/// lines, then every term in lines, those that look like code first, but for one that is the
/// whole query, and then every term among the symbols.
pub proof fn bugs_are_searched_by_the_query_and_every_term(profile: Seq<char>, query: Seq<char>)
    requires
        profile != "find_definition"@,
        profile != "trace_impact"@,
        trimmed(query).len() > 0,
    ensures
        ({
            let terms = terms_in(query);
            let ordered = terms.filter(|t: Seq<char>| is_code(t)) + terms.filter(
                |t: Seq<char>| !is_code(t),
            );
            steps_for(profile, query) == seq![
                StepView {
                    kind: PlanSearchKind::Code,
                    term: trimmed(query),
                    reason: "bug investigation lexical query match"@,
                    confidence: 70,
                },
            ] + searches(
                ordered.filter(|t: Seq<char>| t != trimmed(query)),
                PlanSearchKind::Code,
                "bug investigation lexical token match"@,
                82,
                68,
            ) + searches(
                ordered,
                PlanSearchKind::Graph,
                "bug investigation symbol match"@,
                66,
                58,
            )
        }),
{
    let terms = terms_in(query);
    let ordered = ordered_terms(terms);
    let whole = whole_query(trimmed(query), "bug investigation lexical query match"@, 70);
    let none = Seq::<StepView>::empty();
    lemma_focused_is_chosen(terms);
    lemma_chosen_are_terms(query);
    assert(!searched(none, PlanSearchKind::Code, trimmed(query)));
    let first = with_step(none, whole);
    assert(first =~= seq![whole]);
    lemma_steps_are_added(first, ordered, bug_lines());
    let by_search = |t: Seq<char>| !searched(first, PlanSearchKind::Code, t);
    let by_text = |t: Seq<char>| t != trimmed(query);
    assert forall|t: Seq<char>| #[trigger] searched(first, PlanSearchKind::Code, t) <==> t
        == trimmed(query) by {
        if t == trimmed(query) {
            assert(first[0].kind == PlanSearchKind::Code && first[0].term == t);
        }
    }
    lemma_same_filter(ordered, by_search, by_text);
    let second = first + searches(
        ordered.filter(by_text),
        PlanSearchKind::Code,
        "bug investigation lexical token match"@,
        82,
        68,
    );
    assert(with_steps(first, ordered, bug_lines()) == second);
    lemma_steps_are_added(second, ordered, bug_symbols());
    assert forall|t: Seq<char>| !#[trigger] searched(second, PlanSearchKind::Graph, t) by {
        if searched(second, PlanSearchKind::Graph, t) {
            let k = choose|k: int|
                0 <= k < second.len() && #[trigger] second[k].kind == PlanSearchKind::Graph
                    && second[k].term == t;
            assert(second[k].kind == PlanSearchKind::Code);
        }
    }
    lemma_filter_is_empty(ordered, |t: Seq<char>| !searched(second, PlanSearchKind::Graph, t));
}

/// Where no term of a query looks like code, a plan for a definition or for the reach of a change
/// searches for every one of them, as a symbol and as a line.
pub proof fn plain_words_are_all_searched_for(profile: Seq<char>, query: Seq<char>, j: int)
    requires
        profile == "find_definition"@ || profile == "trace_impact"@,
        forall|k: int| 0 <= k < terms_in(query).len() ==> !is_code(#[trigger] terms_in(query)[k]),
        0 <= j < terms_in(query).len(),
    ensures
        searched(steps_for(profile, query), PlanSearchKind::Graph, terms_in(query)[j]),
        searched(steps_for(profile, query), PlanSearchKind::Code, terms_in(query)[j]),
{
    assert forall|k: int| 0 <= k < terms_in(query).len() implies !is_symbol(
        #[trigger] terms_in(query)[k],
    ) by {
        assert(!is_code(terms_in(query)[k]));
    }
    assert(chosen_terms(terms_in(query)) == terms_in(query));
    chosen_terms_are_all_searched_for(profile, query, j);
}

/// A plan for a definition or for the reach of a change searches for every chosen term, as a
/// symbol and as a line.
pub proof fn chosen_terms_are_all_searched_for(profile: Seq<char>, query: Seq<char>, j: int)
    requires
        profile == "find_definition"@ || profile == "trace_impact"@,
        0 <= j < chosen_terms(terms_in(query)).len(),
    ensures
        searched(
            steps_for(profile, query),
            PlanSearchKind::Graph,
            chosen_terms(terms_in(query))[j],
        ),
        searched(
            steps_for(profile, query),
            PlanSearchKind::Code,
            chosen_terms(terms_in(query))[j],
        ),
{
    profile_names();
    definitions_are_searched_by_every_term(query);
    impacts_are_searched_by_every_term(query);
    lemma_chosen_are_terms(query);
    let chosen = chosen_terms(terms_in(query));
    let steps = steps_for(profile, query);
    let n = chosen.len() as int;
    assert(steps.len() == 2 * n);
    assert(steps[j].term == chosen[j] && steps[n + j].term == chosen[j]);
    if profile == "find_definition"@ {
        assert(steps[j].kind == PlanSearchKind::Graph);
        assert(steps[n + j].kind == PlanSearchKind::Code);
    } else {
        assert(steps[j].kind == PlanSearchKind::Code);
        assert(steps[n + j].kind == PlanSearchKind::Graph);
    }
}

/// The chosen terms are terms of the query: every one with an underscore and neither slash nor
/// point where there is such a one, or else every one that looks like code, or else every one.
pub proof fn the_terms_most_like_code_are_chosen(terms: Seq<Seq<char>>, j: int)
    requires
        0 <= j < terms.len(),
    ensures
        is_symbol(terms[j]) ==> chosen_terms(terms).contains(terms[j]),
        is_code(terms[j]) && (forall|k: int|
            0 <= k < terms.len() ==> !is_symbol(#[trigger] terms[k])) ==> chosen_terms(
            terms,
        ).contains(terms[j]),
        (forall|k: int| 0 <= k < terms.len() ==> !is_code(#[trigger] terms[k])) ==> chosen_terms(
            terms,
        ) == terms,
{
    let symbol = |t: Seq<char>| is_symbol(t);
    let code = |t: Seq<char>| is_code(t);
    if is_symbol(terms[j]) {
        lemma_filter_has(terms, symbol, j);
    }
    if is_code(terms[j]) {
        lemma_filter_has(terms, code, j);
    }
    if forall|k: int| 0 <= k < terms.len() ==> !is_code(#[trigger] terms[k]) {
        assert forall|k: int| 0 <= k < terms.len() implies !is_symbol(#[trigger] terms[k]) by {
            assert(!is_code(terms[k]));
        }
    }
}

} // verus!
