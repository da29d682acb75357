//! The searches that a plan makes, in their order.

use vstd::prelude::*;

use crate::seqs::lemma_filter_step;
use crate::terms::{
    blank_queries_have_no_terms, codeish, is_codeish_term, is_symbol_like_term, query_terms,
    symbol_like, terms_in,
};
use crate::text::{same_text, texts, trim, trimmed};

verus! {

/// What a search looks through.
#[derive(Clone, Copy, Debug, PartialEq, Eq, Structural)]
pub enum PlanSearchKind {
    Code,
    Graph,
}

/// One search of a plan. The confidence is in hundredths.
#[derive(Debug)]
pub struct PlanSearchStep {
    pub kind: PlanSearchKind,
    pub term: String,
    pub reason: &'static str,
    pub confidence: u32,
}

/// What a search of a plan is.
#[verifier::ext_equal]
pub struct StepView {
    pub kind: PlanSearchKind,
    pub term: Seq<char>,
    pub reason: Seq<char>,
    pub confidence: u32,
}

impl View for PlanSearchStep {
    type V = StepView;

    open spec fn view(&self) -> StepView {
        StepView {
            kind: self.kind,
            term: self.term@,
            reason: self.reason@,
            confidence: self.confidence,
        }
    }
}

/// What the searches in a sequence are.
pub open spec fn step_views(steps: Seq<PlanSearchStep>) -> Seq<StepView> {
    steps.map_values(|s: PlanSearchStep| s@)
}

/// Whether one of the searches looks for a term in what `kind` names.
pub open spec fn searched(steps: Seq<StepView>, kind: PlanSearchKind, term: Seq<char>) -> bool {
    exists|k: int| 0 <= k < steps.len() && #[trigger] steps[k].kind == kind && steps[k].term == term
}

/// The searches with one more, unless its term is empty or it is there already.
pub open spec fn with_step(steps: Seq<StepView>, step: StepView) -> Seq<StepView> {
    if step.term.len() == 0 || searched(steps, step.kind, step.term) {
        steps
    } else {
        steps.push(step)
    }
}

/// Appends a search, unless its term is empty or it is there already.
pub fn push_search_step(
    steps: &mut Vec<PlanSearchStep>,
    kind: PlanSearchKind,
    term: &str,
    reason: &'static str,
    confidence: u32,
)
    ensures
        step_views(final(steps)@) == with_step(
            step_views(old(steps)@),
            (StepView { kind, term: term@, reason: reason@, confidence }),
        ),
{
    if term.is_empty() {
        return;
    }
    let mut i: usize = 0;
    while i < steps.len()
        invariant
            i <= steps@.len(),
            steps@ == old(steps)@,
            forall|k: int|
                0 <= k < i ==> !((#[trigger] steps@[k]).kind == kind && steps@[k].term@ == term@),
        decreases steps.len() - i,
    {
        if steps[i].kind == kind && same_text(steps[i].term.as_str(), term) {
            proof {
                let held = step_views(steps@);
                assert(held[i as int].kind == kind && held[i as int].term == term@);
            }
            return;
        }
        i = i + 1;
    }
    proof {
        let held = step_views(steps@);
        assert forall|k: int| 0 <= k < held.len() implies !(#[trigger] held[k].kind == kind
            && held[k].term == term@) by {
            assert(held[k] == steps@[k]@);
        }
    }
    let ghost before = steps@;
    let step = PlanSearchStep { kind, term: term.to_owned(), reason, confidence };
    steps.push(step);
    assert(step_views(steps@) =~= step_views(before).push(step@));
}

/// How the searches for a list of terms are made: what is looked through, why, and with what
/// confidence for a term that looks like code and for any other.
pub struct StepRule {
    pub kind: PlanSearchKind,
    pub reason: &'static str,
    pub code_confidence: u32,
    pub word_confidence: u32,
}

/// The search for a term by a rule.
pub open spec fn step_by(rule: StepRule, term: Seq<char>) -> StepView {
    StepView {
        kind: rule.kind,
        term,
        reason: rule.reason@,
        confidence: if codeish(term) {
            rule.code_confidence
        } else {
            rule.word_confidence
        },
    }
}

/// The searches with those for a list of terms, in their order.
pub open spec fn with_steps(
    steps: Seq<StepView>,
    terms: Seq<Seq<char>>,
    rule: StepRule,
) -> Seq<StepView>
    decreases terms.len(),
{
    if terms.len() == 0 {
        steps
    } else {
        with_steps(with_step(steps, step_by(rule, terms[0])), terms.skip(1), rule)
    }
}

fn push_steps(steps: &mut Vec<PlanSearchStep>, terms: &Vec<String>, rule: StepRule)
    ensures
        step_views(final(steps)@) == with_steps(step_views(old(steps)@), texts(terms@), rule),
{
    let ghost held = texts(terms@);
    let ghost start = step_views(steps@);
    let mut i: usize = 0;
    assert(held.skip(0) =~= held);
    while i < terms.len()
        invariant
            i <= terms@.len(),
            held == texts(terms@),
            with_steps(step_views(steps@), held.skip(i as int), rule) == with_steps(
                start,
                held,
                rule,
            ),
        decreases terms.len() - i,
    {
        assert(held.skip(i as int)[0] == terms@[i as int]@);
        assert(held.skip(i as int).skip(1) =~= held.skip(i + 1));
        let term = terms[i].as_str();
        let confidence: u32 = if is_codeish_term(term) {
            rule.code_confidence
        } else {
            rule.word_confidence
        };
        push_search_step(steps, rule.kind, term, rule.reason, confidence);
        i = i + 1;
    }
}

/// The terms that look like code.
pub open spec fn codeish_terms(terms: Seq<Seq<char>>) -> Seq<Seq<char>> {
    terms.filter(|t: Seq<char>| codeish(t))
}

/// The terms that do not look like code.
pub open spec fn general_terms(terms: Seq<Seq<char>>) -> Seq<Seq<char>> {
    terms.filter(|t: Seq<char>| !codeish(t))
}

/// The terms that look like code and, among these, like the name of a symbol.
pub open spec fn symbol_terms(terms: Seq<Seq<char>>) -> Seq<Seq<char>> {
    codeish_terms(terms).filter(|t: Seq<char>| symbol_like(t))
}

/// The terms that a definition or its uses are looked for by: the symbol names, or else all
/// that looks like code, or else the rest.
pub open spec fn focused_terms(terms: Seq<Seq<char>>) -> Seq<Seq<char>> {
    if symbol_terms(terms).len() > 0 {
        symbol_terms(terms)
    } else if codeish_terms(terms).len() == 0 {
        general_terms(terms)
    } else {
        codeish_terms(terms)
    }
}

/// The terms with those that look like code first.
pub open spec fn ordered_terms(terms: Seq<Seq<char>>) -> Seq<Seq<char>> {
    codeish_terms(terms) + general_terms(terms)
}

/// Terms by what they look like.
struct SplitTerms {
    codeish: Vec<String>,
    general: Vec<String>,
    symbol: Vec<String>,
}

fn split_terms(terms: &Vec<String>) -> (split: SplitTerms)
    ensures
        texts(split.codeish@) == codeish_terms(texts(terms@)),
        texts(split.general@) == general_terms(texts(terms@)),
        texts(split.symbol@) == symbol_terms(texts(terms@)),
{
    let ghost all = texts(terms@);
    let ghost code = |t: Seq<char>| codeish(t);
    let ghost word = |t: Seq<char>| !codeish(t);
    let ghost name = |t: Seq<char>| symbol_like(t);
    let mut coded: Vec<String> = Vec::new();
    let mut general: Vec<String> = Vec::new();
    let mut i: usize = 0;
    proof {
        reveal(Seq::filter);
        assert(texts(coded@) =~= all.take(0).filter(code));
        assert(texts(general@) =~= all.take(0).filter(word));
    }
    while i < terms.len()
        invariant
            i <= terms@.len(),
            all == texts(terms@),
            code == (|t: Seq<char>| codeish(t)),
            word == (|t: Seq<char>| !codeish(t)),
            texts(coded@) == all.take(i as int).filter(code),
            texts(general@) == all.take(i as int).filter(word),
        decreases terms.len() - i,
    {
        let ghost coded_done = coded@;
        let ghost general_done = general@;
        assert(all[i as int] == terms@[i as int]@);
        proof {
            lemma_filter_step(all, code, i as int);
            lemma_filter_step(all, word, i as int);
        }
        if is_codeish_term(terms[i].as_str()) {
            coded.push(terms[i].clone());
            assert(texts(coded@) =~= texts(coded_done).push(all[i as int]));
        } else {
            general.push(terms[i].clone());
            assert(texts(general@) =~= texts(general_done).push(all[i as int]));
        }
        i = i + 1;
    }
    assert(all.take(i as int) =~= all);
    let ghost held = texts(coded@);
    let mut symbol: Vec<String> = Vec::new();
    let mut j: usize = 0;
    proof {
        reveal(Seq::filter);
        assert(texts(symbol@) =~= held.take(0).filter(name));
    }
    while j < coded.len()
        invariant
            j <= coded@.len(),
            held == texts(coded@),
            name == (|t: Seq<char>| symbol_like(t)),
            texts(symbol@) == held.take(j as int).filter(name),
        decreases coded.len() - j,
    {
        let ghost symbol_done = symbol@;
        assert(held[j as int] == coded@[j as int]@);
        proof {
            lemma_filter_step(held, name, j as int);
        }
        if is_symbol_like_term(coded[j].as_str()) {
            symbol.push(coded[j].clone());
            assert(texts(symbol@) =~= texts(symbol_done).push(held[j as int]));
        }
        j = j + 1;
    }
    assert(held.take(j as int) =~= held);
    SplitTerms { codeish: coded, general, symbol }
}

/// How symbols are looked for where a definition is wanted.
pub open spec fn definition_symbols() -> StepRule {
    StepRule {
        kind: PlanSearchKind::Graph,
        reason: "profile symbol match",
        code_confidence: 95,
        word_confidence: 80,
    }
}

/// How lines are looked for where a definition is wanted.
pub open spec fn definition_lines() -> StepRule {
    StepRule {
        kind: PlanSearchKind::Code,
        reason: "profile lexical definition match",
        code_confidence: 72,
        word_confidence: 60,
    }
}

/// How lines are looked for where the reach of a change is wanted.
pub open spec fn impact_lines() -> StepRule {
    StepRule {
        kind: PlanSearchKind::Code,
        reason: "impact callsite match",
        code_confidence: 90,
        word_confidence: 70,
    }
}

/// How symbols are looked for where the reach of a change is wanted.
pub open spec fn impact_symbols() -> StepRule {
    StepRule {
        kind: PlanSearchKind::Graph,
        reason: "impact symbol seed",
        code_confidence: 78,
        word_confidence: 64,
    }
}

/// How lines are looked for where a bug is investigated.
pub open spec fn bug_lines() -> StepRule {
    StepRule {
        kind: PlanSearchKind::Code,
        reason: "bug investigation lexical token match",
        code_confidence: 82,
        word_confidence: 68,
    }
}

/// How symbols are looked for where a bug is investigated.
pub open spec fn bug_symbols() -> StepRule {
    StepRule {
        kind: PlanSearchKind::Graph,
        reason: "bug investigation symbol match",
        code_confidence: 66,
        word_confidence: 58,
    }
}

/// The searches for the definition of something: symbols, then lines.
pub open spec fn definition_steps(terms: Seq<Seq<char>>) -> Seq<StepView> {
    with_steps(
        with_steps(Seq::empty(), focused_terms(terms), definition_symbols()),
        focused_terms(terms),
        definition_lines(),
    )
}

/// The searches for what a change would reach: lines, then symbols.
pub open spec fn impact_steps(terms: Seq<Seq<char>>) -> Seq<StepView> {
    with_steps(
        with_steps(Seq::empty(), focused_terms(terms), impact_lines()),
        focused_terms(terms),
        impact_symbols(),
    )
}

/// The search for a whole query as a line.
pub open spec fn whole_query(query: Seq<char>, reason: Seq<char>, confidence: u32) -> StepView {
    StepView { kind: PlanSearchKind::Code, term: query, reason, confidence }
}

/// The searches for the place of a bug: the whole query as a line, then each term as a line,
/// then each term as a symbol.
pub open spec fn bug_steps(query: Seq<char>, terms: Seq<Seq<char>>) -> Seq<StepView> {
    let whole = with_step(
        Seq::empty(),
        whole_query(query, "bug investigation lexical query match"@, 70),
    );
    with_steps(
        with_steps(whole, ordered_terms(terms), bug_lines()),
        ordered_terms(terms),
        bug_symbols(),
    )
}

/// The searches for a trimmed query and its terms. Where there are none the query itself is
/// looked for.
pub open spec fn steps_with(
    profile: Seq<char>,
    query: Seq<char>,
    terms: Seq<Seq<char>>,
) -> Seq<StepView> {
    let steps = if profile == "find_definition"@ {
        definition_steps(terms)
    } else if profile == "trace_impact"@ {
        impact_steps(terms)
    } else {
        bug_steps(query, terms)
    };
    if steps.len() == 0 {
        with_step(steps, whole_query(query, "fallback lexical match"@, 50))
    } else {
        steps
    }
}

/// The searches for a trimmed query and its terms.
pub fn steps_for_terms(profile: &str, query: &str, terms: &Vec<String>) -> (steps: Vec<
    PlanSearchStep,
>)
    ensures
        step_views(steps@) == steps_with(profile@, query@, texts(terms@)),
{
    let split = split_terms(terms);
    assert(texts(split.symbol@).len() == split.symbol@.len());
    assert(texts(split.codeish@).len() == split.codeish@.len());
    let mut steps: Vec<PlanSearchStep> = Vec::new();
    assert(step_views(steps@) =~= Seq::empty());
    let definition = same_text(profile, "find_definition");
    let impact = same_text(profile, "trace_impact");
    if definition || impact {
        let focused = if split.symbol.len() > 0 {
            &split.symbol
        } else if split.codeish.len() == 0 {
            &split.general
        } else {
            &split.codeish
        };
        if definition {
            push_steps(
                &mut steps,
                focused,
                StepRule {
                    kind: PlanSearchKind::Graph,
                    reason: "profile symbol match",
                    code_confidence: 95,
                    word_confidence: 80,
                },
            );
            push_steps(
                &mut steps,
                focused,
                StepRule {
                    kind: PlanSearchKind::Code,
                    reason: "profile lexical definition match",
                    code_confidence: 72,
                    word_confidence: 60,
                },
            );
        } else {
            push_steps(
                &mut steps,
                focused,
                StepRule {
                    kind: PlanSearchKind::Code,
                    reason: "impact callsite match",
                    code_confidence: 90,
                    word_confidence: 70,
                },
            );
            push_steps(
                &mut steps,
                focused,
                StepRule {
                    kind: PlanSearchKind::Graph,
                    reason: "impact symbol seed",
                    code_confidence: 78,
                    word_confidence: 64,
                },
            );
        }
    } else {
        push_search_step(
            &mut steps,
            PlanSearchKind::Code,
            query,
            "bug investigation lexical query match",
            70,
        );
        let ghost code = split.codeish@;
        let ghost words = split.general@;
        let mut ordered = split.codeish;
        let mut general = split.general;
        ordered.append(&mut general);
        assert(texts(ordered@) =~= texts(code) + texts(words));
        push_steps(
            &mut steps,
            &ordered,
            StepRule {
                kind: PlanSearchKind::Code,
                reason: "bug investigation lexical token match",
                code_confidence: 82,
                word_confidence: 68,
            },
        );
        push_steps(
            &mut steps,
            &ordered,
            StepRule {
                kind: PlanSearchKind::Graph,
                reason: "bug investigation symbol match",
                code_confidence: 66,
                word_confidence: 58,
            },
        );
    }
    assert(step_views(steps@).len() == steps@.len());
    if steps.len() == 0 {
        push_search_step(
            &mut steps,
            PlanSearchKind::Code,
            query,
            "fallback lexical match",
            50,
        );
    }
    steps
}

/// The searches for a query.
pub open spec fn steps_for(profile: Seq<char>, query: Seq<char>) -> Seq<StepView> {
    steps_with(profile, trimmed(query), terms_in(query))
}

/// The searches for a query, by what is wanted of it.
pub fn plan_search_steps(profile: &str, query: &str) -> (steps: Vec<PlanSearchStep>)
    ensures
        step_views(steps@) == steps_for(profile@, query@),
{
    let terms = query_terms(query);
    let words = trim(query);
    steps_for_terms(profile, words.as_str(), &terms)
}

// ---------------------------------------------------------------------------
// What holds of the searches
// ---------------------------------------------------------------------------

/// Whether no search is made twice and none for an empty term.
pub open spec fn distinct_steps(steps: Seq<StepView>) -> bool {
    &&& forall|i: int, j: int|
        0 <= i < j < steps.len() ==> !((#[trigger] steps[i]).kind == (#[trigger] steps[j]).kind
            && steps[i].term == steps[j].term)
    &&& forall|i: int| 0 <= i < steps.len() ==> (#[trigger] steps[i]).term.len() > 0
}

proof fn lemma_with_step(steps: Seq<StepView>, step: StepView)
    requires
        distinct_steps(steps),
    ensures
        distinct_steps(with_step(steps, step)),
        steps.is_prefix_of(with_step(steps, step)),
        with_step(steps, step).len() <= steps.len() + 1,
{
    let next = with_step(steps, step);
    if next.len() > steps.len() {
        assert forall|i: int, j: int| 0 <= i < j < next.len() implies !((#[trigger] next[i]).kind == (
        #[trigger] next[j]).kind && next[i].term == next[j].term) by {
            if j == steps.len() {
                assert(steps[i].kind == next[i].kind);
            }
        }
    }
}

proof fn lemma_with_steps(steps: Seq<StepView>, terms: Seq<Seq<char>>, rule: StepRule)
    requires
        distinct_steps(steps),
    ensures
        distinct_steps(with_steps(steps, terms, rule)),
        steps.is_prefix_of(with_steps(steps, terms, rule)),
        with_steps(steps, terms, rule).len() <= steps.len() + terms.len(),
    decreases terms.len(),
{
    if terms.len() > 0 {
        lemma_with_step(steps, step_by(rule, terms[0]));
        lemma_with_steps(with_step(steps, step_by(rule, terms[0])), terms.skip(1), rule);
    }
}

proof fn lemma_two_lists(
    steps: Seq<StepView>,
    terms: Seq<Seq<char>>,
    first: StepRule,
    second: StepRule,
)
    requires
        distinct_steps(steps),
    ensures
        distinct_steps(with_steps(with_steps(steps, terms, first), terms, second)),
{
    lemma_with_steps(steps, terms, first);
    lemma_with_steps(with_steps(steps, terms, first), terms, second);
}

/// Whether every confidence is one or less.
pub open spec fn within_one(steps: Seq<StepView>) -> bool {
    forall|k: int| 0 <= k < steps.len() ==> (#[trigger] steps[k]).confidence <= 100
}

proof fn lemma_within_one(steps: Seq<StepView>, terms: Seq<Seq<char>>, rule: StepRule)
    requires
        within_one(steps),
        rule.code_confidence <= 100,
        rule.word_confidence <= 100,
    ensures
        within_one(with_steps(steps, terms, rule)),
    decreases terms.len(),
{
    if terms.len() > 0 {
        lemma_within_one(with_step(steps, step_by(rule, terms[0])), terms.skip(1), rule);
    }
}

/// The confidence of every search of a plan is one or less.
pub proof fn confidences_are_within_one(
    profile: Seq<char>,
    query: Seq<char>,
    terms: Seq<Seq<char>>,
)
    ensures
        within_one(steps_with(profile, query, terms)),
{
    let none = Seq::<StepView>::empty();
    let focused = focused_terms(terms);
    let ordered = ordered_terms(terms);
    lemma_within_one(none, focused, definition_symbols());
    lemma_within_one(
        with_steps(none, focused, definition_symbols()),
        focused,
        definition_lines(),
    );
    lemma_within_one(none, focused, impact_lines());
    lemma_within_one(with_steps(none, focused, impact_lines()), focused, impact_symbols());
    let first = with_step(
        none,
        whole_query(query, "bug investigation lexical query match"@, 70),
    );
    lemma_within_one(first, ordered, bug_lines());
    lemma_within_one(with_steps(first, ordered, bug_lines()), ordered, bug_symbols());
}

/// A query that is not blank is searched for at least once, whatever is wanted of it, and a
/// blank one is not searched for.
pub proof fn a_query_is_searched(profile: Seq<char>, query: Seq<char>)
    ensures
        steps_for(profile, query).len() > 0 <==> trimmed(query).len() > 0,
{
    if trimmed(query).len() > 0 {
        assert(!searched(Seq::empty(), PlanSearchKind::Code, trimmed(query)));
    } else {
        blank_queries_have_no_terms(query);
        reveal(Seq::filter);
        assert(ordered_terms(terms_in(query)).len() == 0);
        assert(focused_terms(terms_in(query)).len() == 0);
    }
}

/// A plan makes no search twice, and none for an empty term.
pub proof fn steps_are_distinct(profile: Seq<char>, query: Seq<char>)
    ensures
        distinct_steps(steps_for(profile, query)),
{
    let terms = terms_in(query);
    let whole = trimmed(query);
    let none = Seq::<StepView>::empty();
    lemma_two_lists(none, focused_terms(terms), definition_symbols(), definition_lines());
    lemma_two_lists(none, focused_terms(terms), impact_lines(), impact_symbols());
    let first = whole_query(whole, "bug investigation lexical query match"@, 70);
    lemma_with_step(none, first);
    lemma_two_lists(with_step(none, first), ordered_terms(terms), bug_lines(), bug_symbols());
    let last = whole_query(whole, "fallback lexical match"@, 50);
    lemma_with_step(definition_steps(terms), last);
    lemma_with_step(impact_steps(terms), last);
    lemma_with_step(bug_steps(whole, terms), last);
}

} // verus!
