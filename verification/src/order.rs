//! The order of texts, and the arrangement of items by score and text.

use vstd::prelude::*;

use crate::json::{views, JsonValue};
use crate::text::{same_text, texts, to_chars};

verus! {

// ---------------------------------------------------------------------------
// The order of texts
// ---------------------------------------------------------------------------

/// Whether `a` comes before `b` when texts are compared character by character.
pub open spec fn text_less(a: Seq<char>, b: Seq<char>) -> bool
    decreases a.len(),
{
    if b.len() == 0 {
        false
    } else if a.len() == 0 {
        true
    } else if a[0] != b[0] {
        a[0] < b[0]
    } else {
        text_less(a.skip(1), b.skip(1))
    }
}

/// No text comes before itself.
pub proof fn text_less_irreflexive(a: Seq<char>)
    ensures
        !text_less(a, a),
    decreases a.len(),
{
    if a.len() > 0 {
        text_less_irreflexive(a.skip(1));
    }
}

/// The order of texts is transitive.
pub proof fn text_less_transitive(a: Seq<char>, b: Seq<char>, c: Seq<char>)
    requires
        text_less(a, b),
        text_less(b, c),
    ensures
        text_less(a, c),
    decreases a.len(),
{
    if a.len() > 0 && a[0] == b[0] && b[0] == c[0] {
        text_less_transitive(a.skip(1), b.skip(1), c.skip(1));
    }
}

/// Of two different texts one comes before the other.
pub proof fn text_less_total(a: Seq<char>, b: Seq<char>)
    ensures
        a == b || text_less(a, b) || text_less(b, a),
    decreases a.len(),
{
    if a.len() > 0 && b.len() > 0 && a[0] == b[0] {
        text_less_total(a.skip(1), b.skip(1));
        if a.skip(1) == b.skip(1) {
            assert(a =~= seq![a[0]] + a.skip(1));
            assert(b =~= seq![b[0]] + b.skip(1));
        }
    } else if a.len() == 0 && b.len() == 0 {
        assert(a =~= b);
    }
}

/// Whether `left` comes before `right`.
pub fn comes_before(left: &str, right: &str) -> (answer: bool)
    ensures
        answer == text_less(left@, right@),
{
    let a = to_chars(left);
    let b = to_chars(right);
    let mut i: usize = 0;
    assert(a@.skip(0) =~= a@);
    assert(b@.skip(0) =~= b@);
    while i < a.len() && i < b.len()
        invariant
            i <= a@.len(),
            i <= b@.len(),
            a@ == left@,
            b@ == right@,
            text_less(a@, b@) == text_less(a@.skip(i as int), b@.skip(i as int)),
        decreases a.len() - i,
    {
        assert(a@.skip(i as int)[0] == a@[i as int]);
        assert(b@.skip(i as int)[0] == b@[i as int]);
        if a[i] != b[i] {
            return a[i] < b[i];
        }
        assert(a@.skip(i as int).skip(1) =~= a@.skip(i + 1));
        assert(b@.skip(i as int).skip(1) =~= b@.skip(i + 1));
        i = i + 1;
    }
    i < b.len()
}

// ---------------------------------------------------------------------------
// Arrangements
// ---------------------------------------------------------------------------

/// By what an item is arranged: a higher score first, then the earlier text.
pub struct SortKey {
    pub score: i128,
    pub text: String,
}

/// What a sort key holds.
pub struct KeyView {
    pub score: int,
    pub text: Seq<char>,
}

impl View for SortKey {
    type V = KeyView;

    open spec fn view(&self) -> KeyView {
        KeyView { score: self.score as int, text: self.text@ }
    }
}

/// What the keys in a sequence hold.
pub open spec fn key_views(keys: Seq<SortKey>) -> Seq<KeyView> {
    keys.map_values(|k: SortKey| k@)
}

/// Whether an item with key `a` belongs before one with key `b`.
pub open spec fn precedes(a: KeyView, b: KeyView) -> bool {
    a.score > b.score || (a.score == b.score && text_less(a.text, b.text))
}

/// Whether item `i` belongs before item `j`: by the keys and, where these do not decide, by
/// the places that the items have now.
pub open spec fn before(keys: Seq<KeyView>, i: int, j: int) -> bool {
    precedes(keys[i], keys[j]) || (!precedes(keys[j], keys[i]) && i < j)
}

/// Whether `order` lists every item once, each before those that it belongs before.
pub open spec fn is_arrangement(keys: Seq<KeyView>, order: Seq<int>) -> bool {
    &&& order.len() == keys.len()
    &&& forall|i: int| 0 <= i < order.len() ==> 0 <= #[trigger] order[i] < keys.len()
    &&& forall|k: int| 0 <= k < keys.len() ==> #[trigger] order.contains(k)
    &&& forall|i: int, j: int|
        0 <= i < j < order.len() ==> #[trigger] before(keys, order[i], order[j])
}

/// The arrangement of items with these keys.
pub open spec fn arrangement(keys: Seq<KeyView>) -> Seq<int> {
    choose|order: Seq<int>| is_arrangement(keys, order)
}

/// The items in the arrangement of their keys.
pub open spec fn arranged<T>(items: Seq<T>, keys: Seq<KeyView>) -> Seq<T> {
    arrangement(keys).map_values(|i: int| items[i])
}

/// Of two keys at most one precedes the other.
pub proof fn lemma_precedes_asymmetric(a: KeyView, b: KeyView)
    requires
        precedes(a, b),
    ensures
        !precedes(b, a),
{
    if text_less(a.text, b.text) && text_less(b.text, a.text) {
        text_less_transitive(a.text, b.text, a.text);
        text_less_irreflexive(a.text);
    }
}

proof fn lemma_before_irreflexive(keys: Seq<KeyView>, i: int)
    ensures
        !before(keys, i, i),
{
    text_less_irreflexive(keys[i].text);
}

proof fn lemma_before_transitive(keys: Seq<KeyView>, i: int, j: int, k: int)
    requires
        before(keys, i, j),
        before(keys, j, k),
    ensures
        before(keys, i, k),
{
    let (a, b, c) = (keys[i].text, keys[j].text, keys[k].text);
    if text_less(a, b) && text_less(b, c) {
        text_less_transitive(a, b, c);
    }
    text_less_total(a, b);
    text_less_total(b, c);
    if text_less(c, a) && text_less(a, b) {
        text_less_transitive(c, a, b);
    }
    if text_less(b, c) && text_less(c, a) {
        text_less_transitive(b, c, a);
    }
}

proof fn lemma_before_total(keys: Seq<KeyView>, i: int, j: int)
    ensures
        i == j || before(keys, i, j) || before(keys, j, i),
{
}

/// Where an item belongs among items that are arranged already.
spec fn place_for(keys: Seq<KeyView>, order: Seq<int>, item: int) -> int
    decreases order.len(),
{
    if order.len() > 0 && before(keys, item, order.last()) {
        place_for(keys, order.drop_last(), item)
    } else {
        order.len() as int
    }
}

proof fn lemma_place_for(keys: Seq<KeyView>, order: Seq<int>, item: int)
    requires
        forall|i: int, j: int|
            0 <= i < j < order.len() ==> #[trigger] before(keys, order[i], order[j]),
        !order.contains(item),
    ensures
        0 <= place_for(keys, order, item) <= order.len(),
        forall|i: int|
            0 <= i < place_for(keys, order, item) ==> before(keys, #[trigger] order[i], item),
        forall|i: int|
            place_for(keys, order, item) <= i < order.len() ==> before(
                keys,
                item,
                #[trigger] order[i],
            ),
    decreases order.len(),
{
    if order.len() > 0 {
        let last = order.len() - 1;
        let earlier = order.drop_last();
        if before(keys, item, order.last()) {
            assert(!earlier.contains(item)) by {
                if earlier.contains(item) {
                    let k = choose|k: int| 0 <= k < earlier.len() && earlier[k] == item;
                    assert(order[k] == item);
                }
            }
            assert forall|i: int, j: int| 0 <= i < j < earlier.len() implies #[trigger] before(
                keys,
                earlier[i],
                earlier[j],
            ) by {
                assert(before(keys, order[i], order[j]));
            }
            lemma_place_for(keys, earlier, item);
            let place = place_for(keys, order, item);
            assert forall|i: int| 0 <= i < place implies before(keys, #[trigger] order[i], item) by {
                assert(earlier[i] == order[i]);
            }
            assert forall|i: int| place <= i < order.len() implies before(
                keys,
                item,
                #[trigger] order[i],
            ) by {
                if i < last {
                    assert(earlier[i] == order[i]);
                }
            }
        } else {
            assert(order.contains(order[last]));
            assert forall|i: int| 0 <= i < order.len() implies before(
                keys,
                #[trigger] order[i],
                item,
            ) by {
                lemma_before_total(keys, item, order[last]);
                if i < last {
                    assert(before(keys, order[i], order[last]));
                    lemma_before_transitive(keys, order[i], order[last], item);
                }
            }
        }
    }
}

/// Any items can be arranged.
pub proof fn arrangement_exists(keys: Seq<KeyView>)
    ensures
        is_arrangement(keys, arrangement(keys)),
    decreases keys.len(),
{
    if keys.len() == 0 {
        assert(is_arrangement(keys, Seq::empty()));
    } else {
        let fewer = keys.drop_last();
        let item = keys.len() - 1;
        arrangement_exists(fewer);
        let order = arrangement(fewer);
        assert forall|i: int, j: int| 0 <= i < j < order.len() implies #[trigger] before(
            keys,
            order[i],
            order[j],
        ) by {
            assert(before(fewer, order[i], order[j]));
        }
        assert(!order.contains(item));
        lemma_place_for(keys, order, item);
        let place = place_for(keys, order, item);
        let next = order.insert(place, item);
        assert forall|k: int| 0 <= k < keys.len() implies #[trigger] next.contains(k) by {
            if k < item {
                assert(order.contains(k));
                let p = choose|p: int| 0 <= p < order.len() && order[p] == k;
                assert(next[if p < place { p } else { p + 1 }] == k);
            } else {
                assert(next[place] == k);
            }
        }
        assert forall|i: int, j: int| 0 <= i < j < next.len() implies #[trigger] before(
            keys,
            next[i],
            next[j],
        ) by {
            let a = if i < place { i } else { i - 1 };
            let b = if j < place { j } else { j - 1 };
            if i != place && j != place {
                assert(before(keys, order[a], order[b]));
            } else if i == place {
                assert(before(keys, item, order[b]));
            } else {
                assert(before(keys, order[a], item));
            }
        }
        assert(is_arrangement(keys, next));
    }
}

/// An arrangement keeps the items: as many, and each of them.
pub proof fn arranging_keeps_items<T>(items: Seq<T>, keys: Seq<KeyView>)
    requires
        items.len() == keys.len(),
    ensures
        arranged(items, keys).len() == items.len(),
        forall|i: int|
            0 <= i < items.len() ==> items.contains(#[trigger] arranged(items, keys)[i]),
        forall|i: int|
            0 <= i < items.len() ==> arranged(items, keys).contains(#[trigger] items[i]),
{
    arrangement_exists(keys);
    let order = arrangement(keys);
    let sorted = arranged(items, keys);
    assert forall|i: int| 0 <= i < items.len() implies items.contains(#[trigger] sorted[i]) by {
        assert(sorted[i] == items[order[i]]);
    }
    assert forall|i: int| 0 <= i < items.len() implies sorted.contains(#[trigger] items[i]) by {
        assert(order.contains(i));
        let p = choose|p: int| 0 <= p < order.len() && order[p] == i;
        assert(sorted[p] == items[i]);
    }
}

/// Items have one arrangement only.
pub proof fn arrangement_is_unique(keys: Seq<KeyView>, first: Seq<int>, second: Seq<int>)
    requires
        is_arrangement(keys, first),
        is_arrangement(keys, second),
    ensures
        first == second,
{
    assert forall|n: int| 0 <= n < keys.len() implies first[n] == second[n] by {
        lemma_arrangements_agree(keys, first, second, n);
    }
    assert(first =~= second);
}

proof fn lemma_arrangements_agree(
    keys: Seq<KeyView>,
    first: Seq<int>,
    second: Seq<int>,
    n: int,
)
    requires
        is_arrangement(keys, first),
        is_arrangement(keys, second),
        0 <= n < keys.len(),
    ensures
        forall|m: int| 0 <= m <= n ==> first[m] == second[m],
    decreases n,
{
    if n > 0 {
        lemma_arrangements_agree(keys, first, second, n - 1);
    }
    let x = first[n];
    let y = second[n];
    if x != y {
        lemma_before_total(keys, x, y);
        if before(keys, x, y) {
            lemma_no_earlier(keys, second, first, n);
        } else {
            lemma_no_earlier(keys, first, second, n);
        }
    }
}

/// Where two arrangements agree up to `n`, the second cannot have an earlier item at `n`.
proof fn lemma_no_earlier(keys: Seq<KeyView>, order: Seq<int>, other: Seq<int>, n: int)
    requires
        is_arrangement(keys, order),
        is_arrangement(keys, other),
        0 <= n < keys.len(),
        forall|m: int| 0 <= m < n ==> order[m] == other[m],
    ensures
        !before(keys, other[n], order[n]),
{
    let x = other[n];
    assert(order.contains(x));
    let p = choose|p: int| 0 <= p < order.len() && order[p] == x;
    if p < n {
        assert(before(keys, other[p], other[n]));
    } else if p > n {
        assert(before(keys, order[n], order[p]));
        if before(keys, x, order[n]) {
            lemma_before_transitive(keys, x, order[n], x);
        }
    }
    lemma_before_irreflexive(keys, x);
}

fn key_before(keys: &Vec<SortKey>, i: usize, j: usize) -> (answer: bool)
    requires
        i < keys@.len(),
        j < keys@.len(),
    ensures
        answer == before(key_views(keys@), i as int, j as int),
{
    let a = &keys[i];
    let b = &keys[j];
    if a.score != b.score {
        return a.score > b.score;
    }
    if comes_before(a.text.as_str(), b.text.as_str()) {
        return true;
    }
    !comes_before(b.text.as_str(), a.text.as_str()) && i < j
}

/// Whether `order` lists the items from `low` up to `high` once, arranged.
spec fn arranges(keys: Seq<KeyView>, order: Seq<usize>, low: int, high: int) -> bool {
    &&& order.len() == high - low
    &&& forall|i: int| 0 <= i < order.len() ==> low <= #[trigger] order[i] < high
    &&& forall|k: usize| low <= k < high ==> #[trigger] order.contains(k)
    &&& forall|i: int, j: int|
        0 <= i < j < order.len() ==> #[trigger] before(keys, order[i] as int, order[j] as int)
}

fn merge(keys: &Vec<SortKey>, left: Vec<usize>, right: Vec<usize>, low: usize, middle: usize, high: usize) -> (order:
    Vec<usize>)
    requires
        low <= middle <= high <= keys@.len(),
        arranges(key_views(keys@), left@, low as int, middle as int),
        arranges(key_views(keys@), right@, middle as int, high as int),
    ensures
        arranges(key_views(keys@), order@, low as int, high as int),
{
    let ghost views = key_views(keys@);
    let mut order: Vec<usize> = Vec::new();
    let mut i: usize = 0;
    let mut j: usize = 0;
    while i < left.len() || j < right.len()
        invariant
            views == key_views(keys@),
            low <= middle <= high <= keys@.len(),
            arranges(views, left@, low as int, middle as int),
            arranges(views, right@, middle as int, high as int),
            i <= left@.len(),
            j <= right@.len(),
            order@.len() == i + j,
            forall|n: int| 0 <= n < order@.len() ==> low <= #[trigger] order@[n] < high,
            forall|n: int| 0 <= n < i ==> order@.contains(#[trigger] left@[n]),
            forall|n: int| 0 <= n < j ==> order@.contains(#[trigger] right@[n]),
            forall|n: int, m: int|
                0 <= n < m < order@.len() ==> #[trigger] before(
                    views,
                    order@[n] as int,
                    order@[m] as int,
                ),
            forall|n: int, m: int|
                0 <= n < order@.len() && i <= m < left@.len() ==> #[trigger] before(
                    views,
                    order@[n] as int,
                    left@[m] as int,
                ),
            forall|n: int, m: int|
                0 <= n < order@.len() && j <= m < right@.len() ==> #[trigger] before(
                    views,
                    order@[n] as int,
                    right@[m] as int,
                ),
        decreases left.len() - i + right.len() - j,
    {
        let ghost old_order = order@;
        let take_left: bool = if i == left.len() {
            false
        } else if j == right.len() {
            true
        } else {
            key_before(keys, left[i], right[j])
        };
        if take_left {
            let next = left[i];
            order.push(next);
            proof {
                assert forall|m: int| j <= m < right@.len() implies before(
                    views,
                    next as int,
                    #[trigger] right@[m] as int,
                ) by {
                    if m > j {
                        assert(before(views, right@[j as int] as int, right@[m] as int));
                        lemma_before_transitive(
                            views,
                            next as int,
                            right@[j as int] as int,
                            right@[m] as int,
                        );
                    }
                }
                assert forall|m: int| i + 1 <= m < left@.len() implies before(
                    views,
                    next as int,
                    #[trigger] left@[m] as int,
                ) by {
                    assert(before(views, left@[i as int] as int, left@[m] as int));
                }
            }
            i = i + 1;
        } else {
            let next = right[j];
            order.push(next);
            proof {
                if i < left@.len() {
                    lemma_before_total(views, left@[i as int] as int, next as int);
                }
                assert forall|m: int| i <= m < left@.len() implies before(
                    views,
                    next as int,
                    #[trigger] left@[m] as int,
                ) by {
                    if m > i {
                        assert(before(views, left@[i as int] as int, left@[m] as int));
                        lemma_before_transitive(
                            views,
                            next as int,
                            left@[i as int] as int,
                            left@[m] as int,
                        );
                    }
                }
                assert forall|m: int| j + 1 <= m < right@.len() implies before(
                    views,
                    next as int,
                    #[trigger] right@[m] as int,
                ) by {
                    assert(before(views, right@[j as int] as int, right@[m] as int));
                }
            }
            j = j + 1;
        }
        proof {
            assert(order@.last() == order@[order@.len() - 1]);
            assert forall|x: usize| old_order.contains(x) implies #[trigger] order@.contains(
                x,
            ) by {
                let p = choose|p: int| 0 <= p < old_order.len() && old_order[p] == x;
                assert(order@[p] == x);
            }
        }
    }
    proof {
        assert forall|k: usize| low <= k < high implies #[trigger] order@.contains(k) by {
            if k < middle {
                assert(left@.contains(k));
            } else {
                assert(right@.contains(k));
            }
        }
    }
    order
}

fn arrange_range(keys: &Vec<SortKey>, low: usize, high: usize) -> (order: Vec<usize>)
    requires
        low <= high <= keys@.len(),
    ensures
        arranges(key_views(keys@), order@, low as int, high as int),
    decreases high - low,
{
    let mut order: Vec<usize> = Vec::new();
    if high - low == 1 {
        order.push(low);
        assert(order@[0] == low);
        return order;
    }
    if high - low == 0 {
        return order;
    }
    let middle: usize = low + (high - low) / 2;
    let left = arrange_range(keys, low, middle);
    let right = arrange_range(keys, middle, high);
    merge(keys, left, right, low, middle, high)
}

/// The arrangement of items with these keys, as places in the sequence of items.
pub fn arrange(keys: &Vec<SortKey>) -> (order: Vec<usize>)
    ensures
        order@.map_values(|i: usize| i as int) == arrangement(key_views(keys@)),
        is_arrangement(key_views(keys@), arrangement(key_views(keys@))),
{
    let order = arrange_range(keys, 0, keys.len());
    proof {
        let views = key_views(keys@);
        let places = order@.map_values(|i: usize| i as int);
        assert forall|k: int| 0 <= k < views.len() implies #[trigger] places.contains(k) by {
            assert(order@.contains(k as usize));
            let p = choose|p: int| 0 <= p < order@.len() && order@[p] == k as usize;
            assert(places[p] == k);
        }
        assert forall|i: int, j: int| 0 <= i < j < places.len() implies #[trigger] before(
            views,
            places[i],
            places[j],
        ) by {
            assert(before(views, order@[i] as int, order@[j] as int));
        }
        assert(is_arrangement(views, places));
        arrangement_is_unique(views, places, arrangement(views));
    }
    order
}

// ---------------------------------------------------------------------------
// Sorted texts without repetition
// ---------------------------------------------------------------------------

/// Whether `sorted` holds the texts that `all` holds, each once and in order.
pub open spec fn is_sorted_set(sorted: Seq<Seq<char>>, all: Seq<Seq<char>>) -> bool {
    &&& forall|i: int, j: int|
        0 <= i < j < sorted.len() ==> text_less(#[trigger] sorted[i], #[trigger] sorted[j])
    &&& forall|t: Seq<char>| #[trigger] sorted.contains(t) <==> all.contains(t)
}

/// The texts in order, each once.
pub open spec fn sorted_set(all: Seq<Seq<char>>) -> Seq<Seq<char>> {
    choose|sorted: Seq<Seq<char>>| is_sorted_set(sorted, all)
}

proof fn lemma_sorted_sets_agree(
    first: Seq<Seq<char>>,
    second: Seq<Seq<char>>,
    all: Seq<Seq<char>>,
    n: int,
)
    requires
        is_sorted_set(first, all),
        is_sorted_set(second, all),
        0 <= n <= first.len(),
    ensures
        n <= second.len(),
        forall|m: int| 0 <= m < n ==> first[m] == second[m],
    decreases n,
{
    if n > 0 {
        lemma_sorted_sets_agree(first, second, all, n - 1);
        let x = first[n - 1];
        assert(first.contains(x));
        assert(second.contains(x));
        let p = choose|p: int| 0 <= p < second.len() && second[p] == x;
        text_less_irreflexive(x);
        if p < n - 1 {
            assert(text_less(first[p], first[n - 1]));
        }
        if p > n - 1 {
            let y = second[n - 1];
            assert(second.contains(y));
            assert(first.contains(y));
            let q = choose|q: int| 0 <= q < first.len() && first[q] == y;
            text_less_irreflexive(y);
            assert(text_less(second[n - 1], second[p]));
            if q < n - 1 {
                assert(text_less(second[q], second[n - 1]));
            } else if q > n - 1 {
                assert(text_less(first[n - 1], first[q]));
                text_less_transitive(x, y, x);
            }
        }
    }
}

/// Where a text belongs among texts that are sorted already.
spec fn place_among(sorted: Seq<Seq<char>>, text: Seq<char>) -> int
    decreases sorted.len(),
{
    if sorted.len() > 0 && text_less(text, sorted.last()) {
        place_among(sorted.drop_last(), text)
    } else {
        sorted.len() as int
    }
}

proof fn lemma_place_among(sorted: Seq<Seq<char>>, text: Seq<char>)
    requires
        forall|i: int, j: int|
            0 <= i < j < sorted.len() ==> text_less(#[trigger] sorted[i], #[trigger] sorted[j]),
        !sorted.contains(text),
    ensures
        0 <= place_among(sorted, text) <= sorted.len(),
        forall|i: int|
            0 <= i < place_among(sorted, text) ==> text_less(#[trigger] sorted[i], text),
        forall|i: int|
            place_among(sorted, text) <= i < sorted.len() ==> text_less(
                text,
                #[trigger] sorted[i],
            ),
    decreases sorted.len(),
{
    if sorted.len() > 0 {
        let last = sorted.len() - 1;
        if text_less(text, sorted.last()) {
            let earlier = sorted.drop_last();
            assert forall|i: int, j: int| 0 <= i < j < earlier.len() implies text_less(
                #[trigger] earlier[i],
                #[trigger] earlier[j],
            ) by {
                assert(earlier[i] == sorted[i] && earlier[j] == sorted[j]);
            }
            assert(!earlier.contains(text)) by {
                if earlier.contains(text) {
                    let k = choose|k: int| 0 <= k < earlier.len() && earlier[k] == text;
                    assert(sorted[k] == text);
                }
            }
            lemma_place_among(earlier, text);
            let place = place_among(sorted, text);
            assert forall|i: int| 0 <= i < place implies text_less(
                #[trigger] sorted[i],
                text,
            ) by {
                assert(earlier[i] == sorted[i]);
            }
            assert forall|i: int| place <= i < sorted.len() implies text_less(
                text,
                #[trigger] sorted[i],
            ) by {
                if i < last {
                    assert(earlier[i] == sorted[i]);
                }
            }
        } else {
            assert(sorted.contains(sorted[last]));
            text_less_total(text, sorted[last]);
            assert forall|i: int| 0 <= i < sorted.len() implies text_less(
                #[trigger] sorted[i],
                text,
            ) by {
                if i < last {
                    assert(text_less(sorted[i], sorted[last]));
                    text_less_transitive(sorted[i], sorted[last], text);
                }
            }
        }
    }
}

/// Any texts can be put in order without repetition.
pub proof fn sorted_set_exists(all: Seq<Seq<char>>)
    ensures
        is_sorted_set(sorted_set(all), all),
    decreases all.len(),
{
    if all.len() == 0 {
        assert(is_sorted_set(Seq::empty(), all));
    } else {
        let fewer = all.drop_last();
        let text = all.last();
        sorted_set_exists(fewer);
        let sorted = sorted_set(fewer);
        assert forall|t: Seq<char>| all.contains(t) <==> fewer.contains(t) || t == text by {
            if all.contains(t) && t != text {
                let k = choose|k: int| 0 <= k < all.len() && all[k] == t;
                assert(fewer[k] == t);
            }
            if fewer.contains(t) {
                let k = choose|k: int| 0 <= k < fewer.len() && fewer[k] == t;
                assert(all[k] == t);
            }
            assert(all[all.len() - 1] == text);
        }
        if sorted.contains(text) {
            assert(is_sorted_set(sorted, all));
        } else {
            lemma_place_among(sorted, text);
            let place = place_among(sorted, text);
            let next = sorted.insert(place, text);
            assert forall|i: int, j: int| 0 <= i < j < next.len() implies text_less(
                #[trigger] next[i],
                #[trigger] next[j],
            ) by {
                let a = if i < place { i } else { i - 1 };
                let b = if j < place { j } else { j - 1 };
                if i != place && j != place {
                    assert(text_less(sorted[a], sorted[b]));
                } else if i == place {
                    assert(text_less(text, sorted[b]));
                } else {
                    assert(text_less(sorted[a], text));
                }
            }
            assert forall|t: Seq<char>| #[trigger] next.contains(t) <==> all.contains(t) by {
                if next.contains(t) && t != text {
                    let k = choose|k: int| 0 <= k < next.len() && next[k] == t;
                    assert(sorted[if k < place { k } else { k - 1 }] == t);
                    assert(sorted.contains(t));
                }
                if all.contains(t) && t != text {
                    assert(sorted.contains(t));
                    let k = choose|k: int| 0 <= k < sorted.len() && sorted[k] == t;
                    assert(next[if k < place { k } else { k + 1 }] == t);
                }
                assert(next[place] == text);
            }
            assert(is_sorted_set(next, all));
        }
    }
}

/// Texts have one order without repetition only.
pub proof fn sorted_set_is_unique(
    first: Seq<Seq<char>>,
    second: Seq<Seq<char>>,
    all: Seq<Seq<char>>,
)
    requires
        is_sorted_set(first, all),
        is_sorted_set(second, all),
    ensures
        first == second,
{
    lemma_sorted_sets_agree(first, second, all, first.len() as int);
    lemma_sorted_sets_agree(second, first, all, second.len() as int);
    assert(first =~= second);
}

fn text_keys(all: &Vec<String>) -> (keys: Vec<SortKey>)
    ensures
        keys@.len() == all@.len(),
        forall|i: int|
            0 <= i < all@.len() ==> (#[trigger] keys@[i])@ == (KeyView {
                score: 0,
                text: all@[i]@,
            }),
{
    let mut keys: Vec<SortKey> = Vec::new();
    let mut i: usize = 0;
    while i < all.len()
        invariant
            i <= all@.len(),
            keys@.len() == i,
            forall|k: int|
                0 <= k < i ==> (#[trigger] keys@[k])@ == (KeyView { score: 0, text: all@[k]@ }),
        decreases all.len() - i,
    {
        keys.push(SortKey { score: 0, text: all[i].clone() });
        i = i + 1;
    }
    keys
}

/// The texts in order, each once.
pub fn sort_distinct(all: &Vec<String>) -> (sorted: Vec<String>)
    ensures
        is_sorted_set(texts(sorted@), texts(all@)),
        texts(sorted@) == sorted_set(texts(all@)),
{
    let keys = text_keys(all);
    let order = arrange(&keys);
    let ghost views = key_views(keys@);
    let ghost places = arrangement(views);
    let ghost held = texts(all@);
    assert(places.len() == order@.len());
    let mut sorted: Vec<String> = Vec::new();
    let mut i: usize = 0;
    while i < order.len()
        invariant
            i <= order@.len(),
            keys@.len() == all@.len(),
            views == key_views(keys@),
            held == texts(all@),
            forall|k: int|
                0 <= k < all@.len() ==> (#[trigger] keys@[k])@ == (KeyView {
                    score: 0,
                    text: all@[k]@,
                }),
            places == order@.map_values(|p: usize| p as int),
            is_arrangement(views, places),
            forall|n: int, m: int|
                0 <= n < m < sorted@.len() ==> text_less(
                    #[trigger] texts(sorted@)[n],
                    #[trigger] texts(sorted@)[m],
                ),
            forall|n: int| 0 <= n < i ==> texts(sorted@).contains(held[#[trigger] places[n]]),
            forall|n: int| 0 <= n < sorted@.len() ==> held.contains(#[trigger] texts(sorted@)[n]),
            i > 0 ==> sorted@.len() > 0 && sorted@.last()@ == held[places[i - 1]],
            i == 0 ==> sorted@.len() == 0,
        decreases order.len() - i,
    {
        let ghost done = sorted@;
        let place = order[i];
        assert(places[i as int] == place);
        assert(0 <= place < views.len());
        let next = &all[place];
        assert(held[place as int] == next@);
        let fresh: bool = sorted.len() == 0 || !same_text(
            sorted[sorted.len() - 1].as_str(),
            next.as_str(),
        );
        if fresh {
            sorted.push(next.clone());
            proof {
                assert(texts(sorted@) =~= texts(done).push(next@));
                if i > 0 {
                    let last = texts(done).last();
                    assert(before(views, places[i - 1], places[i as int]));
                    text_less_total(last, next@);
                    assert(views[places[i - 1]].text == last);
                    assert(views[place as int].text == next@);
                    assert(text_less(last, next@));
                    assert forall|n: int| 0 <= n < done.len() implies text_less(
                        #[trigger] texts(sorted@)[n],
                        next@,
                    ) by {
                        if n < done.len() - 1 {
                            assert(text_less(texts(done)[n], texts(done)[done.len() - 1]));
                            text_less_transitive(texts(done)[n], last, next@);
                        }
                    }
                    assert forall|n: int, m: int| 0 <= n < m < sorted@.len() implies text_less(
                        #[trigger] texts(sorted@)[n],
                        #[trigger] texts(sorted@)[m],
                    ) by {
                        if m < done.len() {
                            assert(text_less(texts(done)[n], texts(done)[m]));
                        }
                    }
                }
                assert forall|n: int| 0 <= n < i + 1 implies texts(sorted@).contains(
                    held[#[trigger] places[n]],
                ) by {
                    if n < i {
                        let t = held[places[n]];
                        assert(texts(done).contains(t));
                        let p = choose|p: int| 0 <= p < texts(done).len() && texts(done)[p] == t;
                        assert(texts(sorted@)[p] == t);
                    } else {
                        assert(texts(sorted@)[done.len() as int] == next@);
                    }
                }
                assert forall|n: int| 0 <= n < sorted@.len() implies held.contains(
                    #[trigger] texts(sorted@)[n],
                ) by {
                    if n < done.len() {
                        assert(held.contains(texts(done)[n]));
                    } else {
                        assert(held[place as int] == next@);
                    }
                }
            }
        } else {
            proof {
                assert(texts(sorted@)[sorted@.len() - 1] == next@);
            }
        }
        i = i + 1;
    }
    proof {
        assert forall|t: Seq<char>| #[trigger] texts(sorted@).contains(t) <==> held.contains(t) by {
            if held.contains(t) {
                let k = choose|k: int| 0 <= k < held.len() && held[k] == t;
                assert(places.contains(k));
                let n = choose|n: int| 0 <= n < places.len() && places[n] == k;
                assert(texts(sorted@).contains(held[places[n]]));
            }
            if texts(sorted@).contains(t) {
                let n = choose|n: int| 0 <= n < texts(sorted@).len() && texts(sorted@)[n] == t;
                assert(held.contains(texts(sorted@)[n]));
            }
        }
        assert(is_sorted_set(texts(sorted@), held));
        sorted_set_is_unique(texts(sorted@), sorted_set(held), held);
    }
    sorted
}

/// Values in the arrangement of their keys.
pub fn arrange_values(values: &Vec<JsonValue>, keys: &Vec<SortKey>) -> (sorted: Vec<JsonValue>)
    requires
        values@.len() == keys@.len(),
    ensures
        views(sorted@) == arranged(views(values@), key_views(keys@)),
        sorted@.len() == values@.len(),
        is_arrangement(key_views(keys@), arrangement(key_views(keys@))),
{
    let order = arrange(keys);
    let ghost places = arrangement(key_views(keys@));
    assert(places.len() == order@.len());
    let mut sorted: Vec<JsonValue> = Vec::new();
    let mut i: usize = 0;
    while i < order.len()
        invariant
            i <= order@.len(),
            values@.len() == keys@.len(),
            places == order@.map_values(|p: usize| p as int),
            is_arrangement(key_views(keys@), places),
            sorted@.len() == i,
            forall|k: int|
                0 <= k < i ==> (#[trigger] sorted@[k])@ == views(values@)[places[k]],
        decreases order.len() - i,
    {
        let place = order[i];
        assert(places[i as int] == place);
        sorted.push(values[place].clone());
        i = i + 1;
    }
    assert(views(sorted@) =~= arranged(views(values@), key_views(keys@)));
    sorted
}

} // verus!
