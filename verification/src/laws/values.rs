//! What reading and setting the fields of a JSON value gives.

use vstd::prelude::*;

use crate::json::{or_empty, JsonView};
use crate::plan::field_or;
use crate::text::{decimal_text, digit};
use crate::util::{size_at, size_or, text_array_view};
use crate::wire::{hundredths_text, hundredths_view, number_of};

verus! {

/// A field is there exactly where the value is an object with that name, and reads as what it
/// holds: as a text, an integer, a truth value or items only where it is one.
pub proof fn fields_read_as_what_they_hold(fields: Map<Seq<char>, JsonView>, key: Seq<char>)
    ensures
        ({
            let value = JsonView::Object(fields);
            &&& !fields.contains_key(key) ==> value.get(key) is None
            &&& fields.contains_key(key) ==> value.get(key) == Some(fields[key])
            &&& forall|t: Seq<char>| #[trigger]
                value.get(key) == Some(JsonView::Text(t)) ==> value.text_at(key) == Some(t)
            &&& value.text_at(key) matches Some(t) ==> value.get(key) == Some(JsonView::Text(t))
            &&& forall|n: int|
                0 <= n <= u64::MAX && #[trigger] value.get(key) == Some(JsonView::Integer(n))
                    ==> value.uint_at(key) == Some(n)
            &&& value.uint_at(key) matches Some(n) ==> 0 <= n <= u64::MAX && value.get(key) == Some(
                JsonView::Integer(n),
            )
            &&& forall|n: int|
                i64::MIN <= n <= i64::MAX && #[trigger] value.get(key) == Some(JsonView::Integer(n))
                    ==> value.int_at(key) == Some(n)
            &&& value.int_at(key) matches Some(n) ==> i64::MIN <= n <= i64::MAX && value.get(key)
                == Some(JsonView::Integer(n))
            &&& forall|b: bool| #[trigger]
                value.get(key) == Some(JsonView::Bool(b)) ==> value.bool_at(key) == Some(b)
            &&& value.bool_at(key) matches Some(b) ==> value.get(key) == Some(JsonView::Bool(b))
            &&& forall|items: Seq<JsonView>| #[trigger]
                value.get(key) == Some(JsonView::Array(items)) ==> value.items_at(key) == Some(items)
            &&& value.items_at(key) matches Some(items) ==> value.get(key) == Some(
                JsonView::Array(items),
            )
        }),
{
}

/// What is no object has no fields.
pub proof fn only_objects_have_fields(value: JsonView, key: Seq<char>)
    requires
        value !is Object,
    ensures
        value.get(key) is None,
        value.text_at(key) is None,
        value.uint_at(key) is None,
        value.bool_at(key) is None,
        value.items_at(key) is None,
{
}

/// Setting a field sets that field and no other, and taking one away takes away that one and no
/// other.
pub proof fn setting_a_field_leaves_the_others(
    value: JsonView,
    key: Seq<char>,
    held: JsonView,
    other: Seq<char>,
)
    requires
        value is Object,
        other != key,
    ensures
        value.with(key, held).get(key) == Some(held),
        value.with(key, held).get(other) == value.get(other),
        value.without(key).get(key) is None,
        value.without(key).get(other) == value.get(other),
{
}

/// Of two names the first counts where there is such a field.
pub proof fn the_first_name_counts(value: JsonView, first: Seq<char>, second: Seq<char>)
    ensures
        value.get(first) is Some ==> value.get_either(first, second) == value.get(first),
        value.get(first) is None ==> value.get_either(first, second) == value.get(second),
{
}

/// A field that is missing reads as what is given for it.
pub proof fn missing_fields_have_defaults(
    value: JsonView,
    key: Seq<char>,
    other: JsonView,
    default: usize,
    n: usize,
)
    ensures
        value.get(key) matches Some(held) ==> field_or(value, key, other) == held,
        value.get(key) is None ==> field_or(value, key, other) == other,
        value.text_at(key) is None ==> or_empty(value.text_at(key)).len() == 0,
        value.text_at(key) matches Some(t) ==> or_empty(value.text_at(key)) == t,
        value.get(key) == Some(JsonView::Integer(n as int)) ==> size_or(value, key, default) == n
            && size_at(value, key) == Some(n),
        value.uint_at(key) is None ==> size_or(value, key, default) == default && size_at(
            value,
            key,
        ) is None,
{
    assert(n as u64 as usize == n);
}

/// An array of texts holds them in their order.
pub proof fn texts_become_items(texts: Seq<Seq<char>>)
    ensures
        text_array_view(texts) matches JsonView::Array(items) && items.len() == texts.len()
            && forall|i: int|
            0 <= i < texts.len() ==> #[trigger] items[i] == JsonView::Text(texts[i]),
{
}

/// A number of hundredths is written as its whole part, a point and two digits for the rest.
pub proof fn hundredths_have_two_decimals(n: nat) -> (digits: (char, char))
    ensures
        hundredths_text(n) == decimal_text(n / 100) + seq!['.', digits.0, digits.1],
        '0' <= digits.0 <= '9',
        '0' <= digits.1 <= '9',
        (digits.0 as int - '0' as int) * 10 + (digits.1 as int - '0' as int) == n % 100,
        hundredths_view(n) == JsonView::Float(number_of(hundredths_text(n))),
{
    let (a, b) = (digit((n / 10 % 10) as int), digit((n % 10) as int));
    lemma_digit_is(n / 10 % 10);
    lemma_digit_is(n % 10);
    (a, b)
}

proof fn lemma_digit_is(n: nat)
    requires
        n < 10,
    ensures
        '0' <= digit(n as int) <= '9',
        digit(n as int) as int - '0' as int == n,
{
}

} // verus!
