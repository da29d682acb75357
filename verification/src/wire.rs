//! JSON as text and bytes, through `serde_json`.

use vstd::prelude::*;

use crate::json::{
    fields_view, fractional, lemma_array_view, views, Fraction, JsonObject, JsonValue, JsonView,
};
use crate::order::text_less;
use crate::text::{
    ascii_lower, ascii_lowered, decimal, decimal_text, digit, digit_char, has_text, is_ascii,
    lemma_decimal, power_of_ten, same_text, stands_at,
};

verus! {

/// A JSON value as `serde_json` holds it.
#[verifier::external_type_specification]
#[verifier::external_body]
pub struct ExValue(serde_json::Value);

/// Why `serde_json` refused a text.
#[verifier::external_type_specification]
#[verifier::external_body]
pub struct ExError(serde_json::Error);

/// The JSON value that a `serde_json::Value` holds.
pub uninterp spec fn serde_view(value: serde_json::Value) -> JsonView;

/// One layer of a `serde_json::Value`: its kind and what stands directly in it.
pub enum Node {
    Null,
    Bool(bool),
    Uint(u64),
    Int(i64),
    Float(serde_json::Number),
    Text(String),
    Array(Vec<serde_json::Value>),
    Object(Vec<(String, serde_json::Value)>),
}

/// The members of an object. Where two have one name, the later counts.
pub open spec fn members_view(members: Seq<(String, serde_json::Value)>) -> Map<
    Seq<char>,
    JsonView,
>
    decreases members.len(),
{
    if members.len() == 0 {
        Map::empty()
    } else {
        members_view(members.drop_last()).insert(
            members.last().0@,
            serde_view(members.last().1),
        )
    }
}

/// The JSON value that a layer makes.
pub open spec fn node_view(node: Node) -> JsonView {
    match node {
        Node::Null => JsonView::Null,
        Node::Bool(b) => JsonView::Bool(b),
        Node::Uint(n) => JsonView::Integer(n as int),
        Node::Int(n) => JsonView::Integer(n as int),
        Node::Float(n) => JsonView::Float(n),
        Node::Text(t) => JsonView::Text(t@),
        Node::Array(items) => JsonView::Array(
            items@.map_values(|v: serde_json::Value| serde_view(v)),
        ),
        Node::Object(members) => JsonView::Object(members_view(members@)),
    }
}

/// Whether no two members have one name.
pub open spec fn distinct_names(members: Seq<(String, serde_json::Value)>) -> bool {
    forall|i: int, j: int|
        0 <= i < j < members.len() ==> (#[trigger] members[i]).0@ != (#[trigger] members[j]).0@
}

/// The variants of `serde_json::Value` told apart: the layer holds what the value holds, an
/// integer apart from other numbers, and a map hands out each of its names once.
#[verifier::external_body]
fn unpack(value: serde_json::Value) -> (node: Node)
    ensures
        node_view(node) == serde_view(value),
        node matches Node::Object(members) ==> distinct_names(members@),
        node matches Node::Float(n) ==> fractional(n),
{
    match value {
        serde_json::Value::Null => Node::Null,
        serde_json::Value::Bool(b) => Node::Bool(b),
        serde_json::Value::Number(n) => match (n.as_u64(), n.as_i64()) {
            (Some(u), _) => Node::Uint(u),
            (None, Some(i)) => Node::Int(i),
            (None, None) => Node::Float(n),
        },
        serde_json::Value::String(t) => Node::Text(t),
        serde_json::Value::Array(items) => Node::Array(items),
        serde_json::Value::Object(map) => Node::Object(map.into_iter().collect()),
    }
}

/// The variants of `serde_json::Value` put together: the value holds what the layer holds, and
/// a map that is collected from members of different names holds each of them.
#[verifier::external_body]
fn pack(node: Node) -> (value: serde_json::Value)
    requires
        node matches Node::Float(n) ==> fractional(n),
        node matches Node::Object(members) ==> distinct_names(members@),
    ensures
        serde_view(value) == node_view(node),
{
    match node {
        Node::Null => serde_json::Value::Null,
        Node::Bool(b) => serde_json::Value::Bool(b),
        Node::Uint(n) => serde_json::Value::from(n),
        Node::Int(n) => serde_json::Value::from(n),
        Node::Float(n) => serde_json::Value::Number(n),
        Node::Text(t) => serde_json::Value::String(t),
        Node::Array(items) => serde_json::Value::Array(items),
        Node::Object(members) => serde_json::Value::Object(members.into_iter().collect()),
    }
}

proof fn lemma_members_finite(members: Seq<(String, serde_json::Value)>)
    ensures
        members_view(members).dom().finite(),
    decreases members.len(),
{
    if members.len() > 0 {
        lemma_members_finite(members.drop_last());
    }
}

proof fn lemma_member(members: Seq<(String, serde_json::Value)>, i: int)
    requires
        distinct_names(members),
        0 <= i < members.len(),
    ensures
        members_view(members).dom().finite(),
        members_view(members).contains_key(members[i].0@),
        members_view(members)[members[i].0@] == serde_view(members[i].1),
    decreases members.len(),
{
    lemma_members_finite(members);
    if i < members.len() - 1 {
        assert(members[i].0@ != members[members.len() - 1].0@);
        assert(distinct_names(members.drop_last()));
        lemma_member(members.drop_last(), i);
    }
}

/// The value that a `serde_json::Value` holds.
pub fn from_serde(value: serde_json::Value) -> (json: JsonValue)
    ensures
        json@ == serde_view(value),
    decreases serde_view(value),
{
    broadcast use lemma_array_view;

    match unpack(value) {
        Node::Null => JsonValue::Null,
        Node::Bool(b) => JsonValue::Bool(b),
        Node::Uint(n) => JsonValue::Uint(n),
        Node::Int(n) => JsonValue::Int(n),
        Node::Float(n) => JsonValue::Float(Fraction::new(n)),
        Node::Text(t) => JsonValue::Text(t),
        Node::Array(items) => {
            let ghost held = items@.map_values(|v: serde_json::Value| serde_view(v));
            let mut out: Vec<JsonValue> = Vec::new();
            for item in it: items
                invariant
                    held == it.seq().map_values(|v: serde_json::Value| serde_view(v)),
                    serde_view(value) == JsonView::Array(held),
                    views(out@) == held.take(it.index()),
            {
                assert(serde_view(item) == held[it.index()]);
                assert(serde_view(value)->Array_0 == held);
                assert(decreases_to!(serde_view(value) => serde_view(value)->Array_0));
                assert(decreases_to!(held => held[it.index()]));
                let ghost done = out@;
                out.push(from_serde(item));
                assert(views(out@) =~= views(done).push(held[it.index()]));
                assert(held.take(it.index() + 1) =~= held.take(it.index()).push(
                    held[it.index()],
                ));
            }
            assert(held.take(held.len() as int) =~= held);
            JsonValue::Array(out)
        },
        Node::Object(members) => {
            let ghost held = members@;
            let mut fields: Vec<(String, JsonValue)> = Vec::new();
            assert(held.take(0) =~= Seq::empty());
            for member in it: members
                invariant
                    held == it.seq(),
                    distinct_names(held),
                    serde_view(value) == JsonView::Object(members_view(held)),
                    fields_view(fields@) == members_view(held.take(it.index())),
            {
                proof {
                    lemma_member(held, it.index());
                }
                let ghost done = fields@;
                let ghost inner = members_view(held);
                assert(serde_view(value)->Object_0 == inner);
                assert(decreases_to!(serde_view(value) => serde_view(value)->Object_0));
                assert(decreases_to!(inner => inner[member.0@]));
                fields.push((member.0, from_serde(member.1)));
                assert(fields@.drop_last() =~= done);
                assert(held.take(it.index() + 1).drop_last() =~= held.take(it.index()));
            }
            assert(held.take(held.len() as int) =~= held);
            JsonValue::Object(JsonObject { fields })
        },
    }
}

/// A value as a `serde_json::Value`.
pub fn to_serde(value: &JsonValue) -> (held: serde_json::Value)
    ensures
        serde_view(held) == value@,
    decreases value,
{
    broadcast use lemma_array_view;

    match value {
        JsonValue::Null => pack(Node::Null),
        JsonValue::Bool(b) => pack(Node::Bool(*b)),
        JsonValue::Uint(n) => pack(Node::Uint(*n)),
        JsonValue::Int(n) => pack(Node::Int(*n)),
        JsonValue::Float(n) => pack(Node::Float(n.to_number())),
        JsonValue::Text(t) => pack(Node::Text(t.clone())),
        JsonValue::Array(items) => {
            let held = items_to_serde(items);
            pack(Node::Array(held))
        },
        JsonValue::Object(object) => {
            let members = fields_to_serde(&object.fields);
            pack(Node::Object(members))
        },
    }
}

fn items_to_serde(items: &Vec<JsonValue>) -> (held: Vec<serde_json::Value>)
    ensures
        held@.map_values(|v: serde_json::Value| serde_view(v)) == views(items@),
    decreases items,
{
    let mut held: Vec<serde_json::Value> = Vec::new();
    let mut i: usize = 0;
    while i < items.len()
        invariant
            i <= items@.len(),
            held@.len() == i,
            forall|k: int| 0 <= k < i ==> serde_view(#[trigger] held@[k]) == items@[k]@,
        decreases items.len() - i,
    {
        held.push(to_serde(&items[i]));
        i = i + 1;
    }
    assert(held@.map_values(|v: serde_json::Value| serde_view(v)) =~= views(items@));
    held
}

/// Setting a member in the place of the one of its name sets what the name stands for.
proof fn lemma_member_set(
    members: Seq<(String, serde_json::Value)>,
    i: int,
    member: (String, serde_json::Value),
)
    requires
        distinct_names(members),
        0 <= i < members.len(),
        member.0@ == members[i].0@,
    ensures
        distinct_names(members.update(i, member)),
        members_view(members.update(i, member)) == members_view(members).insert(
            member.0@,
            serde_view(member.1),
        ),
    decreases members.len(),
{
    let front = members.drop_last();
    let set = members.update(i, member);
    let wanted = members_view(members).insert(member.0@, serde_view(member.1));
    if i < members.len() - 1 {
        assert(set.drop_last() =~= front.update(i, member));
        assert(distinct_names(front));
        lemma_member_set(front, i, member);
        assert(members[i].0@ != members[members.len() - 1].0@);
    } else {
        assert(set.drop_last() =~= front);
    }
    assert(members_view(set) =~= wanted);
}

/// Puts a member in the place of the one of its name or, where there is none, at the end.
fn put_member(members: &mut Vec<(String, serde_json::Value)>, name: &str, value: serde_json::Value)
    requires
        distinct_names(old(members)@),
    ensures
        distinct_names(final(members)@),
        members_view(final(members)@) == members_view(old(members)@).insert(
            name@,
            serde_view(value),
        ),
{
    let ghost before = members@;
    let mut i: usize = 0;
    while i < members.len()
        invariant
            i <= members@.len(),
            members@ == before,
            before == old(members)@,
            distinct_names(before),
            forall|k: int| 0 <= k < i ==> (#[trigger] members@[k]).0@ != name@,
        decreases members.len() - i,
    {
        if same_text(members[i].0.as_str(), name) {
            members.set(i, (name.to_owned(), value));
            proof {
                lemma_member_set(before, i as int, members@[i as int]);
            }
            return;
        }
        i = i + 1;
    }
    members.push((name.to_owned(), value));
    assert(members@.drop_last() =~= before);
}

fn fields_to_serde(fields: &Vec<(String, JsonValue)>) -> (members: Vec<
    (String, serde_json::Value),
>)
    ensures
        distinct_names(members@),
        members_view(members@) == fields_view(fields@),
    decreases fields,
{
    let mut members: Vec<(String, serde_json::Value)> = Vec::new();
    let mut i: usize = 0;
    assert(fields@.take(0) =~= Seq::empty());
    while i < fields.len()
        invariant
            i <= fields@.len(),
            distinct_names(members@),
            members_view(members@) == fields_view(fields@.take(i as int)),
        decreases fields.len() - i,
    {
        let field = &fields[i];
        put_member(&mut members, field.0.as_str(), to_serde(&field.1));
        i = i + 1;
        assert(fields@.take(i as int).drop_last() =~= fields@.take(i - 1));
    }
    assert(fields@.take(i as int) =~= fields@);
    members
}

// ---------------------------------------------------------------------------
// Text and bytes
// ---------------------------------------------------------------------------

/// A character as it is written in a JSON text: quotes, backslashes and control characters are
/// escaped.
pub open spec fn escaped(c: char) -> Seq<char> {
    if c == '"' || c == '\\' {
        seq!['\\', c]
    } else if c == '\u{8}' {
        seq!['\\', 'b']
    } else if c == '\t' {
        seq!['\\', 't']
    } else if c == '\n' {
        seq!['\\', 'n']
    } else if c == '\u{c}' {
        seq!['\\', 'f']
    } else if c == '\r' {
        seq!['\\', 'r']
    } else if c <= '\u{1f}' {
        seq!['\\', 'u', '0', '0', digit(c as int / 16), digit(c as int % 16)]
    } else {
        seq![c]
    }
}

/// The characters of a text as they are written in JSON.
pub open spec fn escaped_text(text: Seq<char>) -> Seq<char>
    decreases text.len(),
{
    if text.len() == 0 {
        Seq::empty()
    } else {
        escaped(text[0]) + escaped_text(text.skip(1))
    }
}

/// The compact JSON text of a number that is no integer, an array or an object.
pub uninterp spec fn compact_json(value: JsonView) -> Seq<char>;

/// The compact JSON text of a value.
pub open spec fn json_text(value: JsonView) -> Seq<char> {
    match value {
        JsonView::Null => "null"@,
        JsonView::Bool(b) => if b {
            "true"@
        } else {
            "false"@
        },
        JsonView::Integer(n) => if n < 0 {
            seq!['-'] + decimal_text((-n) as nat)
        } else {
            decimal_text(n as nat)
        },
        JsonView::Text(t) => seq!['"'] + escaped_text(t) + seq!['"'],
        _ => compact_json(value),
    }
}

/// `Display` of `serde_json::Value`: null, truth values and integers are written as one expects,
/// a text stands between quotes with its characters escaped where JSON asks for it, and any
/// other text depends on the value that is held alone.
#[verifier::external_body]
fn value_to_string(value: &serde_json::Value) -> (text: String)
    ensures
        text@ == json_text(serde_view(*value)),
        serde_view(*value) is Float || serde_view(*value) is Array || serde_view(*value) is Object
            ==> text@ == compact_json(serde_view(*value)),
{
    value.to_string()
}

/// The compact JSON text of a value.
pub fn render(value: &JsonValue) -> (text: String)
    ensures
        text@ == json_text(value@),
{
    value_to_string(&to_serde(value))
}

/// Whether a text holds no character that is escaped in JSON.
pub open spec fn is_unescaped(text: Seq<char>) -> bool {
    forall|i: int|
        0 <= i < text.len() ==> #[trigger] text[i] > '\u{1f}' && text[i] != '"' && text[i] != '\\'
}

proof fn lemma_escaped_joined(front: Seq<char>, back: Seq<char>)
    ensures
        escaped_text(front + back) == escaped_text(front) + escaped_text(back),
    decreases front.len(),
{
    let whole = front + back;
    if front.len() == 0 {
        assert(whole =~= back);
        assert(escaped_text(whole) =~= escaped_text(front) + escaped_text(back));
    } else {
        lemma_escaped_joined(front.skip(1), back);
        assert(whole.skip(1) =~= front.skip(1) + back);
        assert(escaped_text(whole) =~= escaped_text(front) + escaped_text(back));
    }
}

proof fn lemma_unescaped(text: Seq<char>)
    requires
        is_unescaped(text),
    ensures
        escaped_text(text) == text,
    decreases text.len(),
{
    if text.len() > 0 {
        lemma_unescaped(text.skip(1));
        assert(seq![text[0]] + text.skip(1) =~= text);
    } else {
        assert(escaped_text(text) =~= text);
    }
}

/// What stands in a text and holds nothing to escape stands in its JSON text too.
pub proof fn escaping_keeps_plain_words(text: Seq<char>, word: Seq<char>)
    requires
        has_text(text, word),
        is_unescaped(word),
    ensures
        has_text(escaped_text(text), word),
{
    let at = choose|at: int| stands_at(text, word, at);
    let front = text.take(at);
    let back = text.skip(at + word.len());
    assert(text =~= front + (word + back));
    lemma_escaped_joined(front, word + back);
    lemma_escaped_joined(word, back);
    lemma_unescaped(word);
    let from = escaped_text(front).len() as int;
    assert(escaped_text(text).subrange(from, from + word.len()) =~= word);
    assert(stands_at(escaped_text(text), word, from));
}

proof fn lemma_digit_is_lowercase(n: int)
    requires
        0 <= n < 16,
    ensures
        digit(n) <= '\u{7f}',
        ascii_lower(digit(n)) == digit(n),
{
    let digits =
        seq!['0', '1', '2', '3', '4', '5', '6', '7', '8', '9', 'a', 'b', 'c', 'd', 'e', 'f'];
    assert forall|k: int| 0 <= k < 16 implies #[trigger] digits[k] <= '\u{7f}' && ascii_lower(
        digits[k],
    ) == digits[k] by {}
    assert(digit(n) == digits[n]);
}

proof fn lemma_escaped_char(c: char)
    requires
        c <= '\u{7f}',
    ensures
        is_ascii(escaped(c)),
        ascii_lowered(escaped(c)) == escaped(ascii_lower(c)),
{
    if c <= '\u{1f}' {
        lemma_digit_is_lowercase(c as int / 16);
        lemma_digit_is_lowercase(c as int % 16);
    }
    assert(ascii_lowered(escaped(c)) =~= escaped(ascii_lower(c)));
}

/// The JSON text of an ASCII text is ASCII, and escaping and putting into lowercase can change
/// places.
pub proof fn escaping_keeps_ascii(text: Seq<char>)
    requires
        is_ascii(text),
    ensures
        is_ascii(escaped_text(text)),
        ascii_lowered(escaped_text(text)) == escaped_text(ascii_lowered(text)),
    decreases text.len(),
{
    if text.len() > 0 {
        let c = text[0];
        let rest = text.skip(1);
        escaping_keeps_ascii(rest);
        assert(ascii_lowered(text).skip(1) =~= ascii_lowered(rest));
        assert(c <= '\u{7f}');
        lemma_escaped_char(c);
        assert(ascii_lowered(escaped_text(text)) =~= ascii_lowered(escaped(c)) + ascii_lowered(
            escaped_text(rest),
        ));
    } else {
        assert(ascii_lowered(escaped_text(text)) =~= escaped_text(ascii_lowered(text)));
    }
}

/// The value that bytes hold as JSON, or why they hold none, in words.
pub uninterp spec fn parsed_json(bytes: Seq<u8>) -> Result<JsonView, Seq<char>>;

/// Whether bytes hold a value as JSON.
pub open spec fn reads_as(bytes: Seq<u8>, value: JsonView) -> bool {
    parsed_json(bytes) == Ok::<JsonView, Seq<char>>(value)
}

/// Whether bytes hold no JSON, for a reason in words.
pub open spec fn reads_not(bytes: Seq<u8>, reason: Seq<char>) -> bool {
    parsed_json(bytes) == Err::<JsonView, Seq<char>>(reason)
}

/// `serde_json::from_slice`, read as a `Value`: whether it succeeds, with which value, and what
/// its error says otherwise, depends on the bytes alone.
#[verifier::external_body]
fn value_from_slice(bytes: &[u8]) -> (value: Result<serde_json::Value, String>)
    ensures
        match value {
            Ok(v) => parsed_json(bytes@) == Ok::<JsonView, Seq<char>>(serde_view(v)),
            Err(e) => parsed_json(bytes@) == Err::<JsonView, Seq<char>>(e@),
        },
{
    match serde_json::from_slice(bytes) {
        Ok(v) => Ok(v),
        Err(e) => Err(e.to_string()),
    }
}

/// The value that bytes hold as JSON, or why they hold none, in words.
pub fn parse(bytes: &[u8]) -> (value: Result<JsonValue, String>)
    ensures
        match value {
            Ok(v) => reads_as(bytes@, v@),
            Err(e) => reads_not(bytes@, e@),
        },
{
    match value_from_slice(bytes) {
        Ok(v) => Ok(from_serde(v)),
        Err(e) => Err(e),
    }
}

/// The indented JSON text of a value, as bytes.
pub uninterp spec fn pretty_json(value: JsonView) -> Seq<u8>;

/// Whether the name by which `serde_json` marks a raw value is not the first of an object's
/// names, in the order of texts, in which the names of an object are written.
pub open spec fn begins_plainly(fields: Map<Seq<char>, JsonView>) -> bool {
    fields.contains_key("$serde_json::private::RawValue"@) ==> exists|k: Seq<char>| #[trigger]
        fields.contains_key(k) && text_less(k, "$serde_json::private::RawValue"@)
}

/// How long the numbers of a value are that are no integers: fifteen digits at most, two hundred
/// before the point at most, or of any length.
pub enum Digits {
    Few,
    Many,
    Any,
}

/// Whether a number is one of a decimal text of that length.
pub open spec fn has_digits(number: serde_json::Number, digits: Digits) -> bool {
    match digits {
        Digits::Few => exists|text: Seq<char>| #[trigger]
            short_decimal(text) && number == number_of(text),
        Digits::Many => exists|text: Seq<char>| #[trigger]
            long_decimal(text) && number == number_of(text),
        Digits::Any => true,
    }
}

/// Whether a value is one that JSON gives back when it is written and read, but perhaps for its
/// numbers: integers of 64 bits, other numbers of that length, no object that begins with the
/// mark of a raw value, and no more than `depth` layers of arrays and objects.
pub open spec fn readable(value: JsonView, depth: nat, digits: Digits) -> bool
    decreases depth,
{
    match value {
        JsonView::Integer(n) => i64::MIN <= n <= u64::MAX,
        JsonView::Float(n) => has_digits(n, digits),
        JsonView::Array(items) => depth > 0 && forall|i: int|
            0 <= i < items.len() ==> readable(#[trigger] items[i], (depth - 1) as nat, digits),
        JsonView::Object(fields) => depth > 0 && begins_plainly(fields) && forall|k: Seq<char>|
            fields.contains_key(k) ==> readable(#[trigger] fields[k], (depth - 1) as nat, digits),
        _ => true,
    }
}

/// Whether a value that was read is the one that was written, except that numbers of more than
/// fifteen digits that are no integers may be others of their kind.
pub open spec fn alike(value: JsonView, read: JsonView, depth: nat) -> bool
    decreases depth,
{
    match value {
        JsonView::Float(n) => read is Float && (has_digits(n, Digits::Few) ==> read == value),
        JsonView::Array(items) => {
            &&& depth > 0
            &&& read matches JsonView::Array(others)
            &&& others.len() == items.len()
            &&& forall|i: int|
                0 <= i < items.len() ==> alike(#[trigger] items[i], others[i], (depth - 1) as nat)
        },
        JsonView::Object(fields) => {
            &&& depth > 0
            &&& read matches JsonView::Object(others)
            &&& others.dom() == fields.dom()
            &&& forall|k: Seq<char>|
                fields.contains_key(k) ==> alike(
                    #[trigger] fields[k],
                    others[k],
                    (depth - 1) as nat,
                )
        },
        _ => read == value,
    }
}

/// What bytes hold that were written of a value: the value, but perhaps for its long numbers.
/// They hold none only where a number is too long.
pub open spec fn reads_like(bytes: Seq<u8>, value: JsonView) -> bool {
    match parsed_json(bytes) {
        Ok(read) => alike(value, read, 127),
        Err(_) => !readable(value, 127, Digits::Many),
    }
}

/// A value that JSON gives back is one that it gives back but perhaps for its numbers.
pub proof fn lemma_readable(value: JsonView, depth: nat, digits: Digits)
    requires
        readable(value, depth, Digits::Few),
    ensures
        readable(value, depth, digits),
    decreases depth,
{
    match value {
        JsonView::Float(n) => {
            let text = choose|text: Seq<char>| #[trigger]
                short_decimal(text) && n == number_of(text);
            lemma_short_is_long(text);
        },
        JsonView::Array(items) => {
            assert forall|i: int| 0 <= i < items.len() implies readable(
                #[trigger] items[i],
                (depth - 1) as nat,
                digits,
            ) by {
                lemma_readable(items[i], (depth - 1) as nat, digits);
            }
        },
        JsonView::Object(fields) => {
            assert forall|k: Seq<char>| fields.contains_key(k) implies readable(
                #[trigger] fields[k],
                (depth - 1) as nat,
                digits,
            ) by {
                lemma_readable(fields[k], (depth - 1) as nat, digits);
            }
        },
        _ => {},
    }
}

/// A value without long numbers that was read is the one that was written.
pub proof fn lemma_alike_is_same(value: JsonView, read: JsonView, depth: nat)
    requires
        readable(value, depth, Digits::Few),
        alike(value, read, depth),
    ensures
        read == value,
    decreases depth,
{
    match value {
        JsonView::Array(items) => {
            let others = read->Array_0;
            assert forall|i: int| 0 <= i < items.len() implies others[i] == #[trigger] items[i] by {
                lemma_alike_is_same(items[i], others[i], (depth - 1) as nat);
            }
            assert(others =~= items);
        },
        JsonView::Object(fields) => {
            let others = read->Object_0;
            assert forall|k: Seq<char>| fields.contains_key(k) implies others[k]
                == #[trigger] fields[k] by {
                lemma_alike_is_same(fields[k], others[k], (depth - 1) as nat);
            }
            assert(others =~= fields);
        },
        _ => {},
    }
}

/// `serde_json::to_vec_pretty` on a `Value`: it does not fail, since such a value names its
/// members by strings, and the bytes depend on the value that is held alone. Where no more than
/// 127 layers nest and no object begins with the name that marks a raw value, what `from_slice`
/// reads of the bytes is that value, except at numbers that are no integers and have more than
/// fifteen digits, which it reads as numbers of their kind without exact rounding. It reads
/// something wherever those numbers have no more than two hundred digits before the point. Of
/// larger ones that is left unsaid: near the end of their range the rounding may exceed it.
#[verifier::external_body]
fn value_to_pretty(value: &serde_json::Value) -> (bytes: Result<Vec<u8>, serde_json::Error>)
    ensures
        bytes is Ok,
        bytes matches Ok(b) ==> b@ == pretty_json(serde_view(*value)),
        bytes matches Ok(b) ==> readable(serde_view(*value), 127, Digits::Any) ==> reads_like(
            b@,
            serde_view(*value),
        ),
{
    serde_json::to_vec_pretty(value)
}

/// The indented JSON text of a value, as bytes; reading them gives the value back, but perhaps
/// for its long numbers.
pub fn encode_pretty(value: &JsonValue) -> (bytes: Vec<u8>)
    ensures
        bytes@ == pretty_json(value@),
        readable(value@, 127, Digits::Any) ==> reads_like(bytes@, value@),
        readable(value@, 127, Digits::Few) ==> reads_as(bytes@, value@),
{
    let bytes = match value_to_pretty(&to_serde(value)) {
        Ok(bytes) => bytes,
        Err(_) => Vec::new(),
    };
    proof {
        if readable(value@, 127, Digits::Few) {
            lemma_readable(value@, 127, Digits::Any);
            lemma_readable(value@, 127, Digits::Many);
            lemma_alike_is_same(value@, parsed_json(bytes@)->Ok_0, 127);
        }
    }
    bytes
}

// ---------------------------------------------------------------------------
// Numbers in hundredths
// ---------------------------------------------------------------------------

/// The number that a decimal text stands for.
pub uninterp spec fn number_of(text: Seq<char>) -> serde_json::Number;

/// Whether a text is made of digits alone.
pub open spec fn is_digits(text: Seq<char>) -> bool {
    forall|i: int| 0 <= i < text.len() ==> '0' <= #[trigger] text[i] <= '9'
}

/// Whether a text is digits, a point at a place and digits again, and begins with no zero that
/// could be left out.
pub open spec fn is_decimal(text: Seq<char>, point: int) -> bool {
    &&& 0 < point < text.len() - 1
    &&& text[point] == '.'
    &&& is_digits(text.take(point))
    &&& is_digits(text.skip(point + 1))
    &&& text[0] == '0' ==> point == 1
}

/// A text without a sign in front.
pub open spec fn unsigned(text: Seq<char>) -> Seq<char> {
    if text.len() > 0 && text[0] == '-' {
        text.skip(1)
    } else {
        text
    }
}

/// Whether a text is a decimal number of fifteen digits at most, with a sign or without.
pub open spec fn short_decimal(text: Seq<char>) -> bool {
    unsigned(text).len() <= 16 && exists|point: int| is_decimal(unsigned(text), point)
}

/// Whether a text is a decimal number of two hundred digits before the point at most, with a
/// sign or without.
pub open spec fn long_decimal(text: Seq<char>) -> bool {
    exists|point: int| point <= 200 && is_decimal(unsigned(text), point)
}

proof fn lemma_short_is_long(text: Seq<char>)
    requires
        short_decimal(text),
    ensures
        long_decimal(text),
{
    let point = choose|point: int| is_decimal(unsigned(text), point);
    assert(point <= 200 && is_decimal(unsigned(text), point));
}

/// `FromStr` of `serde_json::Number`: a decimal number of fifteen digits at most is read, as a
/// number that is held as no integer, and the number depends on the text alone.
#[verifier::external_body]
fn number_from_str(text: &str) -> (number: Result<serde_json::Number, serde_json::Error>)
    ensures
        short_decimal(text@) ==> number is Ok,
        number matches Ok(n) ==> n == number_of(text@),
        number matches Ok(n) ==> short_decimal(text@) ==> fractional(n),
{
    text.parse::<serde_json::Number>()
}

/// Hundredths with two decimals.
pub open spec fn hundredths_text(n: nat) -> Seq<char> {
    decimal_text(n / 100) + seq!['.', digit((n / 10 % 10) as int), digit((n % 10) as int)]
}

/// A number of hundredths as a JSON value.
pub open spec fn hundredths_view(n: nat) -> JsonView {
    JsonView::Float(number_of(hundredths_text(n)))
}

/// A number of hundredths that fits 32 bits has few digits.
pub proof fn hundredths_are_short(n: nat)
    requires
        n <= u32::MAX,
    ensures
        short_decimal(hundredths_text(n)),
{
    let whole = decimal_text(n / 100);
    let text = hundredths_text(n);
    reveal_with_fuel(power_of_ten, 9);
    lemma_decimal(n / 100, 8);
    assert(text.take(whole.len() as int) =~= whole);
    assert(text.skip(whole.len() as int + 1) =~= seq![
        digit((n / 10 % 10) as int),
        digit((n % 10) as int),
    ]);
    assert(text[0] == whole[0]);
    assert(unsigned(text) == text);
    assert(is_decimal(unsigned(text), whole.len() as int));
}

/// A number of hundredths as a JSON value.
pub fn hundredths(n: u32) -> (value: JsonValue)
    ensures
        value@ == hundredths_view(n as nat),
{
    let mut text = decimal((n / 100) as u64);
    text.push('.');
    text.push(digit_char((n / 10 % 10) as u8));
    text.push(digit_char((n % 10) as u8));
    assert(text@ =~= hundredths_text(n as nat));
    proof {
        hundredths_are_short(n as nat);
    }
    match number_from_str(text.as_str()) {
        Ok(number) => JsonValue::Float(Fraction::new(number)),
        Err(_) => JsonValue::Null,
    }
}

} // verus!
