//! JSON trees as plain values, and how they are read and built.

use vstd::prelude::*;

use crate::text::same_text;

verus! {

/// A JSON number that is not an integer, as `serde_json` keeps it. Only carried, never read.
#[verifier::external_type_specification]
#[verifier::external_body]
pub struct ExNumber(serde_json::Number);

/// `Clone` of `serde_json::Number`: the clone is the same number.
pub assume_specification[ <serde_json::Number as Clone>::clone ](
    number: &serde_json::Number,
) -> (copy: serde_json::Number)
    ensures
        copy == *number,
;

/// Whether a number is no integer of 64 bits: neither `Number::as_u64` nor `Number::as_i64`
/// gives one.
pub uninterp spec fn fractional(number: serde_json::Number) -> bool;

/// A number that is no integer of 64 bits.
pub struct Fraction {
    number: serde_json::Number,
}

impl Fraction {
    #[verifier::type_invariant]
    spec fn is_fractional(self) -> bool {
        fractional(self.number)
    }

    /// The number itself.
    pub closed spec fn number(self) -> serde_json::Number {
        self.number
    }

    pub(crate) fn new(number: serde_json::Number) -> (fraction: Fraction)
        requires
            fractional(number),
        ensures
            fraction.number() == number,
    {
        Fraction { number }
    }

    pub(crate) fn to_number(&self) -> (number: serde_json::Number)
        ensures
            number == self.number(),
            fractional(number),
    {
        proof {
            use_type_invariant(self);
        }
        self.number.clone()
    }
}

/// A JSON value.
pub enum JsonValue {
    Null,
    Bool(bool),
    /// An integer that is not negative.
    Uint(u64),
    /// An integer that may be negative.
    Int(i64),
    /// A number that is not an integer.
    Float(Fraction),
    Text(String),
    Array(Vec<JsonValue>),
    Object(JsonObject),
}

/// The fields of a JSON object. Of two fields with one name the later counts.
pub struct JsonObject {
    pub fields: Vec<(String, JsonValue)>,
}

/// What a JSON value means: an integer is its value, an object is a map from names to values.
pub enum JsonView {
    Null,
    Bool(bool),
    Integer(int),
    Float(serde_json::Number),
    Text(Seq<char>),
    Array(Seq<JsonView>),
    Object(Map<Seq<char>, JsonView>),
}

pub open spec fn json_view(value: JsonValue) -> JsonView
    decreases value,
{
    match value {
        JsonValue::Null => JsonView::Null,
        JsonValue::Bool(b) => JsonView::Bool(b),
        JsonValue::Uint(n) => JsonView::Integer(n as int),
        JsonValue::Int(n) => JsonView::Integer(n as int),
        JsonValue::Float(n) => JsonView::Float(n.number()),
        JsonValue::Text(t) => JsonView::Text(t@),
        JsonValue::Array(items) => JsonView::Array(
            Seq::new(
                items@.len(),
                |i: int| if 0 <= i < items@.len() { json_view(items@[i]) } else { JsonView::Null },
            ),
        ),
        JsonValue::Object(object) => JsonView::Object(fields_view(object.fields@)),
    }
}

pub open spec fn fields_view(fields: Seq<(String, JsonValue)>) -> Map<Seq<char>, JsonView>
    decreases fields,
{
    if fields.len() == 0 {
        Map::empty()
    } else {
        fields_view(fields.drop_last()).insert(fields.last().0@, json_view(fields.last().1))
    }
}

impl View for JsonValue {
    type V = JsonView;

    open spec fn view(&self) -> JsonView {
        json_view(*self)
    }
}

impl View for JsonObject {
    type V = Map<Seq<char>, JsonView>;

    open spec fn view(&self) -> Map<Seq<char>, JsonView> {
        fields_view(self.fields@)
    }
}

/// The meanings of the values in a sequence.
pub open spec fn views(values: Seq<JsonValue>) -> Seq<JsonView> {
    values.map_values(|v: JsonValue| v@)
}

/// An array means the sequence of what its items mean.
pub broadcast proof fn lemma_array_view(items: Vec<JsonValue>)
    ensures
        #[trigger] json_view(JsonValue::Array(items)) == JsonView::Array(views(items@)),
{
    assert(json_view(JsonValue::Array(items))->Array_0 =~= views(items@));
}

// ---------------------------------------------------------------------------
// Reading
// ---------------------------------------------------------------------------

impl JsonView {
    /// The field of that name, where the value is an object that has one.
    pub open spec fn get(self, key: Seq<char>) -> Option<JsonView> {
        match self {
            JsonView::Object(fields) => if fields.contains_key(key) {
                Some(fields[key])
            } else {
                None
            },
            _ => None,
        }
    }

    /// The text, where the value is one.
    pub open spec fn as_text(self) -> Option<Seq<char>> {
        match self {
            JsonView::Text(t) => Some(t),
            _ => None,
        }
    }

    /// The integer, where the value is one that an unsigned 64-bit number holds.
    pub open spec fn as_uint(self) -> Option<int> {
        match self {
            JsonView::Integer(n) => if 0 <= n <= u64::MAX {
                Some(n)
            } else {
                None
            },
            _ => None,
        }
    }

    /// The integer, where the value is one that a signed 64-bit number holds.
    pub open spec fn as_int(self) -> Option<int> {
        match self {
            JsonView::Integer(n) => if i64::MIN <= n <= i64::MAX {
                Some(n)
            } else {
                None
            },
            _ => None,
        }
    }

    /// The truth value, where the value is one.
    pub open spec fn as_bool(self) -> Option<bool> {
        match self {
            JsonView::Bool(b) => Some(b),
            _ => None,
        }
    }

    /// The items, where the value is an array.
    pub open spec fn as_items(self) -> Option<Seq<JsonView>> {
        match self {
            JsonView::Array(items) => Some(items),
            _ => None,
        }
    }

    /// The text in the field of that name.
    pub open spec fn text_at(self, key: Seq<char>) -> Option<Seq<char>> {
        match self.get(key) {
            Some(v) => v.as_text(),
            None => None,
        }
    }

    /// The unsigned integer in the field of that name.
    pub open spec fn uint_at(self, key: Seq<char>) -> Option<int> {
        match self.get(key) {
            Some(v) => v.as_uint(),
            None => None,
        }
    }

    /// The signed integer in the field of that name.
    pub open spec fn int_at(self, key: Seq<char>) -> Option<int> {
        match self.get(key) {
            Some(v) => v.as_int(),
            None => None,
        }
    }

    /// The truth value in the field of that name.
    pub open spec fn bool_at(self, key: Seq<char>) -> Option<bool> {
        match self.get(key) {
            Some(v) => v.as_bool(),
            None => None,
        }
    }

    /// The items of the array in the field of that name.
    pub open spec fn items_at(self, key: Seq<char>) -> Option<Seq<JsonView>> {
        match self.get(key) {
            Some(v) => v.as_items(),
            None => None,
        }
    }

    /// The field of the first name or, where there is none, that of the second.
    pub open spec fn get_either(self, first: Seq<char>, second: Seq<char>) -> Option<JsonView> {
        match self.get(first) {
            Some(v) => Some(v),
            None => self.get(second),
        }
    }

    /// Whether a field can be set: on an object, or on null, which then becomes one.
    pub open spec fn settable(self) -> bool {
        self is Object || self is Null
    }

    /// The value with the field of that name set.
    pub open spec fn with(self, key: Seq<char>, value: JsonView) -> JsonView {
        match self {
            JsonView::Object(fields) => JsonView::Object(fields.insert(key, value)),
            _ => JsonView::Object(Map::empty().insert(key, value)),
        }
    }

    /// The value without the field of that name.
    pub open spec fn without(self, key: Seq<char>) -> JsonView {
        match self {
            JsonView::Object(fields) => JsonView::Object(fields.remove(key)),
            _ => self,
        }
    }
}

/// The text, or the empty text where there is none.
pub open spec fn or_empty(text: Option<Seq<char>>) -> Seq<char> {
    match text {
        Some(t) => t,
        None => Seq::empty(),
    }
}

/// What an optional borrowed value means.
pub open spec fn optional_view(value: Option<&JsonValue>) -> Option<JsonView> {
    match value {
        Some(v) => Some(v@),
        None => None,
    }
}

/// Setting the last field of a name sets what the name stands for.
proof fn lemma_field_set(fields: Seq<(String, JsonValue)>, i: int, field: (String, JsonValue))
    requires
        0 <= i < fields.len(),
        field.0@ == fields[i].0@,
        forall|k: int| i < k < fields.len() ==> (#[trigger] fields[k]).0@ != field.0@,
    ensures
        fields_view(fields.update(i, field)) == fields_view(fields).insert(field.0@, field.1@),
    decreases fields.len(),
{
    let front = fields.drop_last();
    let set = fields.update(i, field);
    if i < fields.len() - 1 {
        assert(set.drop_last() =~= front.update(i, field));
        lemma_field_set(front, i, field);
        assert(fields[fields.len() - 1].0@ != field.0@);
        assert(fields_view(set) =~= fields_view(fields).insert(field.0@, field.1@));
    } else {
        assert(set.drop_last() =~= front);
        assert(fields_view(set) =~= fields_view(fields).insert(field.0@, field.1@));
    }
}

impl JsonObject {
    /// An object without fields.
    pub fn new() -> (object: JsonObject)
        ensures
            object@ == Map::<Seq<char>, JsonView>::empty(),
    {
        JsonObject { fields: Vec::new() }
    }

    /// The object with one more field; a field of that name that it has already is replaced.
    pub fn put(self, key: &str, value: JsonValue) -> (object: JsonObject)
        ensures
            object@ == self@.insert(key@, value@),
    {
        let mut fields = self.fields;
        let ghost before = fields@;
        let mut i: usize = fields.len();
        while i > 0
            invariant
                i <= fields@.len(),
                fields@ == before,
                before == self.fields@,
                forall|k: int| i <= k < fields@.len() ==> (#[trigger] fields@[k]).0@ != key@,
            decreases i,
        {
            i = i - 1;
            if same_text(fields[i].0.as_str(), key) {
                fields.set(i, (key.to_owned(), value));
                proof {
                    lemma_field_set(before, i as int, fields@[i as int]);
                }
                return JsonObject { fields };
            }
        }
        fields.push((key.to_owned(), value));
        assert(fields@.drop_last() =~= before);
        JsonObject { fields }
    }

    /// The object as a value.
    pub fn value(self) -> (value: JsonValue)
        ensures
            value@ == JsonView::Object(self@),
    {
        JsonValue::Object(self)
    }

    /// The field of that name.
    pub fn get(&self, key: &str) -> (value: Option<&JsonValue>)
        ensures
            optional_view(value) == JsonView::Object(self@).get(key@),
    {
        let mut i: usize = self.fields.len();
        assert(self.fields@.take(i as int) =~= self.fields@);
        while i > 0
            invariant
                i <= self.fields@.len(),
                JsonView::Object(self@).get(key@) == JsonView::Object(
                    fields_view(self.fields@.take(i as int)),
                ).get(key@),
            decreases i,
        {
            i = i - 1;
            assert(self.fields@.take(i + 1).drop_last() =~= self.fields@.take(i as int));
            let field = &self.fields[i];
            if same_text(field.0.as_str(), key) {
                return Some(&field.1);
            }
        }
        None
    }

    /// The object without the fields of that name.
    pub fn remove(self, key: &str) -> (object: JsonObject)
        ensures
            object@ == self@.remove(key@),
    {
        let mut fields: Vec<(String, JsonValue)> = Vec::new();
        let mut i: usize = 0;
        assert(fields_view(fields@) =~= fields_view(self.fields@.take(0)).remove(key@));
        while i < self.fields.len()
            invariant
                i <= self.fields@.len(),
                fields_view(fields@) == fields_view(self.fields@.take(i as int)).remove(key@),
            decreases self.fields.len() - i,
        {
            let ghost before = fields@;
            let field = &self.fields[i];
            assert(self.fields@.take(i + 1).drop_last() =~= self.fields@.take(i as int));
            if !same_text(field.0.as_str(), key) {
                fields.push((field.0.clone(), field.1.clone()));
                assert(fields@.drop_last() =~= before);
            }
            assert(fields_view(fields@) =~= fields_view(self.fields@.take(i + 1)).remove(key@));
            i = i + 1;
        }
        assert(self.fields@.take(i as int) =~= self.fields@);
        JsonObject { fields }
    }
}

impl JsonValue {
    /// A text value.
    pub fn text(text: &str) -> (value: JsonValue)
        ensures
            value@ == JsonView::Text(text@),
    {
        JsonValue::Text(text.to_owned())
    }

    /// A text where there is one, else null.
    pub fn optional_text(text: &Option<String>) -> (value: JsonValue)
        ensures
            value@ == optional_text_view(crate::text::optional_text(*text)),
    {
        match text {
            Some(t) => JsonValue::Text(t.clone()),
            None => JsonValue::Null,
        }
    }

    /// The field of that name, where the value is an object that has one.
    pub fn get(&self, key: &str) -> (value: Option<&JsonValue>)
        ensures
            optional_view(value) == self@.get(key@),
    {
        match self {
            JsonValue::Object(object) => object.get(key),
            _ => None,
        }
    }

    /// The field of the first name or, where there is none, that of the second.
    pub fn get_either(&self, first: &str, second: &str) -> (value: Option<&JsonValue>)
        ensures
            optional_view(value) == self@.get_either(first@, second@),
    {
        match self.get(first) {
            Some(v) => Some(v),
            None => self.get(second),
        }
    }

    /// The text, where the value is one.
    pub fn as_str(&self) -> (text: Option<&str>)
        ensures
            crate::text::optional_str(text) == self@.as_text(),
    {
        match self {
            JsonValue::Text(t) => Some(t.as_str()),
            _ => None,
        }
    }

    /// The integer, where the value is one that an unsigned 64-bit number holds.
    pub fn as_u64(&self) -> (number: Option<u64>)
        ensures
            match number {
                Some(n) => self@.as_uint() == Some(n as int),
                None => self@.as_uint() is None,
            },
    {
        match self {
            JsonValue::Uint(n) => Some(*n),
            JsonValue::Int(n) => if *n >= 0 {
                Some(*n as u64)
            } else {
                None
            },
            _ => None,
        }
    }

    /// The integer, where the value is one that a signed 64-bit number holds.
    pub fn as_i64(&self) -> (number: Option<i64>)
        ensures
            match number {
                Some(n) => self@.as_int() == Some(n as int),
                None => self@.as_int() is None,
            },
    {
        match self {
            JsonValue::Uint(n) => if *n <= i64::MAX as u64 {
                Some(*n as i64)
            } else {
                None
            },
            JsonValue::Int(n) => Some(*n),
            _ => None,
        }
    }

    /// The truth value, where the value is one.
    pub fn as_bool(&self) -> (answer: Option<bool>)
        ensures
            answer == self@.as_bool(),
    {
        match self {
            JsonValue::Bool(b) => Some(*b),
            _ => None,
        }
    }

    /// The items, where the value is an array.
    pub fn as_array(&self) -> (items: Option<&Vec<JsonValue>>)
        ensures
            match items {
                Some(v) => self@.as_items() == Some(views(v@)),
                None => self@.as_items() is None,
            },
    {
        broadcast use lemma_array_view;

        match self {
            JsonValue::Array(items) => Some(items),
            _ => None,
        }
    }

    /// The value with the field of that name set.
    pub fn with(self, key: &str, value: JsonValue) -> (result: JsonValue)
        requires
            self@.settable(),
        ensures
            result@ == self@.with(key@, value@),
    {
        match self {
            JsonValue::Object(object) => object.put(key, value).value(),
            _ => JsonObject::new().put(key, value).value(),
        }
    }

    /// The value without the field of that name.
    pub fn without(self, key: &str) -> (result: JsonValue)
        ensures
            result@ == self@.without(key@),
    {
        match self {
            JsonValue::Object(object) => object.remove(key).value(),
            other => other,
        }
    }
}

/// A text as a JSON value, or null where there is none.
pub open spec fn optional_text_view(text: Option<Seq<char>>) -> JsonView {
    match text {
        Some(t) => JsonView::Text(t),
        None => JsonView::Null,
    }
}

// ---------------------------------------------------------------------------
// Copying
// ---------------------------------------------------------------------------

fn copy_value(value: &JsonValue) -> (copy: JsonValue)
    ensures
        copy@ == value@,
    decreases value,
{
    broadcast use lemma_array_view;

    match value {
        JsonValue::Null => JsonValue::Null,
        JsonValue::Bool(b) => JsonValue::Bool(*b),
        JsonValue::Uint(n) => JsonValue::Uint(*n),
        JsonValue::Int(n) => JsonValue::Int(*n),
        JsonValue::Float(n) => JsonValue::Float(Fraction::new(n.to_number())),
        JsonValue::Text(t) => JsonValue::Text(t.clone()),
        JsonValue::Array(items) => JsonValue::Array(copy_items(items)),
        JsonValue::Object(object) => JsonValue::Object(
            JsonObject { fields: copy_fields(&object.fields) },
        ),
    }
}

fn copy_items(items: &Vec<JsonValue>) -> (copy: Vec<JsonValue>)
    ensures
        views(copy@) == views(items@),
    decreases items,
{
    let mut copy: Vec<JsonValue> = Vec::new();
    let mut i: usize = 0;
    while i < items.len()
        invariant
            i <= items@.len(),
            copy@.len() == i,
            forall|k: int| 0 <= k < i ==> (#[trigger] copy@[k])@ == items@[k]@,
        decreases items.len() - i,
    {
        copy.push(copy_value(&items[i]));
        i = i + 1;
    }
    assert(views(copy@) =~= views(items@));
    copy
}

fn copy_fields(fields: &Vec<(String, JsonValue)>) -> (copy: Vec<(String, JsonValue)>)
    ensures
        fields_view(copy@) == fields_view(fields@),
    decreases fields,
{
    let mut copy: Vec<(String, JsonValue)> = Vec::new();
    let mut i: usize = 0;
    assert(copy@ =~= fields@.take(0));
    while i < fields.len()
        invariant
            i <= fields@.len(),
            fields_view(copy@) == fields_view(fields@.take(i as int)),
        decreases fields.len() - i,
    {
        let ghost before = copy@;
        let field = &fields[i];
        copy.push((field.0.clone(), copy_value(&field.1)));
        i = i + 1;
        assert(copy@.drop_last() =~= before);
        assert(fields@.take(i as int).drop_last() =~= fields@.take(i - 1));
    }
    assert(fields@.take(i as int) =~= fields@);
    copy
}

impl Clone for JsonValue {
    fn clone(&self) -> (copy: JsonValue)
        ensures
            copy@ == self@,
    {
        copy_value(self)
    }
}

} // verus!
