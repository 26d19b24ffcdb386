//! JSON values.
//!
//! Requests to and replies from model services are JSON. `Json` is the value
//! the library works on; its view `JsonView` takes an object as a finite map
//! from keys to values, so contracts do not depend on the order of fields.
//! Text is read and written by `serde_json`.

use serde_json::Value;
use vstd::prelude::*;

use crate::text::{copy_str, str_eq};

verus! {

/// The number type of `serde_json`, carried through unopened.
#[verifier::external_type_specification]
#[verifier::external_body]
pub struct ExNumber(serde_json::Number);

/// The value type of `serde_json`, carried through unopened.
#[verifier::external_type_specification]
#[verifier::external_body]
pub struct ExValue(Value);

/// A number that is not an integer from 0 up, as `serde_json` holds it. Such
/// numbers arise from reading text only.
#[derive(Debug)]
pub struct OtherNumber {
    number: serde_json::Number,
}

/// A JSON number.
#[derive(Debug)]
pub enum JsonNumber {
    /// An integer from 0 up.
    Unsigned(u64),
    /// Every other number: below 0, with a fraction, or above 64 bits.
    Other(OtherNumber),
}

/// The fields of a JSON object. Where a key occurs twice, the later field counts.
#[derive(Debug)]
pub struct Object {
    pub fields: Vec<(String, Json)>,
}

/// A JSON value.
#[derive(Debug)]
pub enum Json {
    Null,
    Bool(bool),
    Number(JsonNumber),
    Str(String),
    Array(Vec<Json>),
    Object(Object),
}

/// The mathematical value of a JSON value.
#[verifier::ext_equal]
pub enum JsonView {
    Null,
    Bool(bool),
    Number(JsonNumber),
    Str(Seq<char>),
    Array(Seq<JsonView>),
    Object(Map<Seq<char>, JsonView>),
}

/// The value of `j`.
pub open spec fn json_view(j: Json) -> JsonView
    decreases j,
{
    match j {
        Json::Null => JsonView::Null,
        Json::Bool(b) => JsonView::Bool(b),
        Json::Number(n) => JsonView::Number(n),
        Json::Str(s) => JsonView::Str(s@),
        Json::Array(items) => JsonView::Array(items_view(items@)),
        Json::Object(o) => JsonView::Object(fields_view(o.fields@)),
    }
}

/// The values of the items, in order.
pub open spec fn items_view(items: Seq<Json>) -> Seq<JsonView>
    decreases items,
{
    Seq::new(
        items.len(),
        |i: int|
            if 0 <= i < items.len() {
                json_view(items[i])
            } else {
                JsonView::Null
            },
    )
}

/// The map that the fields make.
pub open spec fn fields_view(fields: Seq<(String, Json)>) -> Map<Seq<char>, JsonView>
    decreases fields,
{
    if fields.len() == 0 {
        Map::empty()
    } else {
        fields_view(fields.drop_last()).insert(fields.last().0@, json_view(fields.last().1))
    }
}

impl View for Json {
    type V = JsonView;

    open spec fn view(&self) -> JsonView {
        json_view(*self)
    }
}

impl View for Object {
    type V = Map<Seq<char>, JsonView>;

    open spec fn view(&self) -> Map<Seq<char>, JsonView> {
        fields_view(self.fields@)
    }
}

/// The value under `key`, where there is one.
pub open spec fn lookup(m: Map<Seq<char>, JsonView>, key: Seq<char>) -> Option<JsonView> {
    if m.contains_key(key) {
        Some(m[key])
    } else {
        None
    }
}

impl JsonView {
    /// The field `key` of an object.
    pub open spec fn field(self, key: Seq<char>) -> Option<JsonView> {
        match self {
            JsonView::Object(m) => lookup(m, key),
            _ => None,
        }
    }

    /// The item at position `i` of an array.
    pub open spec fn item(self, i: int) -> Option<JsonView> {
        match self {
            JsonView::Array(s) => if 0 <= i < s.len() {
                Some(s[i])
            } else {
                None
            },
            _ => None,
        }
    }

    /// The characters of a string.
    pub open spec fn text(self) -> Option<Seq<char>> {
        match self {
            JsonView::Str(s) => Some(s),
            _ => None,
        }
    }

    /// The items of an array.
    pub open spec fn items(self) -> Option<Seq<JsonView>> {
        match self {
            JsonView::Array(s) => Some(s),
            _ => None,
        }
    }

    /// The number, where it is an integer from 0 up.
    pub open spec fn unsigned(self) -> Option<u64> {
        match self {
            JsonView::Number(JsonNumber::Unsigned(n)) => Some(n),
            _ => None,
        }
    }

    /// The truth value.
    pub open spec fn truth(self) -> Option<bool> {
        match self {
            JsonView::Bool(b) => Some(b),
            _ => None,
        }
    }

    /// The characters of the string under `key`.
    pub open spec fn field_text(self, key: Seq<char>) -> Option<Seq<char>> {
        match self.field(key) {
            Some(v) => v.text(),
            None => None,
        }
    }

    /// The items of the array under `key`.
    pub open spec fn field_items(self, key: Seq<char>) -> Option<Seq<JsonView>> {
        match self.field(key) {
            Some(v) => v.items(),
            None => None,
        }
    }

    /// The integer from 0 up under `key`.
    pub open spec fn field_unsigned(self, key: Seq<char>) -> Option<u64> {
        match self.field(key) {
            Some(v) => v.unsigned(),
            None => None,
        }
    }

    /// The truth value under `key`.
    pub open spec fn field_truth(self, key: Seq<char>) -> Option<bool> {
        match self.field(key) {
            Some(v) => v.truth(),
            None => None,
        }
    }

    /// The field `inner` of the object under `outer`.
    pub open spec fn path(self, outer: Seq<char>, inner: Seq<char>) -> Option<JsonView> {
        match self.field(outer) {
            Some(v) => v.field(inner),
            None => None,
        }
    }
}

/// The value of an optional JSON value.
pub open spec fn opt_json(j: Option<Json>) -> Option<JsonView> {
    match j {
        Some(v) => Some(v@),
        None => None,
    }
}

/// The value of an optional reference to a JSON value.
pub open spec fn opt_ref(j: Option<&Json>) -> Option<JsonView> {
    match j {
        Some(v) => Some(v@),
        None => None,
    }
}

/// The outcome of reading a text, over values.
pub open spec fn json_result(r: Result<Json, String>) -> Result<JsonView, Seq<char>> {
    match r {
        Ok(j) => Ok(j@),
        Err(e) => Err(e@),
    }
}

/// What a `serde_json::Value` holds.
pub uninterp spec fn value_json(value: Value) -> JsonView;

/// What `serde_json::from_str` makes of a text: the value, or the text of the error.
pub uninterp spec fn parsed_json(text: Seq<char>) -> Result<JsonView, Seq<char>>;

/// The compact text that `serde_json` writes for a value.
pub uninterp spec fn json_text(value: JsonView) -> Seq<char>;

/// Calls `serde_json::from_str`. What comes back, the value or the text of the
/// error, is a function of the text alone.
#[verifier::external_body]
fn value_from_text(text: &str) -> (r: Result<Value, String>)
    ensures
        match r {
            Ok(v) => parsed_json(text@) == Ok::<JsonView, Seq<char>>(value_json(v)),
            Err(e) => parsed_json(text@) == Err::<JsonView, Seq<char>>(e@),
        },
{
    serde_json::from_str::<Value>(text).map_err(|e| e.to_string())
}

/// Calls `serde_json::Value::to_string`, which writes the value without white
/// space. The text is a function of what the value holds.
#[verifier::external_body]
fn text_of_value(value: &Value) -> (r: String)
    ensures
        r@ == json_text(value_json(*value)),
{
    value.to_string()
}

/// Turns a `serde_json::Value` into the library's value, variant by variant.
#[verifier::external_body]
fn json_of_value(value: Value) -> (r: Json)
    ensures
        r@ == value_json(value),
{
    match value {
        Value::Null => Json::Null,
        Value::Bool(b) => Json::Bool(b),
        Value::Number(n) => match n.as_u64() {
            Some(u) => Json::Number(JsonNumber::Unsigned(u)),
            None => Json::Number(JsonNumber::Other(OtherNumber { number: n })),
        },
        Value::String(s) => Json::Str(s),
        Value::Array(v) => Json::Array(v.into_iter().map(json_of_value).collect()),
        Value::Object(m) => Json::Object(Object { fields: m.into_iter().map(|(k, v)| (k, json_of_value(v))).collect() }),
    }
}

/// Turns the library's value into a `serde_json::Value`, variant by variant. The
/// fields of an object are put in one after another with `serde_json::Map::insert`,
/// which replaces the value of a key that is there already.
#[verifier::external_body]
fn value_of_json(json: &Json) -> (r: Value)
    ensures
        value_json(r) == json@,
{
    match json {
        Json::Null => Value::Null,
        Json::Bool(b) => Value::Bool(*b),
        Json::Number(JsonNumber::Unsigned(n)) => Value::from(*n),
        Json::Number(JsonNumber::Other(other)) => Value::Number(other.number.clone()),
        Json::Str(s) => Value::String(s.clone()),
        Json::Array(v) => Value::Array(v.iter().map(value_of_json).collect()),
        Json::Object(o) => {
            let mut map = serde_json::Map::new();
            for (k, v) in o.fields.iter() {
                map.insert(k.clone(), value_of_json(v));
            }
            Value::Object(map)
        },
    }
}

/// The JSON value of an integer.
pub uninterp spec fn integer_json(n: int) -> JsonView;

/// Calls `serde_json::Value::from` on an integer. The value is a function of the
/// integer; from 0 up it is that integer.
#[verifier::external_body]
fn value_of_integer(n: i64) -> (r: Value)
    ensures
        value_json(r) == integer_json(n as int),
        n >= 0 ==> value_json(r) == JsonView::Number(JsonNumber::Unsigned(n as u64)),
{
    Value::from(n)
}

/// Clones a `serde_json::Number`; the clone is the same number.
#[verifier::external_body]
fn copy_number(number: &serde_json::Number) -> (r: serde_json::Number)
    ensures
        r == *number,
{
    number.clone()
}

/// The fields looked up one by one from the last make the map.
proof fn lemma_fields_lookup(fields: Seq<(String, Json)>, key: Seq<char>)
    requires
        fields.len() > 0,
    ensures
        lookup(fields_view(fields), key) == if fields.last().0@ == key {
            Some(json_view(fields.last().1))
        } else {
            lookup(fields_view(fields.drop_last()), key)
        },
{
}

/// An object has finitely many fields.
pub proof fn lemma_fields_finite(fields: Seq<(String, Json)>)
    ensures
        fields_view(fields).dom().finite(),
    decreases fields.len(),
{
    if fields.len() > 0 {
        lemma_fields_finite(fields.drop_last());
    }
}

impl Object {
    /// An object without fields.
    pub fn new() -> (r: Object)
        ensures
            r@ == Map::<Seq<char>, JsonView>::empty(),
    {
        Object { fields: Vec::new() }
    }

    /// Puts `value` under `key`, in place of what was there.
    pub fn set(&mut self, key: &str, value: Json)
        ensures
            final(self)@ == old(self)@.insert(key@, value@),
    {
        let ghost before = self.fields@;
        self.fields.push((copy_str(key), value));
        assert(self.fields@.drop_last() == before);
    }

    /// The value under `key`.
    pub fn get(&self, key: &str) -> (r: Option<&Json>)
        ensures
            opt_ref(r) == lookup(self@, key@),
            r is Some ==> decreases_to!(self => r->0),
    {
        let mut i: usize = self.fields.len();
        assert(self.fields@.take(i as int) == self.fields@);
        while i > 0
            invariant
                i <= self.fields@.len(),
                lookup(fields_view(self.fields@.take(i as int)), key@) == lookup(self@, key@),
            decreases i,
        {
            proof {
                lemma_fields_lookup(self.fields@.take(i as int), key@);
                assert(self.fields@.take(i as int).drop_last() == self.fields@.take(i - 1));
            }
            if str_eq(self.fields[i - 1].0.as_str(), key) {
                assert(decreases_to!(self => self.fields@[i - 1].1));
                return Some(&self.fields[i - 1].1);
            }
            i -= 1;
        }
        None
    }

    /// An object without the field `key`.
    pub fn without(&self, key: &str) -> (r: Object)
        ensures
            r@ == self@.remove(key@),
    {
        let ghost all = self.fields@;
        let mut fields: Vec<(String, Json)> = Vec::new();
        assert(Map::<Seq<char>, JsonView>::empty().remove(key@) =~= Map::empty());
        let mut i: usize = 0;
        while i < self.fields.len()
            invariant
                i <= self.fields@.len(),
                all == self.fields@,
                fields_view(fields@) == fields_view(all.take(i as int)).remove(key@),
            decreases self.fields@.len() - i,
        {
            let ghost before = fields@;
            let ghost m = fields_view(all.take(i as int));
            let ghost k = all[i as int].0@;
            let ghost v = json_view(all[i as int].1);
            assert(all.take(i + 1).drop_last() == all.take(i as int));
            if !str_eq(self.fields[i].0.as_str(), key) {
                fields.push((self.fields[i].0.clone(), self.fields[i].1.copy()));
                assert(fields@.drop_last() == before);
                assert(m.remove(key@).insert(k, v) =~= m.insert(k, v).remove(key@));
            } else {
                assert(m.insert(k, v).remove(key@) =~= m.remove(key@));
            }
            i += 1;
        }
        assert(all.take(all.len() as int) == all);
        Object { fields }
    }

    /// An object with the same fields.
    pub fn copy(&self) -> (r: Object)
        ensures
            r@ == self@,
        decreases self,
    {
        let mut fields: Vec<(String, Json)> = Vec::new();
        let mut i: usize = 0;
        while i < self.fields.len()
            invariant
                i <= self.fields@.len(),
                fields_view(fields@) == fields_view(self.fields@.take(i as int)),
            decreases self.fields@.len() - i,
        {
            let ghost before = fields@;
            assert(decreases_to!(self => self.fields@[i as int].1));
            fields.push((self.fields[i].0.clone(), self.fields[i].1.copy()));
            assert(fields@.drop_last() == before);
            assert(self.fields@.take(i + 1).drop_last() == self.fields@.take(i as int));
            i += 1;
        }
        assert(self.fields@.take(self.fields@.len() as int) == self.fields@);
        Object { fields }
    }
}

impl Json {
    /// A JSON string.
    pub fn string(s: &str) -> (r: Json)
        ensures
            r@ == JsonView::Str(s@),
    {
        Json::Str(copy_str(s))
    }

    /// A JSON number.
    pub fn unsigned(n: u64) -> (r: Json)
        ensures
            r@ == JsonView::Number(JsonNumber::Unsigned(n)),
    {
        Json::Number(JsonNumber::Unsigned(n))
    }

    /// The value of an integer.
    pub fn integer(n: i64) -> (r: Json)
        ensures
            r@ == integer_json(n as int),
            n >= 0 ==> r@ == JsonView::Number(JsonNumber::Unsigned(n as u64)),
    {
        json_of_value(value_of_integer(n))
    }

    /// The value that a text stands for, or the text of the error.
    pub fn parse(text: &str) -> (r: Result<Json, String>)
        ensures
            json_result(r) == parsed_json(text@),
    {
        match value_from_text(text) {
            Ok(v) => Ok(json_of_value(v)),
            Err(e) => Err(e),
        }
    }

    /// The compact text of the value.
    pub fn to_text(&self) -> (r: String)
        ensures
            r@ == json_text(self@),
    {
        let value = value_of_json(self);
        text_of_value(&value)
    }

    /// The same value once more.
    pub fn copy(&self) -> (r: Json)
        ensures
            r@ == self@,
        decreases self,
    {
        match self {
            Json::Null => Json::Null,
            Json::Bool(b) => Json::Bool(*b),
            Json::Number(JsonNumber::Unsigned(n)) => Json::Number(JsonNumber::Unsigned(*n)),
            Json::Number(JsonNumber::Other(o)) => Json::Number(
                JsonNumber::Other(OtherNumber { number: copy_number(&o.number) }),
            ),
            Json::Str(s) => Json::Str(s.clone()),
            Json::Array(v) => Json::Array(copy_items(v)),
            Json::Object(o) => Json::Object(o.copy()),
        }
    }

    /// The field `key` of an object.
    pub fn get(&self, key: &str) -> (r: Option<&Json>)
        ensures
            opt_ref(r) == self@.field(key@),
            r is Some ==> decreases_to!(self => r->0),
    {
        match self {
            Json::Object(o) => o.get(key),
            _ => None,
        }
    }

    /// The item at position `i` of an array.
    pub fn item(&self, i: usize) -> (r: Option<&Json>)
        ensures
            opt_ref(r) == self@.item(i as int),
    {
        match self {
            Json::Array(v) => if i < v.len() {
                Some(&v[i])
            } else {
                None
            },
            _ => None,
        }
    }

    /// The characters of a string.
    pub fn as_str(&self) -> (r: Option<&str>)
        ensures
            crate::text::opt_str(r) == self@.text(),
    {
        match self {
            Json::Str(s) => Some(s.as_str()),
            _ => None,
        }
    }

    /// The items of an array.
    pub fn as_array(&self) -> (r: Option<&Vec<Json>>)
        ensures
            match r {
                Some(v) => self@.items() == Some(items_view(v@)) && decreases_to!(self => v),
                None => self@.items() is None,
            },
    {
        match self {
            Json::Array(v) => Some(v),
            _ => None,
        }
    }

    /// The number, where it is an integer from 0 up.
    pub fn as_u64(&self) -> (r: Option<u64>)
        ensures
            r == self@.unsigned(),
    {
        match self {
            Json::Number(JsonNumber::Unsigned(n)) => Some(*n),
            _ => None,
        }
    }

    /// The truth value.
    pub fn as_bool(&self) -> (r: Option<bool>)
        ensures
            r == self@.truth(),
    {
        match self {
            Json::Bool(b) => Some(*b),
            _ => None,
        }
    }

    /// Whether the value is null.
    pub fn is_null(&self) -> (r: bool)
        ensures
            r == (self@ is Null),
    {
        match self {
            Json::Null => true,
            _ => false,
        }
    }

    /// The characters of the string under `key`.
    pub fn get_str(&self, key: &str) -> (r: Option<&str>)
        ensures
            crate::text::opt_str(r) == self@.field_text(key@),
    {
        match self.get(key) {
            Some(v) => v.as_str(),
            None => None,
        }
    }

    /// Whether the string `value` stands under `key`.
    pub fn field_is(&self, key: &str, value: &str) -> (r: bool)
        ensures
            r == (self@.field_text(key@) == Some(value@)),
    {
        match self.get_str(key) {
            Some(t) => str_eq(t, value),
            None => false,
        }
    }

    /// The items of the array under `key`.
    pub fn get_array(&self, key: &str) -> (r: Option<&Vec<Json>>)
        ensures
            match r {
                Some(v) => self@.field_items(key@) == Some(items_view(v@)) && decreases_to!(
                    self => v,
                ),
                None => self@.field_items(key@) is None,
            },
    {
        match self.get(key) {
            Some(v) => v.as_array(),
            None => None,
        }
    }

    /// The integer from 0 up under `key`.
    pub fn get_u64(&self, key: &str) -> (r: Option<u64>)
        ensures
            r == self@.field_unsigned(key@),
    {
        match self.get(key) {
            Some(v) => v.as_u64(),
            None => None,
        }
    }

    /// The truth value under `key`.
    pub fn get_bool(&self, key: &str) -> (r: Option<bool>)
        ensures
            r == self@.field_truth(key@),
    {
        match self.get(key) {
            Some(v) => v.as_bool(),
            None => None,
        }
    }

    /// The field `inner` of the object under `outer`.
    pub fn get_path(&self, outer: &str, inner: &str) -> (r: Option<&Json>)
        ensures
            opt_ref(r) == self@.path(outer@, inner@),
    {
        match self.get(outer) {
            Some(v) => v.get(inner),
            None => None,
        }
    }
}

/// The same values once more.
pub fn copy_items(items: &Vec<Json>) -> (r: Vec<Json>)
    ensures
        items_view(r@) == items_view(items@),
    decreases items,
{
    let mut out: Vec<Json> = Vec::new();
    let mut i: usize = 0;
    while i < items.len()
        invariant
            i <= items@.len(),
            items_view(out@) == items_view(items@.take(i as int)),
        decreases items@.len() - i,
    {
        let ghost before = out@;
        assert(decreases_to!(items => items@[i as int]));
        out.push(items[i].copy());
        assert(items_view(out@) == items_view(before).push(json_view(items@[i as int])));
        assert(items_view(items@.take(i + 1)) == items_view(items@.take(i as int)).push(
            json_view(items@[i as int]),
        ));
        i += 1;
    }
    assert(items@.take(items@.len() as int) == items@);
    out
}

} // verus!
