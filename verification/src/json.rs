//! JSON values, and reading and writing them with `serde_json`.

use crate::assoc;
use crate::text;
use vstd::prelude::*;

verus! {

/// A JSON value.
///
/// An unsigned number is one that fits 64 bits; a negative one is a negative number that fits 64
/// bits with a sign. Any other number is given by the text it is written as.
pub enum Json {
    Null,
    Bool(bool),
    Unsigned(u64),
    Negative(i64),
    Float(Seq<char>),
    Text(Seq<char>),
    List(Seq<Json>),
    Object(Seq<(Seq<char>, Json)>),
}

impl Json {
    /// What stands under `key`, where the value is an object that has it.
    pub open spec fn field(self, key: Seq<char>) -> Option<Json> {
        match self {
            Json::Object(fields) => assoc::lookup(fields, key),
            _ => None,
        }
    }

    pub open spec fn as_text(self) -> Option<Seq<char>> {
        match self {
            Json::Text(s) => Some(s),
            _ => None,
        }
    }

    pub open spec fn as_unsigned(self) -> Option<u64> {
        match self {
            Json::Unsigned(n) => Some(n),
            _ => None,
        }
    }

    pub open spec fn as_boolean(self) -> Option<bool> {
        match self {
            Json::Bool(b) => Some(b),
            _ => None,
        }
    }

    pub open spec fn as_list(self) -> Option<Seq<Json>> {
        match self {
            Json::List(items) => Some(items),
            _ => None,
        }
    }

    pub open spec fn as_fields(self) -> Option<Seq<(Seq<char>, Json)>> {
        match self {
            Json::Object(fields) => Some(fields),
            _ => None,
        }
    }

    /// The text under `key`.
    pub open spec fn text_field(self, key: Seq<char>) -> Option<Seq<char>> {
        match self.field(key) {
            Some(v) => v.as_text(),
            None => None,
        }
    }

    /// The unsigned number under `key`.
    pub open spec fn unsigned_field(self, key: Seq<char>) -> Option<u64> {
        match self.field(key) {
            Some(v) => v.as_unsigned(),
            None => None,
        }
    }

    /// The boolean under `key`.
    pub open spec fn boolean_field(self, key: Seq<char>) -> Option<bool> {
        match self.field(key) {
            Some(v) => v.as_boolean(),
            None => None,
        }
    }

    /// The list under `key`.
    pub open spec fn list_field(self, key: Seq<char>) -> Option<Seq<Json>> {
        match self.field(key) {
            Some(v) => v.as_list(),
            None => None,
        }
    }

    /// The entries of the object under `key`.
    pub open spec fn fields_field(self, key: Seq<char>) -> Option<Seq<(Seq<char>, Json)>> {
        match self.field(key) {
            Some(v) => v.as_fields(),
            None => None,
        }
    }
}

/// A text, or null.
pub open spec fn text_or_null(s: Option<Seq<char>>) -> Json {
    match s {
        Some(t) => Json::Text(t),
        None => Json::Null,
    }
}

#[derive(Debug, PartialEq, Eq)]
pub enum JsonValue {
    Null,
    Bool(bool),
    Unsigned(u64),
    Negative(i64),
    Float(String),
    Text(String),
    List(Vec<JsonValue>),
    Object(Vec<(String, JsonValue)>),
}

/// The JSON value that a `JsonValue` holds.
pub open spec fn value_view(value: JsonValue) -> Json
    decreases value,
{
    match value {
        JsonValue::Null => Json::Null,
        JsonValue::Bool(b) => Json::Bool(b),
        JsonValue::Unsigned(n) => Json::Unsigned(n),
        JsonValue::Negative(n) => Json::Negative(n),
        JsonValue::Float(s) => Json::Float(s@),
        JsonValue::Text(s) => Json::Text(s@),
        JsonValue::List(v) => Json::List(
            Seq::new(
                v@.len(),
                |i: int|
                    if 0 <= i < v@.len() {
                        value_view(v@[i])
                    } else {
                        Json::Null
                    },
            ),
        ),
        JsonValue::Object(v) => Json::Object(
            Seq::new(
                v@.len(),
                |i: int|
                    if 0 <= i < v@.len() {
                        (v@[i].0@, value_view(v@[i].1))
                    } else {
                        (Seq::empty(), Json::Null)
                    },
            ),
        ),
    }
}

impl View for JsonValue {
    type V = Json;

    open spec fn view(&self) -> Json {
        value_view(*self)
    }
}

/// The items of a list.
pub open spec fn items_view(v: Seq<JsonValue>) -> Seq<Json> {
    Seq::new(v.len(), |i: int| v[i]@)
}

/// The entries of an object.
pub open spec fn fields_view(v: Seq<(String, JsonValue)>) -> Seq<(Seq<char>, Json)> {
    Seq::new(v.len(), |i: int| (v[i].0@, v[i].1@))
}

pub proof fn lemma_list_view(v: Vec<JsonValue>)
    ensures
        JsonValue::List(v)@ == Json::List(items_view(v@)),
{
    assert(JsonValue::List(v)@->List_0 =~= items_view(v@));
}

pub proof fn lemma_object_view(v: Vec<(String, JsonValue)>)
    ensures
        JsonValue::Object(v)@ == Json::Object(fields_view(v@)),
{
    assert(JsonValue::Object(v)@->Object_0 =~= fields_view(v@));
}

impl Clone for JsonValue {
    fn clone(&self) -> (r: JsonValue)
        ensures
            r@ == self@,
        decreases self,
    {
        match self {
            JsonValue::Null => JsonValue::Null,
            JsonValue::Bool(b) => JsonValue::Bool(*b),
            JsonValue::Unsigned(n) => JsonValue::Unsigned(*n),
            JsonValue::Negative(n) => JsonValue::Negative(*n),
            JsonValue::Float(s) => JsonValue::Float(s.clone()),
            JsonValue::Text(s) => JsonValue::Text(s.clone()),
            JsonValue::List(v) => {
                let mut out: Vec<JsonValue> = Vec::new();
                let mut i: usize = 0;
                while i < v.len()
                    invariant
                        i <= v@.len(),
                        out@.len() == i,
                        decreases_to!(self => v),
                        forall|k: int| 0 <= k < i ==> (#[trigger] out@[k])@ == v@[k]@,
                    decreases v@.len() - i,
                {
                    out.push(v[i].clone());
                    i += 1;
                }
                let r = JsonValue::List(out);
                assert(r@->List_0 =~= self@->List_0);
                r
            },
            JsonValue::Object(v) => {
                let mut out: Vec<(String, JsonValue)> = Vec::new();
                let mut i: usize = 0;
                while i < v.len()
                    invariant
                        i <= v@.len(),
                        out@.len() == i,
                        decreases_to!(self => v),
                        forall|k: int|
                            0 <= k < i ==> (#[trigger] out@[k]).0@ == v@[k].0@ && out@[k].1@
                                == v@[k].1@,
                    decreases v@.len() - i,
                {
                    out.push((v[i].0.clone(), v[i].1.clone()));
                    i += 1;
                }
                let r = JsonValue::Object(out);
                assert(r@->Object_0 =~= self@->Object_0);
                r
            },
        }
    }
}

/// Looks a name up among the entries of an object.
pub fn find_field<'a>(fields: &'a Vec<(String, JsonValue)>, key: &str) -> (r: Option<&'a JsonValue>)
    ensures
        match r {
            Some(v) => assoc::lookup(fields_view(fields@), key@) == Some(v@),
            None => assoc::lookup(fields_view(fields@), key@) is None,
        },
{
    proof {
        assert(assoc::names(fields@) =~= assoc::keys(fields_view(fields@)));
    }
    match assoc::position(fields, key) {
        Some(i) => Some(&fields[i].1),
        None => None,
    }
}

/// Puts a value under a name: in place of what stood there, or as a new last entry.
pub fn set_field(fields: &mut Vec<(String, JsonValue)>, key: &str, value: JsonValue)
    ensures
        fields_view(final(fields)@) == assoc::set(fields_view(old(fields)@), key@, value@),
{
    let ghost before = fields_view(fields@);
    proof {
        assert(assoc::names(fields@) =~= assoc::keys(before));
    }
    match assoc::position(fields, key) {
        Some(i) => {
            fields.set(i, (text::owned(key), value));
            proof {
                assert(fields_view(fields@) =~= before.update(i as int, (key@, value@)));
            }
        },
        None => {
            fields.push((text::owned(key), value));
            proof {
                assert(fields_view(fields@) =~= before.push((key@, value@)));
            }
        },
    }
}

impl JsonValue {
    pub fn get(&self, key: &str) -> (r: Option<&JsonValue>)
        ensures
            match r {
                Some(v) => self@.field(key@) == Some(v@),
                None => self@.field(key@) is None,
            },
    {
        match self {
            JsonValue::Object(fields) => {
                proof {
                    lemma_object_view(*fields);
                }
                find_field(fields, key)
            },
            _ => None,
        }
    }

    pub fn as_str(&self) -> (r: Option<&str>)
        ensures
            match r {
                Some(s) => self@.as_text() == Some(s@),
                None => self@.as_text() is None,
            },
    {
        match self {
            JsonValue::Text(s) => Some(s.as_str()),
            _ => None,
        }
    }

    pub fn as_u64(&self) -> (r: Option<u64>)
        ensures
            r == self@.as_unsigned(),
    {
        match self {
            JsonValue::Unsigned(n) => Some(*n),
            _ => None,
        }
    }

    pub fn as_bool(&self) -> (r: Option<bool>)
        ensures
            r == self@.as_boolean(),
    {
        match self {
            JsonValue::Bool(b) => Some(*b),
            _ => None,
        }
    }

    pub fn as_array(&self) -> (r: Option<&Vec<JsonValue>>)
        ensures
            match r {
                Some(v) => self@.as_list() == Some(items_view(v@)),
                None => self@.as_list() is None,
            },
    {
        match self {
            JsonValue::List(v) => {
                proof {
                    lemma_list_view(*v);
                }
                Some(v)
            },
            _ => None,
        }
    }

    pub fn as_object(&self) -> (r: Option<&Vec<(String, JsonValue)>>)
        ensures
            match r {
                Some(v) => self@.as_fields() == Some(fields_view(v@)),
                None => self@.as_fields() is None,
            },
    {
        match self {
            JsonValue::Object(v) => {
                proof {
                    lemma_object_view(*v);
                }
                Some(v)
            },
            _ => None,
        }
    }

    pub fn is_null(&self) -> (r: bool)
        ensures
            r == (self@ is Null),
    {
        match self {
            JsonValue::Null => true,
            _ => false,
        }
    }

    pub fn get_str(&self, key: &str) -> (r: Option<&str>)
        ensures
            match r {
                Some(s) => self@.text_field(key@) == Some(s@),
                None => self@.text_field(key@) is None,
            },
    {
        match self.get(key) {
            Some(v) => v.as_str(),
            None => None,
        }
    }

    pub fn get_u64(&self, key: &str) -> (r: Option<u64>)
        ensures
            r == self@.unsigned_field(key@),
    {
        match self.get(key) {
            Some(v) => v.as_u64(),
            None => None,
        }
    }

    pub fn get_bool(&self, key: &str) -> (r: Option<bool>)
        ensures
            r == self@.boolean_field(key@),
    {
        match self.get(key) {
            Some(v) => v.as_bool(),
            None => None,
        }
    }

    pub fn get_array(&self, key: &str) -> (r: Option<&Vec<JsonValue>>)
        ensures
            match r {
                Some(v) => self@.list_field(key@) == Some(items_view(v@)),
                None => self@.list_field(key@) is None,
            },
    {
        match self.get(key) {
            Some(v) => v.as_array(),
            None => None,
        }
    }

    pub fn get_object(&self, key: &str) -> (r: Option<&Vec<(String, JsonValue)>>)
        ensures
            match r {
                Some(v) => self@.fields_field(key@) == Some(fields_view(v@)),
                None => self@.fields_field(key@) is None,
            },
    {
        match self.get(key) {
            Some(v) => v.as_object(),
            None => None,
        }
    }
}

/// A text, or null.
pub fn optional_text(s: &Option<String>) -> (r: JsonValue)
    ensures
        r@ == text_or_null(text::optional_view(*s)),
{
    match s {
        Some(t) => JsonValue::Text(t.clone()),
        None => JsonValue::Null,
    }
}

/// `serde_json`'s own tree of values.
#[verifier::external_type_specification]
#[verifier::external_body]
pub struct ExValue(serde_json::Value);

/// What a `serde_json::Value` holds.
pub uninterp spec fn json_of(value: serde_json::Value) -> Json;

/// The `serde_json::Value` for a JSON value.
pub uninterp spec fn serde_value(json: Json) -> serde_json::Value;

/// What `serde_json::from_str` reads from a text; `None` where it reports an error.
pub uninterp spec fn serde_parse(text: Seq<char>) -> Option<serde_json::Value>;

/// What `serde_json::to_string_pretty` writes; `None` where it reports an error.
pub uninterp spec fn serde_pretty(value: serde_json::Value) -> Option<Seq<char>>;

/// `serde_json::from_str::<serde_json::Value>`: its result depends on the text alone.
#[verifier::external_body]
fn read_value(text: &str) -> (r: Option<serde_json::Value>)
    ensures
        r == serde_parse(text@),
{
    serde_json::from_str::<serde_json::Value>(text).ok()
}

/// `serde_json::to_string_pretty` on a `serde_json::Value`: its result depends on the value alone.
#[verifier::external_body]
fn write_pretty(value: &serde_json::Value) -> (r: Option<String>)
    ensures
        match r {
            Some(s) => serde_pretty(*value) == Some(s@),
            None => serde_pretty(*value) is None,
        },
{
    serde_json::to_string_pretty(value).ok()
}

/// The contents of a `serde_json::Value`, node by node. A number comes as `as_u64` or `as_i64`
/// gives it, any other as the text that its `to_string` writes.
#[verifier::external_body]
fn from_serde(value: serde_json::Value) -> (r: JsonValue)
    ensures
        r@ == json_of(value),
{
    match value {
        serde_json::Value::Null => JsonValue::Null,
        serde_json::Value::Bool(b) => JsonValue::Bool(b),
        serde_json::Value::Number(n) => match (n.as_u64(), n.as_i64()) {
            (Some(u), _) => JsonValue::Unsigned(u),
            (None, Some(i)) => JsonValue::Negative(i),
            (None, None) => JsonValue::Float(n.to_string()),
        },
        serde_json::Value::String(s) => JsonValue::Text(s),
        serde_json::Value::Array(v) => JsonValue::List(v.into_iter().map(from_serde).collect()),
        serde_json::Value::Object(m) => JsonValue::Object(
            m.into_iter().map(|(k, v)| (k, from_serde(v))).collect()),
    }
}

/// The `serde_json::Value` of a JSON value, node by node; it depends on that value alone. A number
/// given as text is read back by `parse` and handed to `Number::from_f64`.
#[verifier::external_body]
fn to_serde(value: &JsonValue) -> (r: serde_json::Value)
    ensures
        r == serde_value(value@),
{
    match value {
        JsonValue::Null => serde_json::Value::Null,
        JsonValue::Bool(b) => serde_json::Value::Bool(*b),
        JsonValue::Unsigned(n) => serde_json::Value::from(*n),
        JsonValue::Negative(n) => serde_json::Value::from(*n),
        JsonValue::Float(s) => serde_json::Number::from_f64(s.parse().unwrap_or_default()).into(),
        JsonValue::Text(s) => serde_json::Value::String(s.clone()),
        JsonValue::List(v) => serde_json::Value::Array(v.iter().map(to_serde).collect()),
        JsonValue::Object(v) => serde_json::Value::Object(
            v.iter().map(|(k, x)| (k.clone(), to_serde(x))).collect()),
    }
}

/// The JSON value that a text denotes, as `serde_json` reads it.
pub open spec fn parsed(text: Seq<char>) -> Option<Json> {
    match serde_parse(text) {
        Some(value) => Some(json_of(value)),
        None => None,
    }
}

/// The indented text of a JSON value, as `serde_json` writes it.
pub open spec fn pretty(json: Json) -> Option<Seq<char>> {
    serde_pretty(serde_value(json))
}

/// Reads a text as JSON.
pub fn parse_json(text: &str) -> (r: Option<JsonValue>)
    ensures
        match r {
            Some(v) => parsed(text@) == Some(v@),
            None => parsed(text@) is None,
        },
{
    match read_value(text) {
        Some(value) => Some(from_serde(value)),
        None => None,
    }
}

/// Writes a JSON value as indented text.
pub fn pretty_json(value: &JsonValue) -> (r: Option<String>)
    ensures
        match r {
            Some(s) => pretty(value@) == Some(s@),
            None => pretty(value@) is None,
        },
{
    write_pretty(&to_serde(value))
}

} // verus!
