//! JSON values as the library holds them (raw backend overrides).
use vstd::prelude::*;

use crate::strmap::Dup;

verus! {

/// A JSON number: an integer that fits `i64`, an integer that fits only
/// `u64`, or any other number by its decimal text.
#[derive(Debug, Clone)]
pub enum JsonNumber {
    Int(i64),
    UInt(u64),
    Float(String),
}

/// A JSON value.  Object members keep the order they were given in.
#[derive(Debug)]
pub enum JsonValue {
    Null,
    Bool(bool),
    Number(JsonNumber),
    String(String),
    Array(Vec<JsonValue>),
    Object(Vec<(String, JsonValue)>),
}

/// The mathematical content of a JSON value.
pub enum JsonModel {
    Null,
    Bool(bool),
    Int(int),
    UInt(int),
    Float(Seq<char>),
    String(Seq<char>),
    Array(Seq<JsonModel>),
    Object(Seq<(Seq<char>, JsonModel)>),
}

/// The content of a JSON value.
pub open spec fn json_model(v: JsonValue) -> JsonModel
    decreases v,
{
    match v {
        JsonValue::Null => JsonModel::Null,
        JsonValue::Bool(b) => JsonModel::Bool(b),
        JsonValue::Number(JsonNumber::Int(i)) => JsonModel::Int(i as int),
        JsonValue::Number(JsonNumber::UInt(u)) => JsonModel::UInt(u as int),
        JsonValue::Number(JsonNumber::Float(t)) => JsonModel::Float(t@),
        JsonValue::String(s) => JsonModel::String(s@),
        JsonValue::Array(a) => JsonModel::Array(
            Seq::new(a@.len(), |i: int| if 0 <= i < a@.len() { json_model(a@[i]) } else { JsonModel::Null }),
        ),
        JsonValue::Object(o) => JsonModel::Object(
            Seq::new(
                o@.len(),
                |i: int|
                    if 0 <= i < o@.len() {
                        (o@[i].0@, json_model(o@[i].1))
                    } else {
                        (Seq::empty(), JsonModel::Null)
                    },
            ),
        ),
    }
}

impl View for JsonValue {
    type V = JsonModel;

    open spec fn view(&self) -> JsonModel {
        json_model(*self)
    }
}

impl JsonValue {
    /// A deep copy with the same content.
    pub fn copy_json(&self) -> (r: JsonValue)
        ensures
            r@ == self@,
        decreases self,
    {
        match self {
            JsonValue::Null => JsonValue::Null,
            JsonValue::Bool(b) => JsonValue::Bool(*b),
            JsonValue::Number(n) => {
                let m = match n {
                    JsonNumber::Int(i) => JsonNumber::Int(*i),
                    JsonNumber::UInt(u) => JsonNumber::UInt(*u),
                    JsonNumber::Float(t) => JsonNumber::Float(t.clone()),
                };
                JsonValue::Number(m)
            },
            JsonValue::String(s) => JsonValue::String(s.clone()),
            JsonValue::Array(a) => {
                let mut out: Vec<JsonValue> = Vec::new();
                let mut i: usize = 0;
                while i < a.len()
                    invariant
                        i <= a@.len(),
                        out@.len() == i,
                        *self == JsonValue::Array(*a),
                        forall|j: int| 0 <= j < i ==> json_model(#[trigger] out@[j]) == json_model(a@[j]),
                    decreases a@.len() - i,
                {
                    assert(decreases_to!(*self => self->Array_0));
                    assert(decreases_to!(*a => a@));
                    assert(decreases_to!(a@ => a@[i as int]));
                    out.push(a[i].copy_json());
                    i = i + 1;
                }
                let r = JsonValue::Array(out);
                assert(r@ == self@) by {
                    assert(json_model(r)->Array_0 =~= json_model(*self)->Array_0);
                }
                r
            },
            JsonValue::Object(o) => {
                let mut out: Vec<(String, JsonValue)> = Vec::new();
                let mut i: usize = 0;
                while i < o.len()
                    invariant
                        i <= o@.len(),
                        out@.len() == i,
                        *self == JsonValue::Object(*o),
                        forall|j: int|
                            0 <= j < i ==> (#[trigger] out@[j]).0@ == o@[j].0@ && json_model(out@[j].1)
                                == json_model(o@[j].1),
                    decreases o@.len() - i,
                {
                    assert(decreases_to!(*self => self->Object_0));
                    assert(decreases_to!(*o => o@));
                    assert(decreases_to!(o@ => o@[i as int]));
                    assert(decreases_to!(o@[i as int] => o@[i as int].1));
                    let k = o[i].0.clone();
                    let v = o[i].1.copy_json();
                    out.push((k, v));
                    i = i + 1;
                }
                let r = JsonValue::Object(out);
                assert(r@ == self@) by {
                    assert(json_model(r)->Object_0 =~= json_model(*self)->Object_0);
                }
                r
            },
        }
    }
}

impl Clone for JsonValue {
    fn clone(&self) -> (r: JsonValue)
        ensures
            r@ == self@,
    {
        self.copy_json()
    }
}

impl Dup for JsonValue {
    fn dup(&self) -> (r: JsonValue) {
        self.copy_json()
    }
}

} // verus!
