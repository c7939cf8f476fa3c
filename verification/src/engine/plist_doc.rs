//! Property lists built with the `plist` crate.
//!
//! The crate's `Dictionary` and `Value` are used as they are; what they hold is
//! described by the names `plist_entries` and `plist_model`.
use vstd::prelude::*;
use vstd::utf8::{decode_utf8, valid_utf8};

use crate::json::{json_model, JsonModel, JsonNumber, JsonValue};
use crate::strmap::{insert_pair, lookup};
use crate::text::{dec_nat, u64_text};

verus! {

#[verifier::external_type_specification]
#[verifier::external_body]
pub struct ExPlistDictionary(plist::Dictionary);

#[verifier::external_type_specification]
#[verifier::external_body]
pub struct ExPlistValue(plist::Value);

/// The tree that a property-list value stands for.
pub enum PlistTree {
    /// A string.
    Str(Seq<char>),
    /// A boolean.
    Bool(bool),
    /// An integer.
    Int(int),
    /// A real number, by the bits of its `f64`.
    Real(u64),
    /// Raw bytes.
    Data(Seq<u8>),
    /// A date, in nanoseconds from the Unix epoch.
    Date(int),
    /// A keyed-archiver UID.
    Uid(u64),
    /// An array.
    Array(Seq<PlistTree>),
    /// A dictionary: its keys and values in order.
    Dict(Seq<(Seq<char>, PlistTree)>),
}

/// What a `plist::Value` holds.
pub uninterp spec fn plist_model(v: plist::Value) -> PlistTree;

/// What a `plist::Dictionary` holds: its keys and values, in order.
pub uninterp spec fn plist_entries(d: plist::Dictionary) -> Seq<(Seq<char>, PlistTree)>;

/// The bits of the `f64` that `str::parse` reads from the text, if it reads one.
pub uninterp spec fn real_read(t: Seq<char>) -> Option<u64>;

/// The XML property-list document that `plist::Value::to_writer_xml` writes for a
/// dictionary with these entries.
pub uninterp spec fn plist_xml(entries: Seq<(Seq<char>, PlistTree)>) -> Seq<u8>;

/// Whether a tree holds no UID anywhere: the XML writer refuses UIDs.
pub open spec fn uid_free(t: PlistTree) -> bool
    decreases t,
{
    match t {
        PlistTree::Uid(_) => false,
        PlistTree::Array(items) => forall|i: int| 0 <= i < items.len() ==> uid_free(#[trigger] items[i]),
        PlistTree::Dict(es) => forall|i: int| 0 <= i < es.len() ==> uid_free(#[trigger] es[i].1),
        _ => true,
    }
}

/// Whether no value of the entries holds a UID.
pub open spec fn entries_uid_free(es: Seq<(Seq<char>, PlistTree)>) -> bool {
    forall|i: int| 0 <= i < es.len() ==> uid_free(#[trigger] es[i].1)
}

/// `plist::Dictionary::new`: an empty dictionary.
#[verifier::external_body]
pub(crate) fn dict_new() -> (d: plist::Dictionary)
    ensures
        plist_entries(d) == Seq::<(Seq<char>, PlistTree)>::empty(),
{
    plist::Dictionary::new()
}

/// `plist::Dictionary::insert` (an `IndexMap` insert): an existing key keeps its place
/// and takes the new value, a new key goes last.
#[verifier::external_body]
pub(crate) fn dict_insert(d: &mut plist::Dictionary, k: String, v: plist::Value)
    ensures
        plist_entries(*final(d)) == insert_pair(plist_entries(*old(d)), k@, plist_model(v)),
{
    d.insert(k, v);
}

/// `plist::Dictionary::is_empty`.
#[verifier::external_body]
pub(crate) fn dict_is_empty(d: &plist::Dictionary) -> (r: bool)
    ensures
        r == (plist_entries(*d).len() == 0),
{
    d.is_empty()
}

/// `plist::Value::String`.
#[verifier::external_body]
pub(crate) fn value_string(s: String) -> (v: plist::Value)
    ensures
        plist_model(v) == PlistTree::Str(s@),
{
    plist::Value::String(s)
}

/// `plist::Value::Boolean`.
#[verifier::external_body]
pub(crate) fn value_bool(b: bool) -> (v: plist::Value)
    ensures
        plist_model(v) == PlistTree::Bool(b),
{
    plist::Value::Boolean(b)
}

/// `plist::Value::Integer` of a signed integer.
#[verifier::external_body]
pub(crate) fn value_int(i: i64) -> (v: plist::Value)
    ensures
        plist_model(v) == PlistTree::Int(i as int),
{
    plist::Value::Integer(i.into())
}

/// `plist::Value::Integer` of an unsigned integer.
#[verifier::external_body]
pub(crate) fn value_uint(u: u64) -> (v: plist::Value)
    ensures
        plist_model(v) == PlistTree::Int(u as int),
{
    plist::Value::Integer(u.into())
}

/// `plist::Value::Real` of the number that `str::parse` reads from the text, if it does.
#[verifier::external_body]
pub(crate) fn value_real(t: &str) -> (v: Option<plist::Value>)
    ensures
        match v {
            Some(x) => real_read(t@) matches Some(b) && plist_model(x) == PlistTree::Real(b),
            None => real_read(t@) is None,
        },
{
    match t.parse() {
        Ok(x) => Some(plist::Value::Real(x)),
        Err(_) => None,
    }
}

/// `plist::Value::Array`.
#[verifier::external_body]
pub(crate) fn value_array(items: Vec<plist::Value>) -> (v: plist::Value)
    ensures
        plist_model(v) == PlistTree::Array(items@.map_values(|x: plist::Value| plist_model(x))),
{
    plist::Value::Array(items)
}

/// `plist::Value::Dictionary`.
#[verifier::external_body]
pub(crate) fn value_dict(d: plist::Dictionary) -> (v: plist::Value)
    ensures
        plist_model(v) == PlistTree::Dict(plist_entries(d)),
{
    plist::Value::Dictionary(d)
}

/// `plist::Value::to_writer_xml` of the dictionary, into bytes; a failure by its text.
/// Writing into a `Vec` fails only on a UID, which XML property lists cannot hold; the
/// document written is UTF-8.
#[verifier::external_body]
pub(crate) fn write_xml(d: &plist::Dictionary) -> (r: Result<Vec<u8>, String>)
    ensures
        r is Ok <==> entries_uid_free(plist_entries(*d)),
        r matches Ok(b) ==> b@ == plist_xml(plist_entries(*d)) && valid_utf8(b@),
{
    let mut buf = Vec::new();
    match plist::Value::Dictionary(d.clone()).to_writer_xml(&mut buf) {
        Ok(()) => Ok(buf),
        Err(e) => Err(format!("{e}")),
    }
}

/// `String::from_utf8`: valid UTF-8 gives the text it encodes, anything else a failure
/// by its text.
#[verifier::external_body]
pub(crate) fn utf8_string(bytes: Vec<u8>) -> (r: Result<String, String>)
    ensures
        match r {
            Ok(s) => valid_utf8(bytes@) && s@ == decode_utf8(bytes@),
            Err(_) => !valid_utf8(bytes@),
        },
{
    match String::from_utf8(bytes) {
        Ok(s) => Ok(s),
        Err(e) => Err(format!("{e}")),
    }
}

/// The dictionary entries that `plist::from_bytes` reads from the bytes, when they hold
/// a property list whose top value is a dictionary.
pub uninterp spec fn plist_read(bytes: Seq<u8>) -> Option<Seq<(Seq<char>, PlistTree)>>;

/// `plist::from_bytes` into a `plist::Value`, kept when it is a dictionary.
#[verifier::external_body]
pub(crate) fn read_dictionary(bytes: &[u8]) -> (r: Option<plist::Dictionary>)
    ensures
        match r {
            Some(d) => plist_read(bytes@) == Some(plist_entries(d)),
            None => plist_read(bytes@) is None,
        },
{
    plist::from_bytes::<plist::Value>(bytes).ok().and_then(|v| v.into_dictionary())
}

/// The string stored under `key`, if the entry there is a string.
pub open spec fn entry_string(entries: Seq<(Seq<char>, PlistTree)>, key: Seq<char>) -> Option<Seq<char>> {
    match lookup(entries, key) {
        Some(PlistTree::Str(s)) => Some(s),
        _ => None,
    }
}

/// `plist::Dictionary::get`, then `plist::Value::as_string`.
#[verifier::external_body]
pub(crate) fn dict_string(d: &plist::Dictionary, key: &str) -> (r: Option<String>)
    ensures
        match r {
            Some(s) => entry_string(plist_entries(*d), key@) == Some(s@),
            None => entry_string(plist_entries(*d), key@) is None,
        },
{
    d.get(key).and_then(|v| v.as_string()).map(|s| s.to_owned())
}

// ---------------------------------------------------------------------------
// JSON overrides as property-list values
// ---------------------------------------------------------------------------

/// The property-list value of a JSON value: `null` has none; numbers become integers
/// when they fit `i64`, reals otherwise; array items and object members without a value
/// are dropped.
pub open spec fn json_plist(m: JsonModel) -> Option<PlistTree>
    decreases m, 0int,
{
    match m {
        JsonModel::Null => None,
        JsonModel::Bool(b) => Some(PlistTree::Bool(b)),
        JsonModel::Int(i) => Some(PlistTree::Int(i)),
        JsonModel::UInt(u) => match real_read(dec_nat(u as nat)) {
            Some(b) => Some(PlistTree::Real(b)),
            None => None,
        },
        JsonModel::Float(t) => match real_read(t) {
            Some(b) => Some(PlistTree::Real(b)),
            None => None,
        },
        JsonModel::String(s) => Some(PlistTree::Str(s)),
        JsonModel::Array(items) => Some(PlistTree::Array(json_plist_items(items, items.len() as int))),
        JsonModel::Object(members) => Some(
            PlistTree::Dict(json_plist_members(members, members.len() as int)),
        ),
    }
}

/// The values of the first `k` items that have one.
pub open spec fn json_plist_items(items: Seq<JsonModel>, k: int) -> Seq<PlistTree>
    decreases items, k,
{
    if k <= 0 || k > items.len() {
        Seq::empty()
    } else {
        let rest = json_plist_items(items, k - 1);
        match json_plist(items[k - 1]) {
            Some(t) => rest.push(t),
            None => rest,
        }
    }
}

/// The first `k` members that have a value, stored in order into a dictionary.
pub open spec fn json_plist_members(members: Seq<(Seq<char>, JsonModel)>, k: int) -> Seq<
    (Seq<char>, PlistTree),
>
    decreases members, k,
{
    if k <= 0 || k > members.len() {
        Seq::empty()
    } else {
        let rest = json_plist_members(members, k - 1);
        match json_plist(members[k - 1].1) {
            Some(t) => insert_pair(rest, members[k - 1].0, t),
            None => rest,
        }
    }
}

/// Storing a UID-free value into UID-free entries keeps them UID-free.
pub broadcast proof fn lemma_insert_pair_uid_free(ps: Seq<(Seq<char>, PlistTree)>, k: Seq<char>, v: PlistTree)
    requires
        entries_uid_free(ps),
        uid_free(v),
    ensures
        entries_uid_free(#[trigger] insert_pair(ps, k, v)),
    decreases ps.len(),
{
    if ps.len() > 0 && ps[0].0 != k {
        lemma_insert_pair_uid_free(ps.drop_first(), k, v);
        let r = insert_pair(ps, k, v);
        let t = insert_pair(ps.drop_first(), k, v);
        assert forall|i: int| 0 <= i < r.len() implies uid_free(#[trigger] r[i].1) by {
            if i > 0 {
                assert(r[i] == t[i - 1]);
            }
        }
    }
}

/// The property-list value of a JSON value holds no UID.
pub proof fn lemma_json_plist_uid_free(m: JsonModel)
    ensures
        json_plist(m) matches Some(t) ==> uid_free(t),
    decreases m, 0int,
{
    match m {
        JsonModel::Array(items) => {
            lemma_json_items_uid_free(items, items.len() as int);
            let its = json_plist_items(items, items.len() as int);
            assert forall|i: int| 0 <= i < its.len() implies uid_free(#[trigger] its[i]) by {}
            assert(uid_free(PlistTree::Array(its)));
        },
        JsonModel::Object(members) => {
            lemma_json_members_uid_free(members, members.len() as int);
        },
        _ => {},
    }
}

proof fn lemma_json_items_uid_free(items: Seq<JsonModel>, k: int)
    ensures
        forall|i: int| 0 <= i < json_plist_items(items, k).len() ==> uid_free(#[trigger] json_plist_items(items, k)[i]),
    decreases items, k,
{
    if 0 < k <= items.len() {
        lemma_json_items_uid_free(items, k - 1);
        lemma_json_plist_uid_free(items[k - 1]);
        let rest = json_plist_items(items, k - 1);
        match json_plist(items[k - 1]) {
            Some(t) => {
                assert forall|i: int| 0 <= i < rest.push(t).len() implies uid_free(#[trigger] rest.push(t)[i]) by {
                    if i < rest.len() {
                        assert(rest.push(t)[i] == rest[i]);
                    }
                }
            },
            None => {},
        }
    }
}

proof fn lemma_json_members_uid_free(members: Seq<(Seq<char>, JsonModel)>, k: int)
    ensures
        entries_uid_free(json_plist_members(members, k)),
    decreases members, k,
{
    broadcast use lemma_insert_pair_uid_free;

    if 0 < k <= members.len() {
        lemma_json_members_uid_free(members, k - 1);
        lemma_json_plist_uid_free(members[k - 1].1);
    }
}

/// The property-list value of a JSON value, if it has one.
pub fn json_value_to_plist(v: &JsonValue) -> (r: Option<plist::Value>)
    ensures
        match r {
            Some(p) => json_plist(v@) == Some(plist_model(p)),
            None => json_plist(v@) is None,
        },
    decreases v,
{
    match v {
        JsonValue::Null => None,
        JsonValue::Bool(b) => Some(value_bool(*b)),
        JsonValue::Number(JsonNumber::Int(i)) => Some(value_int(*i)),
        JsonValue::Number(JsonNumber::UInt(u)) => {
            let t = u64_text(*u);
            value_real(t.as_str())
        },
        JsonValue::Number(JsonNumber::Float(t)) => value_real(t.as_str()),
        JsonValue::String(s) => Some(value_string(s.clone())),
        JsonValue::Array(a) => {
            let ghost items = json_model(*v)->Array_0;
            let mut out: Vec<plist::Value> = Vec::new();
            let mut i: usize = 0;
            while i < a.len()
                invariant
                    i <= a@.len(),
                    *v == JsonValue::Array(*a),
                    items == json_model(*v)->Array_0,
                    items.len() == a@.len(),
                    forall|j: int| 0 <= j < a@.len() ==> items[j] == json_model(#[trigger] a@[j]),
                    out@.map_values(|x: plist::Value| plist_model(x)) == json_plist_items(items, i as int),
                decreases a@.len() - i,
            {
                assert(decreases_to!(*v => v->Array_0));
                assert(decreases_to!(*a => a@));
                assert(decreases_to!(a@ => a@[i as int]));
                let ghost before = out@.map_values(|x: plist::Value| plist_model(x));
                match json_value_to_plist(&a[i]) {
                    Some(p) => {
                        out.push(p);
                        assert(out@.map_values(|x: plist::Value| plist_model(x)) =~= before.push(
                            plist_model(p),
                        ));
                    },
                    None => {},
                }
                i = i + 1;
            }
            Some(value_array(out))
        },
        JsonValue::Object(o) => {
            let ghost members = json_model(*v)->Object_0;
            let mut d = dict_new();
            let mut i: usize = 0;
            while i < o.len()
                invariant
                    i <= o@.len(),
                    *v == JsonValue::Object(*o),
                    members == json_model(*v)->Object_0,
                    members.len() == o@.len(),
                    forall|j: int|
                        0 <= j < o@.len() ==> members[j] == (
                        (#[trigger] o@[j]).0@,
                        json_model(o@[j].1),
                    ),
                    plist_entries(d) == json_plist_members(members, i as int),
                decreases o@.len() - i,
            {
                assert(decreases_to!(*v => v->Object_0));
                assert(decreases_to!(*o => o@));
                assert(decreases_to!(o@ => o@[i as int]));
                assert(decreases_to!(o@[i as int] => o@[i as int].1));
                match json_value_to_plist(&o[i].1) {
                    Some(p) => {
                        dict_insert(&mut d, o[i].0.clone(), p);
                    },
                    None => {},
                }
                i = i + 1;
            }
            Some(value_dict(d))
        },
    }
}

} // verus!
