//! A schema-less JSON value, as the wire carries it, and its lookups.
use vstd::prelude::*;
use crate::table::lookup;
use crate::text::str_eq;

verus! {

/// A JSON value. Numbers keep what the routing reads: non-negative integers
/// as `UInt`, negative ones as `Int`, and any other number by its text.
#[derive(Debug)]
pub enum Json {
    Null,
    Bool(bool),
    UInt(u64),
    Int(i64),
    Real(String),
    Str(String),
    Array(Vec<Json>),
    Object(Vec<(String, Json)>),
}

/// The mathematical content of a JSON value.
pub enum JsonModel {
    Null,
    Bool(bool),
    UInt(u64),
    Int(i64),
    Real(Seq<char>),
    Str(Seq<char>),
    Array(Seq<JsonModel>),
    Object(Seq<(Seq<char>, JsonModel)>),
}

/// The content of a value.
pub open spec fn model(j: Json) -> JsonModel
    decreases j, 2int,
{
    match j {
        Json::Null => JsonModel::Null,
        Json::Bool(b) => JsonModel::Bool(b),
        Json::UInt(n) => JsonModel::UInt(n),
        Json::Int(n) => JsonModel::Int(n),
        Json::Real(t) => JsonModel::Real(t@),
        Json::Str(t) => JsonModel::Str(t@),
        Json::Array(items) => JsonModel::Array(items_model(items@)),
        Json::Object(fields) => JsonModel::Object(fields_model(fields@)),
    }
}

/// The content of each value of `s`.
pub open spec fn items_model(s: Seq<Json>) -> Seq<JsonModel>
    decreases s, 1int,
{
    if s.len() == 0 {
        Seq::empty()
    } else {
        items_model(s.subrange(0, s.len() - 1)).push(model(s[s.len() - 1]))
    }
}

/// The content of each member of `s`.
pub open spec fn fields_model(s: Seq<(String, Json)>) -> Seq<(Seq<char>, JsonModel)>
    decreases s, 1int,
{
    if s.len() == 0 {
        Seq::empty()
    } else {
        fields_model(s.subrange(0, s.len() - 1)).push((s[s.len() - 1].0@, model(s[s.len() - 1].1)))
    }
}

/// The value under key `k` among `fields`; the first such field wins.
pub open spec fn field_lookup(fields: Seq<(String, Json)>, k: Seq<char>) -> Option<Json> {
    lookup(fields, k)
}

/// The member `k` of `j`, when `j` is an object that has one.
pub open spec fn jget(j: Json, k: Seq<char>) -> Option<Json> {
    match j {
        Json::Object(fields) => field_lookup(fields@, k),
        _ => None,
    }
}

/// The member `k` of `o`, when `o` is an object that has one.
pub open spec fn oget(o: Option<Json>, k: Seq<char>) -> Option<Json> {
    match o {
        Some(j) => jget(j, k),
        None => None,
    }
}

/// `a`, or else `b`.
pub open spec fn or_else<T>(a: Option<T>, b: Option<T>) -> Option<T> {
    match a {
        Some(x) => Some(x),
        None => b,
    }
}

/// The text of `o`, when it is a JSON string.
pub open spec fn ostr(o: Option<Json>) -> Option<Seq<char>> {
    match o {
        Some(Json::Str(s)) => Some(s@),
        _ => None,
    }
}

/// The flag of `o`, when it is a JSON boolean.
pub open spec fn obool(o: Option<Json>) -> Option<bool> {
    match o {
        Some(Json::Bool(b)) => Some(b),
        _ => None,
    }
}

/// `o` when it is a JSON object.
pub open spec fn oobject(o: Option<Json>) -> Option<Json> {
    match o {
        Some(Json::Object(f)) => Some(Json::Object(f)),
        _ => None,
    }
}

/// The value behind an optional reference.
pub open spec fn deref_opt(o: Option<&Json>) -> Option<Json> {
    match o {
        Some(j) => Some(*j),
        None => None,
    }
}

/// The view of an optional string.
pub open spec fn opt_view(o: Option<String>) -> Option<Seq<char>> {
    match o {
        Some(s) => Some(s@),
        None => None,
    }
}

impl Json {
    /// A JSON string holding `s`.
    pub fn string(s: &str) -> (r: Json)
        ensures
            r matches Json::Str(t) && t@ == s@,
    {
        Json::Str(s.to_owned())
    }

    /// An object with the given members, in order.
    pub fn object(fields: Vec<(String, Json)>) -> (r: Json)
        ensures
            r == Json::Object(fields),
    {
        Json::Object(fields)
    }

    /// The member `key` of this value, when it is an object that has one.
    pub fn get(&self, key: &str) -> (r: Option<&Json>)
        ensures
            deref_opt(r) == jget(*self, key@),
    {
        match self {
            Json::Object(fields) => {
                let mut i: usize = 0;
                assert(fields@.subrange(0, fields@.len() as int) =~= fields@);
                while i < fields.len()
                    invariant
                        i <= fields.len(),
                        jget(*self, key@) == field_lookup(fields@, key@),
                        field_lookup(fields@, key@) == field_lookup(
                            fields@.subrange(i as int, fields@.len() as int),
                            key@,
                        ),
                    decreases fields.len() - i,
                {
                    let ghost rest = fields@.subrange(i as int, fields@.len() as int);
                    assert(rest.drop_first() =~= fields@.subrange(i + 1, fields@.len() as int));
                    assert(rest[0] == fields@[i as int]);
                    if str_eq(fields[i].0.as_str(), key) {
                        return Some(&fields[i].1);
                    }
                    i = i + 1;
                }
                None
            },
            _ => None,
        }
    }

    /// The text of this value, when it is a string.
    pub fn as_str(&self) -> (r: Option<&String>)
        ensures
            opt_view(match r { Some(s) => Some(*s), None => None }) == ostr(Some(*self)),
            r matches Some(s) ==> *self == Json::Str(*s),
    {
        match self {
            Json::Str(s) => Some(s),
            _ => None,
        }
    }

    /// The flag of this value, when it is a boolean.
    pub fn as_bool(&self) -> (r: Option<bool>)
        ensures
            r == obool(Some(*self)),
    {
        match self {
            Json::Bool(b) => Some(*b),
            _ => None,
        }
    }

    /// This value as a non-negative integer, when it is one.
    pub fn as_u64(&self) -> (r: Option<u64>)
        ensures
            r == (match *self {
                Json::UInt(n) => Some(n),
                _ => None,
            }),
    {
        match self {
            Json::UInt(n) => Some(*n),
            _ => None,
        }
    }

    /// A copy of this value.
    pub fn deep_clone(&self) -> (r: Json)
        ensures
            model(r) == model(*self),
        decreases *self, 1int,
    {
        match self {
            Json::Null => Json::Null,
            Json::Bool(b) => Json::Bool(*b),
            Json::UInt(n) => Json::UInt(*n),
            Json::Int(n) => Json::Int(*n),
            Json::Real(t) => Json::Real(t.clone()),
            Json::Str(t) => Json::Str(t.clone()),
            Json::Array(items) => Json::Array(clone_items(items)),
            Json::Object(fields) => Json::Object(clone_fields(fields)),
        }
    }

    /// Whether this value is an object.
    pub fn is_object(&self) -> (r: bool)
        ensures
            r == (*self matches Json::Object(_)),
    {
        match self {
            Json::Object(_) => true,
            _ => false,
        }
    }
}

/// The member `key` of `o`, when `o` is an object that has one.
pub fn get_opt<'a>(o: Option<&'a Json>, key: &str) -> (r: Option<&'a Json>)
    ensures
        deref_opt(r) == oget(deref_opt(o), key@),
{
    match o {
        Some(j) => j.get(key),
        None => None,
    }
}

/// The member `k1` of `j`, or else its member `k2`.
pub fn get_either<'a>(o: Option<&'a Json>, k1: &str, k2: &str) -> (r: Option<&'a Json>)
    ensures
        deref_opt(r) == or_else(oget(deref_opt(o), k1@), oget(deref_opt(o), k2@)),
{
    match get_opt(o, k1) {
        Some(v) => Some(v),
        None => get_opt(o, k2),
    }
}

/// The text of `o` as an owned string, when it is a JSON string.
pub fn str_of(o: Option<&Json>) -> (r: Option<String>)
    ensures
        opt_view(r) == ostr(deref_opt(o)),
{
    match o {
        Some(Json::Str(s)) => Some(s.clone()),
        _ => None,
    }
}

fn clone_items(items: &Vec<Json>) -> (r: Vec<Json>)
    ensures
        items_model(r@) == items_model(items@),
    decreases items@, 0int,
{
    let mut out: Vec<Json> = Vec::new();
    let mut i: usize = 0;
    assert(out@ =~= items@.subrange(0, 0));
    while i < items.len()
        invariant
            i <= items@.len(),
            items_model(out@) == items_model(items@.subrange(0, i as int)),
        decreases items.len() - i,
    {
        assert(decreases_to!(items@ => items@[i as int]));
        let ghost before = out@;
        out.push(items[i].deep_clone());
        i = i + 1;
        proof {
            let sub = items@.subrange(0, i as int);
            assert(sub.subrange(0, sub.len() - 1) =~= items@.subrange(0, i - 1));
            assert(out@.subrange(0, out@.len() - 1) =~= before);
        }
    }
    assert(items@.subrange(0, items@.len() as int) =~= items@);
    out
}

fn clone_fields(fields: &Vec<(String, Json)>) -> (r: Vec<(String, Json)>)
    ensures
        fields_model(r@) == fields_model(fields@),
    decreases fields@, 0int,
{
    let mut out: Vec<(String, Json)> = Vec::new();
    let mut i: usize = 0;
    assert(out@ =~= fields@.subrange(0, 0));
    while i < fields.len()
        invariant
            i <= fields@.len(),
            fields_model(out@) == fields_model(fields@.subrange(0, i as int)),
        decreases fields.len() - i,
    {
        assert(decreases_to!(fields@ => fields@[i as int]));
        let ghost before = out@;
        let v = fields[i].1.deep_clone();
        out.push((fields[i].0.clone(), v));
        i = i + 1;
        proof {
            let sub = fields@.subrange(0, i as int);
            assert(sub.subrange(0, sub.len() - 1) =~= fields@.subrange(0, i - 1));
            assert(out@.subrange(0, out@.len() - 1) =~= before);
        }
    }
    assert(fields@.subrange(0, fields@.len() as int) =~= fields@);
    out
}

} // verus!
