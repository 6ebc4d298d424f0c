//! JSON values as the library reads and builds them.
//!
//! A JSON value is a `serde_json::Value`. Contracts speak of what such a value
//! holds through [`json`], a tree of [`Json`] nodes.

use crate::text::{lemma_texts_push, str_opt, text_opt, texts};
use serde_json::Value;
use vstd::prelude::*;

verus! {

/// A value of `serde_json`, carried opaquely; [`json`] names its contents.
#[verifier::external_type_specification]
#[verifier::external_body]
pub struct ExValue(serde_json::Value);

/// What a JSON value holds.
///
/// `Number` is an integer that fits `u64` or `i64`; `Float` is any other
/// number, by the bits of its double.
pub enum Json {
    Null,
    Bool(bool),
    Number(int),
    Float(nat),
    Text(Seq<char>),
    List(Seq<Json>),
    Object(Map<Seq<char>, Json>),
}

/// The contents of a `serde_json::Value`.
pub uninterp spec fn json(v: Value) -> Json;

/// The member `key` of an object; nothing else has members.
pub open spec fn member(j: Json, key: Seq<char>) -> Option<Json> {
    match j {
        Json::Object(m) => if m.contains_key(key) { Some(m[key]) } else { None },
        _ => None,
    }
}

/// The member `key` of a value that may be missing.
pub open spec fn member_of(j: Option<Json>, key: Seq<char>) -> Option<Json> {
    match j {
        Some(x) => member(x, key),
        None => None,
    }
}

/// The text of a value, where it is one.
pub open spec fn as_text(j: Option<Json>) -> Option<Seq<char>> {
    match j {
        Some(Json::Text(t)) => Some(t),
        _ => None,
    }
}

/// The truth value of a value, where it is one.
pub open spec fn as_flag(j: Option<Json>) -> Option<bool> {
    match j {
        Some(Json::Bool(b)) => Some(b),
        _ => None,
    }
}

/// The number of a value, where it is one that fits `u64`.
pub open spec fn as_unsigned(j: Option<Json>) -> Option<u64> {
    match j {
        Some(Json::Number(n)) => if 0 <= n <= u64::MAX {
            Some(n as u64)
        } else {
            None
        },
        _ => None,
    }
}

/// The number of a value, where it is one that fits `i64`.
pub open spec fn as_signed(j: Option<Json>) -> Option<i64> {
    match j {
        Some(Json::Number(n)) => if i64::MIN <= n <= i64::MAX {
            Some(n as i64)
        } else {
            None
        },
        _ => None,
    }
}

/// The items of a value, where it is an array.
pub open spec fn as_list(j: Option<Json>) -> Option<Seq<Json>> {
    match j {
        Some(Json::List(items)) => Some(items),
        _ => None,
    }
}

/// The contents of a value that may be missing.
pub open spec fn json_opt(v: Option<&Value>) -> Option<Json> {
    match v {
        Some(x) => Some(json(*x)),
        None => None,
    }
}

/// The contents of each value in a list.
pub open spec fn json_list(v: Seq<Value>) -> Seq<Json> {
    v.map_values(|x: Value| json(x))
}

// ---------------------------------------------------------------------------
// Reading and writing JSON text
// ---------------------------------------------------------------------------

/// What `serde_json` reads a text as; nothing where it is no JSON.
pub uninterp spec fn parsed(text: Seq<char>) -> Option<Json>;

/// `serde_json::from_str` into a `Value`: its result is named [`parsed`]; the
/// error is dropped.
#[verifier::external_body]
pub(crate) fn parse(text: &str) -> (r: Option<Value>)
    ensures
        match r {
            Some(v) => parsed(text@) == Some(json(v)),
            None => parsed(text@) is None,
        },
{
    serde_json::from_str::<Value>(text).ok()
}

/// What `serde_json` reads raw bytes as; nothing where they are no JSON.
pub uninterp spec fn parsed_bytes(bytes: Seq<u8>) -> Option<Json>;

/// `serde_json::from_slice` into a `Value`: its result is named
/// [`parsed_bytes`]; the error is dropped.
#[verifier::external_body]
pub(crate) fn parse_bytes(bytes: &[u8]) -> (r: Option<Value>)
    ensures
        match r {
            Some(v) => parsed_bytes(bytes@) == Some(json(v)),
            None => parsed_bytes(bytes@) is None,
        },
{
    serde_json::from_slice::<Value>(bytes).ok()
}

/// The compact text that `serde_json` writes for a value.
pub uninterp spec fn rendered(j: Json) -> Seq<char>;

/// `to_string` of a `Value`: the compact text, named [`rendered`].
#[verifier::external_body]
pub(crate) fn render(v: &Value) -> (r: String)
    ensures
        r@ == rendered(json(*v)),
{
    v.to_string()
}

// ---------------------------------------------------------------------------
// Looking into a value
// ---------------------------------------------------------------------------

/// `Value::get` with a string key: the member of that name of an object, and
/// nothing for a missing member or a value that is no object.
#[verifier::external_body]
pub(crate) fn value_get<'a>(v: &'a Value, key: &str) -> (r: Option<&'a Value>)
    ensures
        json_opt(r) == member(json(*v), key@),
{
    v.get(key)
}

/// `Value::as_str`: the text of a string, and nothing for any other value.
#[verifier::external_body]
pub(crate) fn value_as_str<'a>(v: &'a Value) -> (r: Option<&'a str>)
    ensures
        match r {
            Some(s) => json(*v) == Json::Text(s@),
            None => !(json(*v) is Text),
        },
{
    v.as_str()
}

/// `Value::as_bool`: the truth value of a boolean, and nothing for any other
/// value.
#[verifier::external_body]
pub(crate) fn value_as_bool(v: &Value) -> (r: Option<bool>)
    ensures
        r == as_flag(Some(json(*v))),
{
    v.as_bool()
}

/// `Value::as_u64`: the number where it is an integer that fits `u64`, and
/// nothing otherwise.
#[verifier::external_body]
pub(crate) fn value_as_u64(v: &Value) -> (r: Option<u64>)
    ensures
        r == as_unsigned(Some(json(*v))),
{
    v.as_u64()
}

/// `Value::as_i64`: the number where it is an integer that fits `i64`, and
/// nothing otherwise.
#[verifier::external_body]
pub(crate) fn value_as_i64(v: &Value) -> (r: Option<i64>)
    ensures
        r == as_signed(Some(json(*v))),
{
    v.as_i64()
}

/// `Value::as_array`: the items of an array, in order, and nothing for any
/// other value.
#[verifier::external_body]
pub(crate) fn value_as_array<'a>(v: &'a Value) -> (r: Option<&'a Vec<Value>>)
    ensures
        match r {
            Some(items) => json(*v) == Json::List(json_list(items@)),
            None => !(json(*v) is List),
        },
{
    v.as_array()
}

/// `Value::clone`: a value with the same contents.
#[verifier::external_body]
pub(crate) fn value_clone(v: &Value) -> (r: Value)
    ensures
        json(r) == json(*v),
{
    v.clone()
}

/// The member `key` of a value that may be missing.
pub fn at<'a>(v: Option<&'a Value>, key: &str) -> (r: Option<&'a Value>)
    ensures
        json_opt(r) == member_of(json_opt(v), key@),
{
    match v {
        Some(x) => value_get(x, key),
        None => None,
    }
}

pub fn text_of<'a>(v: Option<&'a Value>) -> (r: Option<&'a str>)
    ensures
        str_opt(r) == as_text(json_opt(v)),
{
    match v {
        Some(x) => value_as_str(x),
        None => None,
    }
}

/// The text of a value, or `default` where it is none.
pub fn text_or(v: Option<&Value>, default: &str) -> (r: String)
    ensures
        r@ == text_else(json_opt(v), default@),
{
    match text_of(v) {
        Some(s) => s.to_owned(),
        None => default.to_owned(),
    }
}

pub open spec fn text_else(j: Option<Json>, default: Seq<char>) -> Seq<char> {
    match as_text(j) {
        Some(s) => s,
        None => default,
    }
}

pub fn owned_text(v: Option<&Value>) -> (r: Option<String>)
    ensures
        text_opt(r) == as_text(json_opt(v)),
{
    match text_of(v) {
        Some(s) => Some(s.to_owned()),
        None => None,
    }
}

pub fn flag_of(v: Option<&Value>) -> (r: Option<bool>)
    ensures
        r == as_flag(json_opt(v)),
{
    match v {
        Some(x) => value_as_bool(x),
        None => None,
    }
}

pub fn unsigned_of(v: Option<&Value>) -> (r: Option<u64>)
    ensures
        r == as_unsigned(json_opt(v)),
{
    match v {
        Some(x) => value_as_u64(x),
        None => None,
    }
}

pub fn signed_of(v: Option<&Value>) -> (r: Option<i64>)
    ensures
        r == as_signed(json_opt(v)),
{
    match v {
        Some(x) => value_as_i64(x),
        None => None,
    }
}

pub fn list_of<'a>(v: Option<&'a Value>) -> (r: Option<&'a Vec<Value>>)
    ensures
        match r {
            Some(items) => as_list(json_opt(v)) == Some(json_list(items@)),
            None => as_list(json_opt(v)) is None,
        },
{
    match v {
        Some(x) => value_as_array(x),
        None => None,
    }
}

/// The texts among the items of an array, in order.
pub open spec fn texts_in(items: Seq<Json>) -> Seq<Seq<char>>
    decreases items.len(),
{
    if items.len() == 0 {
        Seq::empty()
    } else {
        match items.last() {
            Json::Text(t) => texts_in(items.drop_last()).push(t),
            _ => texts_in(items.drop_last()),
        }
    }
}

/// The texts in an array; none where the value is no array.
pub fn text_items(v: Option<&Value>) -> (r: Vec<String>)
    ensures
        texts(r@) == match as_list(json_opt(v)) {
            Some(items) => texts_in(items),
            None => Seq::empty(),
        },
{
    let mut r: Vec<String> = Vec::new();
    if let Some(items) = list_of(v) {
        let ghost all = json_list(items@);
        let mut i: usize = 0;
        assert(texts(r@) =~= texts_in(all.take(0)));
        while i < items.len()
            invariant
                i <= items.len(),
                all == json_list(items@),
                texts(r@) == texts_in(all.take(i as int)),
            decreases items.len() - i,
        {
            assert(all.take(i + 1).drop_last() =~= all.take(i as int));
            assert(all.take(i + 1).last() == json(items@[i as int]));
            if let Some(s) = value_as_str(&items[i]) {
                let t: String = s.to_owned();
                proof {
                    lemma_texts_push(r@, t);
                }
                r.push(t);
            }
            i += 1;
        }
        assert(all.take(items.len() as int) =~= all);
    } else {
        assert(texts(r@) =~= Seq::empty());
    }
    r
}

// ---------------------------------------------------------------------------
// Building a value
// ---------------------------------------------------------------------------

/// `Value::from` of a text.
#[verifier::external_body]
pub(crate) fn from_text(s: &str) -> (r: Value)
    ensures
        json(r) == Json::Text(s@),
{
    Value::from(s)
}

/// `Value::from` of an unsigned number.
#[verifier::external_body]
pub(crate) fn from_unsigned(n: u64) -> (r: Value)
    ensures
        json(r) == Json::Number(n as int),
{
    Value::from(n)
}

/// `Value::from` of a signed number.
#[verifier::external_body]
pub(crate) fn from_signed(n: i64) -> (r: Value)
    ensures
        json(r) == Json::Number(n as int),
{
    Value::from(n)
}

/// `Value::from` of a truth value.
#[verifier::external_body]
pub(crate) fn from_flag(b: bool) -> (r: Value)
    ensures
        json(r) == Json::Bool(b),
{
    Value::from(b)
}

/// `Value::from` of a list of values: an array of them, in order.
#[verifier::external_body]
pub(crate) fn from_list(items: Vec<Value>) -> (r: Value)
    ensures
        json(r) == Json::List(json_list(items@)),
{
    Value::from(items)
}

/// `Value::Null`.
#[verifier::external_body]
pub(crate) fn null() -> (r: Value)
    ensures
        json(r) == Json::Null,
{
    Value::Null
}

/// `Value::from` of a new `serde_json::Map`: an object without members.
#[verifier::external_body]
pub(crate) fn object() -> (r: Value)
    ensures
        json(r) == Json::Object(Map::empty()),
{
    Value::from(serde_json::Map::new())
}

/// Index assignment on an object: the member `key` is `item` afterwards and
/// the others stay.
#[verifier::external_body]
pub(crate) fn put(v: &mut Value, key: &str, item: Value)
    requires
        json(*old(v)) is Object,
    ensures
        json(*final(v)) == Json::Object(json(*old(v))->Object_0.insert(key@, json(item))),
{
    v[key] = item;
}

/// An object with one more member.
pub(crate) fn with_member(v: Value, key: &str, item: Value) -> (r: Value)
    requires
        json(v) is Object,
    ensures
        json(r) == Json::Object(json(v)->Object_0.insert(key@, json(item))),
{
    let mut r: Value = v;
    put(&mut r, key, item);
    r
}

/// An object of two members.
pub open spec fn object2(k1: Seq<char>, v1: Json, k2: Seq<char>, v2: Json) -> Json {
    Json::Object(Map::empty().insert(k1, v1).insert(k2, v2))
}

pub(crate) fn make_object2(k1: &str, v1: Value, k2: &str, v2: Value) -> (r: Value)
    ensures
        json(r) == object2(k1@, json(v1), k2@, json(v2)),
{
    with_member(with_member(object(), k1, v1), k2, v2)
}

/// An object of one member.
pub open spec fn object1(k: Seq<char>, v: Json) -> Json {
    Json::Object(Map::empty().insert(k, v))
}

pub(crate) fn make_object1(k: &str, v: Value) -> (r: Value)
    ensures
        json(r) == object1(k@, json(v)),
{
    with_member(object(), k, v)
}

/// An object of three members.
pub open spec fn object3(
    k1: Seq<char>,
    v1: Json,
    k2: Seq<char>,
    v2: Json,
    k3: Seq<char>,
    v3: Json,
) -> Json {
    Json::Object(Map::empty().insert(k1, v1).insert(k2, v2).insert(k3, v3))
}

pub(crate) fn make_object3(
    k1: &str,
    v1: Value,
    k2: &str,
    v2: Value,
    k3: &str,
    v3: Value,
) -> (r: Value)
    ensures
        json(r) == object3(k1@, json(v1), k2@, json(v2), k3@, json(v3)),
{
    with_member(with_member(with_member(object(), k1, v1), k2, v2), k3, v3)
}

// ---------------------------------------------------------------------------
// Laws
// ---------------------------------------------------------------------------

/// An object has the members that it was made of, and no others.
pub proof fn law_object_has_its_members(
    a: Seq<char>,
    x: Json,
    b: Seq<char>,
    y: Json,
    c: Seq<char>,
    z: Json,
    key: Seq<char>,
)
    requires
        a != b && b != c && a != c,
    ensures
        member(object1(a, x), a) == Some(x),
        member(object2(a, x, b, y), a) == Some(x) && member(object2(a, x, b, y), b) == Some(y),
        member(object3(a, x, b, y, c, z), a) == Some(x) && member(object3(a, x, b, y, c, z), b)
            == Some(y) && member(object3(a, x, b, y, c, z), c) == Some(z),
        key != a ==> member(object1(a, x), key) is None,
        key != a && key != b ==> member(object2(a, x, b, y), key) is None,
        key != a && key != b && key != c ==> member(object3(a, x, b, y, c, z), key) is None,
{
}

/// A value is read as what it is, and as nothing else.
pub proof fn law_values_are_read_as_what_they_are(
    t: Seq<char>,
    b: bool,
    n: int,
    items: Seq<Json>,
    default: Seq<char>,
)
    ensures
        as_text(Some(Json::Text(t))) == Some(t) && as_text(Some(Json::Bool(b))) is None,
        as_flag(Some(Json::Bool(b))) == Some(b) && as_flag(Some(Json::Text(t))) is None,
        as_list(Some(Json::List(items))) == Some(items) && as_list(Some(Json::Text(t))) is None,
        0 <= n <= u64::MAX ==> as_unsigned(Some(Json::Number(n))) == Some(n as u64),
        n < 0 || n > u64::MAX ==> as_unsigned(Some(Json::Number(n))) is None,
        i64::MIN <= n <= i64::MAX ==> as_signed(Some(Json::Number(n))) == Some(n as i64),
        as_text(None) is None && as_flag(None) is None && as_list(None) is None,
        as_unsigned(None) is None && as_signed(None) is None,
        text_else(Some(Json::Text(t)), default) == t && text_else(None, default) == default,
        member_of(None, t) is None,
{
}

/// The texts of an array are all that are in it.
pub proof fn law_texts_of_an_array(items: Seq<Json>, t: Seq<char>)
    ensures
        texts_in(items).contains(t) <==> items.contains(Json::Text(t)),
        texts_in(items).len() <= items.len(),
    decreases items.len(),
{
    if items.len() > 0 {
        let front = items.drop_last();
        law_texts_of_an_array(front, t);
        let all = texts_in(items);
        let before = texts_in(front);
        if all.contains(t) {
            let k = choose|k: int| 0 <= k < all.len() && all[k] == t;
            if k < before.len() {
                assert(before[k] == t);
                assert(before.contains(t));
                let i = choose|i: int| 0 <= i < front.len() && front[i] == Json::Text(t);
                assert(items[i] == Json::Text(t));
            } else {
                assert(items[items.len() - 1] == Json::Text(t));
            }
        }
        if items.contains(Json::Text(t)) {
            let i = choose|i: int| 0 <= i < items.len() && items[i] == Json::Text(t);
            if i < front.len() {
                assert(front[i] == Json::Text(t));
                assert(before.contains(t));
                let k = choose|k: int| 0 <= k < before.len() && before[k] == t;
                assert(all[k] == t);
            } else {
                assert(all[before.len() as int] == t);
            }
        }
    }
}

} // verus!
