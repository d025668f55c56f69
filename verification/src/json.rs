//! The JSON documents the library reasons about: schemas, tool arguments,
//! provider request and response bodies. Objects keep their members in
//! order; a lookup finds the first member with the key.

use vstd::prelude::*;

verus! {

/// A JSON number: its canonical text, and its value when it is a
/// non-negative integer that fits in 64 bits.
#[derive(Clone, Debug, PartialEq)]
pub struct JsonNumber {
    pub text: String,
    pub unsigned: Option<u64>,
    pub signed: Option<i64>,
}

/// A JSON value.
#[derive(Debug)]
pub enum Json {
    Null,
    Bool(bool),
    Number(JsonNumber),
    Str(String),
    Array(Vec<Json>),
    Object(Vec<(String, Json)>),
}

/// Index of the first member of `f` named `k`, or -1.
pub open spec fn find_key(f: Seq<(String, Json)>, k: Seq<char>) -> int
    decreases f.len(),
{
    if f.len() == 0 {
        -1
    } else if f[0].0@ == k {
        0
    } else {
        let j = find_key(f.drop_first(), k);
        if j < 0 {
            -1
        } else {
            j + 1
        }
    }
}

/// `find_key` is the first index carrying the key, or -1 when none does.
pub proof fn lemma_find_key(f: Seq<(String, Json)>, k: Seq<char>)
    ensures
        -1 <= find_key(f, k) < f.len(),
        find_key(f, k) == -1 <==> (forall|i: int| 0 <= i < f.len() ==> f[i].0@ != k),
        find_key(f, k) >= 0 ==> f[find_key(f, k)].0@ == k,
        find_key(f, k) >= 0 ==> (forall|i: int| 0 <= i < find_key(f, k) ==> f[i].0@ != k),
    decreases f.len(),
{
    if f.len() > 0 {
        lemma_find_key(f.drop_first(), k);
        if f[0].0@ != k {
            assert forall|i: int| 0 < i < f.len() implies f[i] == f.drop_first()[i - 1] by {}
            if find_key(f.drop_first(), k) == -1 {
                assert forall|i: int| 0 <= i < f.len() implies f[i].0@ != k by {
                    if i > 0 {
                        assert(f[i] == f.drop_first()[i - 1]);
                    }
                }
            }
        }
    }
}

/// The value a borrowed option refers to.
pub open spec fn deref_opt(v: Option<&Json>) -> Option<Json> {
    match v {
        Some(j) => Some(*j),
        None => None,
    }
}

/// The member of `f` named `k`, if any.
pub open spec fn spec_get(f: Seq<(String, Json)>, k: Seq<char>) -> Option<Json> {
    let i = find_key(f, k);
    if 0 <= i < f.len() {
        Some(f[i].1)
    } else {
        None
    }
}

/// The member of `v` under `k`, when `v` is an object that has one.
pub open spec fn member(v: Json, k: Seq<char>) -> Option<Json> {
    match v {
        Json::Object(f) => spec_get(f@, k),
        _ => None,
    }
}

/// The string payload, when `v` is a string.
pub open spec fn str_of(v: Option<Json>) -> Option<Seq<char>> {
    match v {
        Some(Json::Str(s)) => Some(s@),
        _ => None,
    }
}

/// The unsigned value, when `v` is a number that is a `u64`.
pub open spec fn u64_of(v: Option<Json>) -> Option<u64> {
    match v {
        Some(Json::Number(n)) => n.unsigned,
        _ => None,
    }
}

/// Position of the first member named `key`, or `fields.len()` when none is.
pub fn find_index(fields: &Vec<(String, Json)>, key: &str) -> (i: usize)
    ensures
        i <= fields.len(),
        i < fields.len() <==> find_key(fields@, key@) >= 0,
        i < fields.len() ==> i == find_key(fields@, key@),
{
    proof {
        lemma_find_key(fields@, key@);
    }
    let mut i: usize = 0;
    while i < fields.len()
        invariant
            i <= fields.len(),
            forall|j: int| 0 <= j < i ==> fields@[j].0@ != key@,
            -1 <= find_key(fields@, key@) < fields@.len(),
            find_key(fields@, key@) == -1 <==> (forall|j: int|
                0 <= j < fields@.len() ==> fields@[j].0@ != key@),
            find_key(fields@, key@) >= 0 ==> fields@[find_key(fields@, key@)].0@ == key@,
            find_key(fields@, key@) >= 0 ==> (forall|j: int|
                0 <= j < find_key(fields@, key@) ==> fields@[j].0@ != key@),
        decreases fields.len() - i,
    {
        if crate::text::str_eq(fields[i].0.as_str(), key) {
            assert(find_key(fields@, key@) == i as int);
            return i;
        }
        i = i + 1;
    }
    i
}

/// Find the member named `key` (first match).
pub fn obj_get<'a>(fields: &'a Vec<(String, Json)>, key: &str) -> (r: Option<&'a Json>)
    ensures
        deref_opt(r) == spec_get(fields@, key@),
{
    let i = find_index(fields, key);
    if i < fields.len() {
        Some(&fields[i].1)
    } else {
        None
    }
}

/// `v[key]` on an object; `None` for non-objects and missing keys.
pub fn get<'a>(v: &'a Json, key: &str) -> (r: Option<&'a Json>)
    ensures
        deref_opt(r) == member(*v, key@),
{
    match v {
        Json::Object(f) => obj_get(f, key),
        _ => None,
    }
}

/// The string payload of a value, if it is a string.
pub fn as_str(v: Option<&Json>) -> (r: Option<&str>)
    ensures
        match r {
            Some(s) => str_of(deref_opt(v)) == Some(s@),
            None => str_of(deref_opt(v)) is None,
        },
{
    match v {
        Some(Json::Str(s)) => Some(s.as_str()),
        _ => None,
    }
}

/// The unsigned value of a number, if it is a `u64`.
pub fn as_u64(v: Option<&Json>) -> (r: Option<u64>)
    ensures
        r == u64_of(deref_opt(v)),
{
    match v {
        Some(Json::Number(n)) => n.unsigned,
        _ => None,
    }
}

/// An empty object.
pub fn empty_object() -> (r: Json)
    ensures
        r is Object && r->Object_0@.len() == 0,
{
    Json::Object(Vec::new())
}

/// A string value.
pub fn jstr(s: &str) -> (r: Json)
    ensures
        r is Str && r->Str_0@ == s@,
{
    Json::Str(String::from_str(s))
}

/// Element `i` of `v`, when `v` is an array that long.
pub open spec fn elem(v: Json, i: int) -> Option<Json> {
    match v {
        Json::Array(a) => if 0 <= i < a@.len() {
            Some(a@[i])
        } else {
            None
        },
        _ => None,
    }
}

/// `member`, through an optional value.
pub open spec fn then_member(v: Option<Json>, k: Seq<char>) -> Option<Json> {
    match v {
        Some(j) => member(j, k),
        None => None,
    }
}

/// `elem`, through an optional value.
pub open spec fn then_elem(v: Option<Json>, i: int) -> Option<Json> {
    match v {
        Some(j) => elem(j, i),
        None => None,
    }
}

/// `v[key]` through an optional value (`serde_json`'s `value["key"]`).
pub fn field<'a>(v: Option<&'a Json>, key: &str) -> (r: Option<&'a Json>)
    ensures
        deref_opt(r) == then_member(deref_opt(v), key@),
{
    match v {
        Some(j) => get(j, key),
        None => None,
    }
}

/// `v[i]` through an optional value.
pub fn at<'a>(v: Option<&'a Json>, i: usize) -> (r: Option<&'a Json>)
    ensures
        deref_opt(r) == then_elem(deref_opt(v), i as int),
{
    match v {
        Some(Json::Array(a)) => if i < a.len() {
            Some(&a[i])
        } else {
            None
        },
        _ => None,
    }
}

/// The boolean payload, when `v` is a boolean.
pub open spec fn bool_of(v: Option<Json>) -> Option<bool> {
    match v {
        Some(Json::Bool(b)) => Some(b),
        _ => None,
    }
}

pub fn as_bool(v: Option<&Json>) -> (r: Option<bool>)
    ensures
        r == bool_of(deref_opt(v)),
{
    match v {
        Some(Json::Bool(b)) => Some(*b),
        _ => None,
    }
}

/// A JSON value as the specification sees it.
pub enum JValue {
    Null,
    Bool(bool),
    Number(Seq<char>, Option<u64>, Option<i64>),
    Str(Seq<char>),
    Array(Seq<JValue>),
    Object(Seq<(Seq<char>, JValue)>),
}

/// The mathematical value of a JSON document (members in order).
pub open spec fn json_view(v: Json) -> JValue
    decreases v,
{
    match v {
        Json::Null => JValue::Null,
        Json::Bool(b) => JValue::Bool(b),
        Json::Number(n) => JValue::Number(n.text@, n.unsigned, n.signed),
        Json::Str(s) => JValue::Str(s@),
        Json::Array(a) => JValue::Array(
            Seq::new(
                a@.len(),
                |i: int|
                    if 0 <= i < a@.len() {
                        json_view(a@[i])
                    } else {
                        JValue::Null
                    },
            ),
        ),
        Json::Object(f) => JValue::Object(
            Seq::new(
                f@.len(),
                |i: int|
                    if 0 <= i < f@.len() {
                        (f@[i].0@, json_view(f@[i].1))
                    } else {
                        (Seq::empty(), JValue::Null)
                    },
            ),
        ),
    }
}

impl View for Json {
    type V = JValue;

    open spec fn view(&self) -> JValue {
        json_view(*self)
    }
}

/// The members of an object, as the specification sees them.
pub open spec fn fields_view(f: Seq<(String, Json)>) -> Seq<(Seq<char>, JValue)> {
    Seq::new(f.len(), |i: int| (f[i].0@, json_view(f[i].1)))
}

/// An object's view is the view of its members.
pub proof fn lemma_object_view(f: Vec<(String, Json)>)
    ensures
        json_view(Json::Object(f)) == JValue::Object(fields_view(f@)),
{
    if let JValue::Object(x) = json_view(Json::Object(f)) {
        assert(x =~= fields_view(f@));
    }
}

/// A deep copy of `v`.
pub fn copy_json(v: &Json) -> (r: Json)
    ensures
        r@ == v@,
    decreases v,
{
    match v {
        Json::Null => Json::Null,
        Json::Bool(b) => Json::Bool(*b),
        Json::Number(n) => Json::Number(
            JsonNumber { text: n.text.clone(), unsigned: n.unsigned, signed: n.signed },
        ),
        Json::Str(s) => Json::Str(s.clone()),
        Json::Array(a) => {
            let mut out: Vec<Json> = Vec::new();
            let mut i: usize = 0;
            while i < a.len()
                invariant
                    *v == Json::Array(*a),
                    i <= a.len(),
                    out@.len() == i,
                    forall|j: int| 0 <= j < i ==> json_view(#[trigger] out@[j]) == json_view(a@[j]),
                decreases a.len() - i,
            {
                assert(decreases_to!(*v => (*v)->Array_0));
                assert(decreases_to!(*a => a[i as int]));
                assert(decreases_to!(*v => a[i as int]));
                let e = copy_json(&a[i]);
                out.push(e);
                i = i + 1;
            }
            let r = Json::Array(out);
            assert(json_view(r) == json_view(*v)) by {
                if let JValue::Array(x) = json_view(r) {
                    if let JValue::Array(y) = json_view(*v) {
                        assert(x =~= y);
                    }
                }
            }
            r
        },
        Json::Object(f) => {
            let mut out: Vec<(String, Json)> = Vec::new();
            let mut i: usize = 0;
            while i < f.len()
                invariant
                    *v == Json::Object(*f),
                    i <= f.len(),
                    out@.len() == i,
                    forall|j: int|
                        0 <= j < i ==> (#[trigger] out@[j]).0@ == f@[j].0@ && json_view(out@[j].1)
                            == json_view(f@[j].1),
                decreases f.len() - i,
            {
                assert(decreases_to!(*v => (*v)->Object_0));
                assert(decreases_to!(*f => f[i as int]));
                assert(decreases_to!(f[i as int] => f[i as int].1));
                assert(decreases_to!(*v => f[i as int].1));
                let e = copy_json(&f[i].1);
                out.push((f[i].0.clone(), e));
                i = i + 1;
            }
            let r = Json::Object(out);
            assert(json_view(r) == json_view(*v)) by {
                if let JValue::Object(x) = json_view(r) {
                    if let JValue::Object(y) = json_view(*v) {
                        assert(x =~= y);
                    }
                }
            }
            r
        },
    }
}

impl Clone for Json {
    fn clone(&self) -> (r: Self)
        ensures
            r@ == self@,
    {
        copy_json(self)
    }
}

/// The number `n`.
pub open spec fn u64_value(n: u64) -> JValue {
    JValue::Number(
        crate::text::decimal(n as nat),
        Some(n),
        if n <= i64::MAX {
            Some(n as i64)
        } else {
            None
        },
    )
}

pub fn num_u64(n: u64) -> (r: Json)
    ensures
        r@ == u64_value(n),
{
    let signed = if n <= i64::MAX as u64 {
        Some(n as i64)
    } else {
        None
    };
    Json::Number(JsonNumber { text: crate::text::u64_to_decimal(n), unsigned: Some(n), signed })
}

/// The views of a list of strings, as JSON strings.
pub open spec fn str_values(v: Seq<String>) -> Seq<JValue> {
    Seq::new(v.len(), |i: int| JValue::Str(v[i]@))
}

/// A JSON array of the strings `v`.
pub fn str_array(v: &Vec<String>) -> (r: Json)
    ensures
        r@ == JValue::Array(str_values(v@)),
{
    let mut out: Vec<Json> = Vec::new();
    let mut i: usize = 0;
    while i < v.len()
        invariant
            i <= v.len(),
            out@.len() == i,
            forall|j: int| 0 <= j < i ==> json_view(#[trigger] out@[j]) == JValue::Str(v@[j]@),
        decreases v.len() - i,
    {
        out.push(Json::Str(v[i].clone()));
        i = i + 1;
    }
    let r = Json::Array(out);
    proof {
        if let JValue::Array(x) = json_view(r) {
            assert(x =~= str_values(v@));
        }
    }
    r
}

/// The views of a list of JSON values.
pub open spec fn items_view(v: Seq<Json>) -> Seq<JValue> {
    Seq::new(v.len(), |i: int| v[i]@)
}

/// A JSON array of `items`, in order.
pub fn array(items: Vec<Json>) -> (r: Json)
    ensures
        r@ == JValue::Array(items_view(items@)),
{
    let r = Json::Array(items);
    proof {
        if let JValue::Array(x) = json_view(r) {
            assert(x =~= items_view(items@));
        }
    }
    r
}

/// A JSON object of `fields`, in order.
pub fn object(fields: Vec<(String, Json)>) -> (r: Json)
    ensures
        r@ == JValue::Object(fields_view(fields@)),
{
    proof {
        lemma_object_view(fields);
    }
    Json::Object(fields)
}

/// The text of the first choice of a chat-completion response
/// (`choices[0].message.content`).
pub open spec fn reply_content(resp: Json) -> Option<Seq<char>> {
    str_of(then_member(then_member(then_elem(member(resp, "choices"@), 0), "message"@), "content"@))
}

/// The error message of a chat-completion response (`error.message`).
pub open spec fn reply_error(resp: Json) -> Option<Seq<char>> {
    str_of(then_member(member(resp, "error"@), "message"@))
}

pub fn completion_content(resp: &Json) -> (r: Option<&str>)
    ensures
        match r {
            Some(s) => reply_content(*resp) == Some(s@),
            None => reply_content(*resp) is None,
        },
{
    as_str(field(field(at(get(resp, "choices"), 0), "message"), "content"))
}

pub fn completion_error(resp: &Json) -> (r: Option<&str>)
    ensures
        match r {
            Some(s) => reply_error(*resp) == Some(s@),
            None => reply_error(*resp) is None,
        },
{
    as_str(field(get(resp, "error"), "message"))
}

} // verus!
