//! JSON values.
use serde_json::Value;
use vstd::prelude::*;
use vstd::utf8::encode_utf8;

use crate::float::{check_finite, is_finite_float, json_number, number_for_json};
use crate::paths::path_lt;
use crate::text::str_eq;

verus! {

/// A JSON value. A number that is no integer is carried as the text that writes it.
#[derive(Debug, PartialEq)]
pub enum Json {
    Null,
    Bool(bool),
    Int(i128),
    Float(String),
    Str(String),
    Array(Vec<Json>),
    Object(Vec<(String, Json)>),
}

/// The mathematical value of a `Json`.
pub ghost enum JsonView {
    Null,
    Bool(bool),
    Int(int),
    Float(Seq<char>),
    Str(Seq<char>),
    Array(Seq<JsonView>),
    Object(Seq<(Seq<char>, JsonView)>),
}

impl Json {
    pub open spec fn view(&self) -> JsonView
        decreases self,
    {
        match self {
            Json::Null => JsonView::Null,
            Json::Bool(b) => JsonView::Bool(*b),
            Json::Int(i) => JsonView::Int(*i as int),
            Json::Float(t) => JsonView::Float(t@),
            Json::Str(s) => JsonView::Str(s@),
            Json::Array(items) => JsonView::Array(items_view(items@)),
            Json::Object(members) => JsonView::Object(members_view(members@)),
        }
    }
}

pub open spec fn items_view(items: Seq<Json>) -> Seq<JsonView>
    decreases items,
{
    Seq::new(
        items.len(),
        |i: int|
            if 0 <= i < items.len() {
                items[i].view()
            } else {
                JsonView::Null
            },
    )
}

pub open spec fn members_view(members: Seq<(String, Json)>) -> Seq<(Seq<char>, JsonView)>
    decreases members,
{
    Seq::new(
        members.len(),
        |i: int|
            if 0 <= i < members.len() {
                (members[i].0@, members[i].1.view())
            } else {
                (seq![], JsonView::Null)
            },
    )
}

/// The value of the first member of a name, from the `k`-th member on.
pub open spec fn member_from(members: Seq<(Seq<char>, JsonView)>, name: Seq<char>, k: int) -> Option<
    JsonView,
>
    decreases members.len() - k,
{
    if k < 0 || k >= members.len() {
        None
    } else if members[k].0 == name {
        Some(members[k].1)
    } else {
        member_from(members, name, k + 1)
    }
}

/// The value of a member; `None` where there is no such member or the value is no object.
pub open spec fn member(j: JsonView, name: Seq<char>) -> Option<JsonView> {
    match j {
        JsonView::Object(members) => member_from(members, name, 0),
        _ => None,
    }
}

/// The text of a member that is a string.
pub open spec fn text_member(j: JsonView, name: Seq<char>) -> Option<Seq<char>> {
    match member(j, name) {
        Some(JsonView::Str(s)) => Some(s),
        _ => None,
    }
}

/// A member that is found is a part of the value.
pub proof fn lemma_member_smaller(members: Seq<(Seq<char>, JsonView)>, name: Seq<char>, k: int)
    ensures
        member_from(members, name, k) matches Some(v) ==> decreases_to!(members => v),
        member_from(members, name, k) matches Some(v) ==> exists|i: int|
            0 <= i < members.len() && (#[trigger] members[i]).1 == v,
    decreases members.len() - k,
{
    if 0 <= k < members.len() {
        if members[k].0 == name {
            assert(decreases_to!(members => members[k]));
            assert(decreases_to!(members[k] => members[k].1));
        } else {
            lemma_member_smaller(members, name, k + 1);
        }
    }
}

impl Json {
    /// The value of a member; `None` where there is no such member or the value is no object.
    pub fn get(&self, name: &str) -> (r: Option<&Json>)
        ensures
            match r {
                Some(v) => member(self@, name@) == Some(v@) && decreases_to!(*self => *v),
                None => member(self@, name@) is None,
            },
    {
        match self {
            Json::Object(members) => {
                let mut k: usize = 0;
                while k < members.len()
                    invariant
                        0 <= k <= members@.len(),
                        member_from(members_view(members@), name@, 0) == member_from(
                            members_view(members@),
                            name@,
                            k as int,
                        ),
                        *self == Json::Object(*members),
                    decreases members@.len() - k,
                {
                    assert(members_view(members@)[k as int] == (
                        members@[k as int].0@,
                        members@[k as int].1@,
                    ));
                    if str_eq(members[k].0.as_str(), name) {
                        proof {
                            assert(decreases_to!(*self => *members));
                            assert(decreases_to!(*members => members@));
                            assert(decreases_to!(members@ => members@[k as int]));
                            assert(decreases_to!(members@[k as int] => members@[k as int].1));
                        }
                        return Some(&members[k].1);
                    }
                    k = k + 1;
                }
                None
            },
            _ => None,
        }
    }

    /// The text of a string.
    pub fn as_str(&self) -> (r: Option<&String>)
        ensures
            match r {
                Some(s) => self@ == JsonView::Str(s@),
                None => !(self@ is Str),
            },
    {
        match self {
            Json::Str(s) => Some(s),
            _ => None,
        }
    }

    /// The text of a member that is a string.
    pub fn get_str(&self, name: &str) -> (r: Option<&String>)
        ensures
            match r {
                Some(s) => text_member(self@, name@) == Some(s@),
                None => text_member(self@, name@) is None,
            },
    {
        match self.get(name) {
            Some(v) => v.as_str(),
            None => None,
        }
    }
}

/// An object's members, put together by name.
pub fn object() -> (r: Vec<(String, Json)>)
    ensures
        members_view(r@) == Seq::<(Seq<char>, JsonView)>::empty(),
{
    let r: Vec<(String, Json)> = Vec::new();
    assert(members_view(r@) =~= Seq::<(Seq<char>, JsonView)>::empty());
    r
}

/// Adds a member.
pub fn put(members: &mut Vec<(String, Json)>, name: &str, value: Json)
    ensures
        members_view(final(members)@) == members_view(old(members)@).push((name@, value@)),
{
    members.push((name.to_owned(), value));
    assert(members_view(members@) =~= members_view(old(members)@).push((name@, value@)));
}

/// `serde_json::Value`: a parsed value, which nothing here looks into.
#[verifier::external_type_specification]
#[verifier::external_body]
pub struct ExJsonValue(serde_json::Value);

/// A `serde_json::Value` as a value of this crate, part for part: a number that `as_i64` or
/// `as_u64` gives is an integer, any other is carried as the text that `Display` gives of it.
/// Nothing is claimed of it here; `json_from_bytes` and its name cover it.
#[verifier::external_body]
fn json_of(v: &Value) -> (r: Json) {
    match v {
        Value::Null => Json::Null,
        Value::Bool(b) => Json::Bool(*b),
        Value::Number(n) => match (n.as_i64(), n.as_u64()) {
            (Some(i), _) => Json::Int(i.into()),
            (None, Some(u)) => Json::Int(u.into()),
            (None, None) => Json::Float(n.to_string()),
        },
        Value::String(s) => Json::Str(s.clone()),
        Value::Array(items) => Json::Array(items.iter().map(json_of).collect()),
        Value::Object(ms) => {
            Json::Object(ms.iter().map(|m| (m.0.clone(), json_of(m.1))).collect())
        }
    }
}

/// A value of this crate as a `serde_json::Value`, part for part. An integer that
/// `Number::from_i128` refuses, and a text that `Number::from_str` refuses, become null. Nothing
/// is claimed of it here; `json_to_bytes` and `json_to_text` and their names cover it.
#[verifier::external_body]
fn value_of(j: &Json) -> (r: Value) {
    match j {
        Json::Null => Value::Null,
        Json::Bool(b) => Value::Bool(*b),
        Json::Int(i) => serde_json::Number::from_i128(*i).map_or(Value::Null, Into::into),
        Json::Float(t) => t.parse().map_or(Value::Null, Value::Number),
        Json::Str(s) => Value::String(s.clone()),
        Json::Array(items) => Value::Array(items.iter().map(value_of).collect()),
        Json::Object(ms) => {
            Value::Object(ms.iter().map(|m| (m.0.clone(), value_of(&m.1))).collect())
        }
    }
}

/// What `serde_json::from_slice` reads in bytes: a value, or the text of its error.
pub uninterp spec fn json_read(bytes: Seq<u8>) -> Result<JsonView, Seq<char>>;

/// `serde_json::from_slice`: the value that bytes write, or the text of the error; it depends on
/// the bytes alone.
#[verifier::external_body]
pub(crate) fn json_from_bytes(bytes: &[u8]) -> (r: Result<Json, String>)
    ensures
        match r {
            Ok(j) => json_read(bytes@) == Ok::<JsonView, Seq<char>>(j@),
            Err(e) => json_read(bytes@) == Err::<JsonView, Seq<char>>(e@),
        },
{
    match serde_json::from_slice::<serde_json::Value>(bytes) {
        Ok(v) => Ok(json_of(&v)),
        Err(e) => Err(e.to_string()),
    }
}

/// What `serde_json::to_vec` makes of a value: bytes, or the text of its error.
pub uninterp spec fn json_bytes(j: JsonView) -> Result<Seq<u8>, Seq<char>>;

/// `serde_json::to_vec`: the bytes of a value, or the text of the error; it depends on the value
/// alone.
#[verifier::external_body]
pub(crate) fn json_to_bytes(j: &Json) -> (r: Result<Vec<u8>, String>)
    ensures
        match r {
            Ok(b) => json_bytes(j@) == Ok::<Seq<u8>, Seq<char>>(b@),
            Err(e) => json_bytes(j@) == Err::<Seq<u8>, Seq<char>>(e@),
        },
{
    serde_json::to_vec(&value_of(j)).map_err(|e| e.to_string())
}

/// Whether `serde_json::from_slice` reads a value in bytes.
pub open spec fn reads_as(bytes: Seq<u8>, j: JsonView) -> bool {
    json_read(bytes) == Ok::<JsonView, Seq<char>>(j)
}

/// Whether a value is a record: an object of texts and of integers of 64 bits, whose names come in
/// ascending order.
pub open spec fn is_record(j: JsonView) -> bool {
    &&& j is Object
    &&& forall|i: int|
        0 <= i < j->Object_0.len() ==> match (#[trigger] j->Object_0[i]).1 {
            JsonView::Str(_) => true,
            JsonView::Int(n) => i64::MIN <= n <= u64::MAX,
            _ => false,
        }
    &&& forall|i: int, k: int|
        0 <= i < k < j->Object_0.len() ==> path_lt(
            encode_utf8((#[trigger] j->Object_0[i]).0),
            encode_utf8((#[trigger] j->Object_0[k]).0),
        )
}

/// The text that `Display` gives of a `serde_json::Value`.
pub uninterp spec fn json_text(j: JsonView) -> Seq<char>;

/// `<serde_json::Value as Display>::fmt`: the text of a value, which depends on the value alone.
/// The text of a record is read back as that record.
#[verifier::external_body]
pub(crate) fn json_to_text(j: &Json) -> (r: String)
    ensures
        r@ == json_text(j@),
        is_record(j@) ==> reads_as(encode_utf8(r@), j@),
{
    value_of(j).to_string()
}

/// A value whose floats are written as JSON numbers; one that is not finite is null.
pub open spec fn writable(j: JsonView) -> JsonView
    decreases j,
{
    match j {
        JsonView::Float(t) => if is_finite_float(encode_utf8(t)) {
            JsonView::Float(json_number(t))
        } else {
            JsonView::Null
        },
        JsonView::Array(items) => JsonView::Array(writable_items(items)),
        JsonView::Object(members) => JsonView::Object(writable_members(members)),
        _ => j,
    }
}

pub open spec fn writable_items(items: Seq<JsonView>) -> Seq<JsonView>
    decreases items,
{
    Seq::new(
        items.len(),
        |i: int|
            if 0 <= i < items.len() {
                writable(items[i])
            } else {
                JsonView::Null
            },
    )
}

pub open spec fn writable_members(members: Seq<(Seq<char>, JsonView)>) -> Seq<
    (Seq<char>, JsonView),
>
    decreases members,
{
    Seq::new(
        members.len(),
        |i: int|
            if 0 <= i < members.len() {
                (members[i].0, writable(members[i].1))
            } else {
                (seq![], JsonView::Null)
            },
    )
}

/// A value whose floats are written as JSON numbers.
pub fn make_writable(j: &Json) -> (r: Json)
    ensures
        r@ == writable(j@),
    decreases j, 0int,
{
    match j {
        Json::Null => Json::Null,
        Json::Bool(b) => Json::Bool(*b),
        Json::Int(i) => Json::Int(*i),
        Json::Float(t) => if check_finite(t.as_str().as_bytes()) {
            Json::Float(number_for_json(t.as_str()))
        } else {
            Json::Null
        },
        Json::Str(s) => Json::Str(s.clone()),
        Json::Array(items) => Json::Array(make_items_writable(items)),
        Json::Object(members) => Json::Object(make_members_writable(members)),
    }
}

fn make_items_writable(items: &Vec<Json>) -> (r: Vec<Json>)
    ensures
        items_view(r@) == writable_items(items_view(items@)),
    decreases items, 0int,
{
    let ghost js = items_view(items@);
    let mut out: Vec<Json> = Vec::new();
    let mut i: usize = 0;
    while i < items.len()
        invariant
            i <= items@.len(),
            js == items_view(items@),
            out@.len() == i,
            forall|k: int| 0 <= k < i ==> (#[trigger] out@[k])@ == writable(js[k]),
        decreases items@.len() - i,
    {
        assert(js[i as int] == items@[i as int]@);
        out.push(make_writable(&items[i]));
        i = i + 1;
    }
    assert(items_view(out@) =~= writable_items(js));
    out
}

fn make_member_writable(name: &String, value: &Json) -> (r: (String, Json))
    ensures
        r.0@ == name@,
        r.1@ == writable(value@),
    decreases value, 1int,
{
    (name.clone(), make_writable(value))
}

fn make_members_writable(members: &Vec<(String, Json)>) -> (r: Vec<(String, Json)>)
    ensures
        members_view(r@) == writable_members(members_view(members@)),
    decreases members, 0int,
{
    let ghost js = members_view(members@);
    let mut out: Vec<(String, Json)> = Vec::new();
    let mut i: usize = 0;
    while i < members.len()
        invariant
            i <= members@.len(),
            js == members_view(members@),
            out@.len() == i,
            forall|k: int|
                0 <= k < i ==> (#[trigger] out@[k]).0@ == js[k].0 && out@[k].1@ == writable(
                    js[k].1,
                ),
        decreases members@.len() - i,
    {
        assert(js[i as int] == (members@[i as int].0@, members@[i as int].1@));
        proof {
            assert(decreases_to!(members => members@));
            assert(decreases_to!(members@ => members@[i as int]));
            assert(decreases_to!(members@[i as int] => members@[i as int].1));
        }
        out.push(make_member_writable(&members[i].0, &members[i].1));
        i = i + 1;
    }
    assert(members_view(out@) =~= writable_members(js));
    out
}

} // verus!
