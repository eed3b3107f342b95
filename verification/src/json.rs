//! The JSON the host sends the engine, as a value of the library's own.
//!
//! Only the shapes the host builds: strings, arrays and objects. An object keeps its fields
//! in the order they were given; the host turns a value into the engine's wire form when it
//! sends it.
use vstd::prelude::*;

verus! {

/// A JSON value the host builds.
#[derive(Debug, PartialEq, Eq)]
pub enum Json {
    Text(String),
    List(Vec<Json>),
    Object(Vec<(String, Json)>),
}

/// A JSON value as values.
pub enum JsonView {
    Text(Seq<char>),
    List(Seq<JsonView>),
    Object(Seq<(Seq<char>, JsonView)>),
}

/// The value a [`Json`] holds.
pub open spec fn json_view(j: Json) -> JsonView
    decreases j,
{
    match j {
        Json::Text(s) => JsonView::Text(s@),
        Json::List(v) => JsonView::List(
            Seq::new(
                v@.len(),
                |i: int|
                    if 0 <= i < v@.len() {
                        json_view(v@[i])
                    } else {
                        JsonView::Text(Seq::empty())
                    },
            ),
        ),
        Json::Object(v) => JsonView::Object(
            Seq::new(
                v@.len(),
                |i: int|
                    if 0 <= i < v@.len() {
                        (v@[i].0@, json_view(v@[i].1))
                    } else {
                        (Seq::empty(), JsonView::Text(Seq::empty()))
                    },
            ),
        ),
    }
}

/// The values of a sequence of [`Json`].
pub open spec fn json_views(s: Seq<Json>) -> Seq<JsonView> {
    s.map_values(|j: Json| json_view(j))
}

/// The fields of an object as values.
pub open spec fn field_views(s: Seq<(String, Json)>) -> Seq<(Seq<char>, JsonView)> {
    s.map_values(|f: (String, Json)| (f.0@, json_view(f.1)))
}

/// A string.
pub fn text(s: String) -> (r: Json)
    ensures
        json_view(r) == JsonView::Text(s@),
{
    Json::Text(s)
}

/// An array of `items`, in order.
pub fn list(items: Vec<Json>) -> (r: Json)
    ensures
        json_view(r) == JsonView::List(json_views(items@)),
{
    let ghost v = items@;
    let r = Json::List(items);
    assert(json_view(r) is List);
    assert(json_view(r)->List_0 =~= json_views(v));
    r
}

/// An object with `fields`, in order.
pub fn object(fields: Vec<(String, Json)>) -> (r: Json)
    ensures
        json_view(r) == JsonView::Object(field_views(fields@)),
{
    let ghost v = fields@;
    let r = Json::Object(fields);
    assert(json_view(r) is Object);
    assert(json_view(r)->Object_0 =~= field_views(v));
    r
}

/// A number the engine sent, as the host reads numbers.
#[derive(Debug, Clone, Copy, PartialEq, Eq)]
pub struct JsonNumber {
    /// The number as an unsigned integer, when it is one that fits.
    pub as_u64: Option<u64>,
    /// The number as a signed integer, when it is one that fits.
    pub as_i64: Option<i64>,
    /// The number read as a float, when that is finite and not negative, cut to a whole
    /// `u64` (saturating): how a size or a window given as `1e6` is read.
    pub whole: Option<u64>,
}

/// A JSON value the engine sent.
#[derive(Debug, PartialEq, Eq)]
pub enum JsonValue {
    Null,
    Bool(bool),
    Number(JsonNumber),
    Text(String),
    List(Vec<JsonValue>),
    /// An object's fields, each key once.
    Object(Vec<(String, JsonValue)>),
}

/// The position of the first field named `key`.
pub open spec fn field_index(fields: Seq<(String, JsonValue)>, key: Seq<char>) -> Option<int> {
    if exists|i: int| 0 <= i < fields.len() && fields[i].0@ == key {
        Some(choose|i: int| 0 <= i < fields.len() && fields[i].0@ == key && forall|j: int| 0 <= j < i ==> #[trigger] fields[j].0@ != key)
    } else {
        None
    }
}

/// `Value::get`: an object's field named `key`; nothing for anything but an object.
pub open spec fn field(v: JsonValue, key: Seq<char>) -> Option<JsonValue> {
    match v {
        JsonValue::Object(fields) => match field_index(fields@, key) {
            Some(i) => Some(fields@[i].1),
            None => None,
        },
        _ => None,
    }
}

/// `Value::as_str`.
pub open spec fn str_of(v: Option<JsonValue>) -> Option<Seq<char>> {
    match v {
        Some(JsonValue::Text(s)) => Some(s@),
        _ => None,
    }
}

/// `Value::as_bool`.
pub open spec fn bool_of(v: Option<JsonValue>) -> Option<bool> {
    match v {
        Some(JsonValue::Bool(b)) => Some(b),
        _ => None,
    }
}

/// `Value::as_u64`.
pub open spec fn u64_of(v: Option<JsonValue>) -> Option<u64> {
    match v {
        Some(JsonValue::Number(n)) => n.as_u64,
        _ => None,
    }
}

/// `Value::as_i64`.
pub open spec fn i64_of(v: Option<JsonValue>) -> Option<i64> {
    match v {
        Some(JsonValue::Number(n)) => n.as_i64,
        _ => None,
    }
}

proof fn lemma_field_index(fields: Seq<(String, JsonValue)>, key: Seq<char>, k: int)
    requires
        0 <= k < fields.len(),
        fields[k].0@ == key,
        forall|j: int| 0 <= j < k ==> #[trigger] fields[j].0@ != key,
    ensures
        field_index(fields, key) == Some(k),
{
    let w = choose|i: int| 0 <= i < fields.len() && fields[i].0@ == key && forall|j: int| 0 <= j < i ==> #[trigger] fields[j].0@ != key;
    assert(0 <= k < fields.len() && fields[k].0@ == key && forall|j: int| 0 <= j < k ==> #[trigger] fields[j].0@ != key);
    if w < k {
        assert(fields[w].0@ != key);
    } else if k < w {
        assert(fields[k].0@ != key);
    }
}

/// `Value::get`.
pub fn get<'a>(v: &'a JsonValue, key: &str) -> (r: Option<&'a JsonValue>)
    ensures
        match r {
            Some(x) => field(*v, key@) == Some(*x),
            None => field(*v, key@) is None,
        },
{
    match v {
        JsonValue::Object(fields) => {
            let mut i: usize = 0;
            while i < fields.len()
                invariant
                    i <= fields@.len(),
                    *v == JsonValue::Object(*fields),
                    forall|j: int| 0 <= j < i ==> #[trigger] fields@[j].0@ != key@,
                decreases fields@.len() - i,
            {
                if crate::text::str_eq(fields[i].0.as_str(), key) {
                    proof {
                        lemma_field_index(fields@, key@, i as int);
                    }
                    return Some(&fields[i].1);
                }
                i = i + 1;
            }
            None
        },
        _ => None,
    }
}

/// `Value::as_str`.
pub fn as_str<'a>(v: Option<&'a JsonValue>) -> (r: Option<&'a str>)
    ensures
        match r {
            Some(s) => str_of(match v {
                Some(x) => Some(*x),
                None => None,
            }) == Some(s@),
            None => str_of(match v {
                Some(x) => Some(*x),
                None => None,
            }) is None,
        },
{
    match v {
        Some(JsonValue::Text(s)) => Some(s.as_str()),
        _ => None,
    }
}

/// `Value::as_bool`.
pub fn as_bool(v: Option<&JsonValue>) -> (r: Option<bool>)
    ensures
        r == bool_of(match v {
            Some(x) => Some(*x),
            None => None,
        }),
{
    match v {
        Some(JsonValue::Bool(b)) => Some(*b),
        _ => None,
    }
}

/// `Value::as_u64`.
pub fn as_u64(v: Option<&JsonValue>) -> (r: Option<u64>)
    ensures
        r == u64_of(match v {
            Some(x) => Some(*x),
            None => None,
        }),
{
    match v {
        Some(JsonValue::Number(n)) => n.as_u64,
        _ => None,
    }
}

/// `Value::as_i64`.
pub fn as_i64(v: Option<&JsonValue>) -> (r: Option<i64>)
    ensures
        r == i64_of(match v {
            Some(x) => Some(*x),
            None => None,
        }),
{
    match v {
        Some(JsonValue::Number(n)) => n.as_i64,
        _ => None,
    }
}

/// `Value::as_array`.
pub open spec fn array_of(v: Option<JsonValue>) -> Option<Seq<JsonValue>> {
    match v {
        Some(JsonValue::List(items)) => Some(items@),
        _ => None,
    }
}

/// `Value::as_array`.
pub fn as_array<'a>(v: Option<&'a JsonValue>) -> (r: Option<&'a Vec<JsonValue>>)
    ensures
        match r {
            Some(items) => array_of(match v {
                Some(x) => Some(*x),
                None => None,
            }) == Some(items@),
            None => array_of(match v {
                Some(x) => Some(*x),
                None => None,
            }) is None,
        },
{
    match v {
        Some(JsonValue::List(items)) => Some(items),
        _ => None,
    }
}

} // verus!
