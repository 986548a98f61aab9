//! A JSON document as the converters read and write it.
use crate::text::str_eq;
use vstd::prelude::*;
use vstd::string::*;

verus! {

/// Whether a JSON number is an integer, and of which sign.
#[derive(Debug, Clone, Copy, PartialEq, Eq, Structural)]
pub enum NumberKind {
    /// A non-negative integer.
    PosInt(u64),
    /// A negative integer.
    NegInt(i64),
    /// A number with a fraction or an exponent.
    Float,
}

/// A JSON number: whether it is an integer, and where known the bit patterns
/// of the nearest binary64 and binary32 values, which is how the float-valued
/// record fields read it.
#[derive(Debug, Clone, Copy, PartialEq, Eq, Structural)]
pub struct JsonNumber {
    pub kind: NumberKind,
    pub as_double: Option<u64>,
    pub as_single: Option<u32>,
}

/// A JSON value; an object keeps its members in order.
#[derive(Debug)]
pub enum JsonValue {
    Null,
    Bool(bool),
    Number(JsonNumber),
    String(String),
    Array(Vec<JsonValue>),
    Object(Vec<(String, JsonValue)>),
}

/// The mathematical value of a `JsonValue`.
pub enum JsonV {
    Null,
    Bool(bool),
    Number(JsonNumber),
    Str(Seq<char>),
    Array(Seq<JsonV>),
    Object(Seq<(Seq<char>, JsonV)>),
}

pub open spec fn json_view(v: JsonValue) -> JsonV
    decreases v,
{
    match v {
        JsonValue::Null => JsonV::Null,
        JsonValue::Bool(b) => JsonV::Bool(b),
        JsonValue::Number(n) => JsonV::Number(n),
        JsonValue::String(s) => JsonV::Str(s@),
        JsonValue::Array(a) => JsonV::Array(items_view(a@)),
        JsonValue::Object(o) => JsonV::Object(entries_view(o@)),
    }
}

pub open spec fn items_view(s: Seq<JsonValue>) -> Seq<JsonV>
    decreases s,
{
    if s.len() == 0 {
        Seq::empty()
    } else {
        items_view(s.drop_last()).push(json_view(s.last()))
    }
}

pub open spec fn entries_view(s: Seq<(String, JsonValue)>) -> Seq<(Seq<char>, JsonV)>
    decreases s,
{
    if s.len() == 0 {
        Seq::empty()
    } else {
        entries_view(s.drop_last()).push((s.last().0@, json_view(s.last().1)))
    }
}

impl View for JsonValue {
    type V = JsonV;

    open spec fn view(&self) -> JsonV {
        json_view(*self)
    }
}

/// The value of the first member of an object named `key`.
pub open spec fn first_with_key(es: Seq<(Seq<char>, JsonV)>, key: Seq<char>, i: int) -> Option<JsonV>
    decreases es.len() - i,
{
    if i < 0 || i >= es.len() {
        None
    } else if es[i].0 == key {
        Some(es[i].1)
    } else {
        first_with_key(es, key, i + 1)
    }
}

/// `value.get(key)`: the member named `key` of an object, if any.
pub open spec fn field(v: JsonV, key: Seq<char>) -> Option<JsonV> {
    match v {
        JsonV::Object(es) => first_with_key(es, key, 0),
        _ => None,
    }
}

/// `value[key]`: the member named `key` of an object, or null.
pub open spec fn index(v: JsonV, key: Seq<char>) -> JsonV {
    match field(v, key) {
        Some(x) => x,
        None => JsonV::Null,
    }
}

/// The number as an `i64`, if it is an integer in range.
pub open spec fn as_i64(v: JsonV) -> Option<i64> {
    match v {
        JsonV::Number(n) => match n.kind {
            NumberKind::PosInt(u) => if u <= i64::MAX { Some(u as i64) } else { None },
            NumberKind::NegInt(i) => Some(i),
            NumberKind::Float => None,
        },
        _ => None,
    }
}

/// The number as a `u64`, if it is a non-negative integer.
pub open spec fn as_u64(v: JsonV) -> Option<u64> {
    match v {
        JsonV::Number(n) => match n.kind {
            NumberKind::PosInt(u) => Some(u),
            _ => None,
        },
        _ => None,
    }
}

/// The binary64 bits of a number, where known.
pub open spec fn as_double(v: JsonV) -> Option<u64> {
    match v {
        JsonV::Number(n) => n.as_double,
        _ => None,
    }
}

/// The binary32 bits of a number, where known.
pub open spec fn as_single(v: JsonV) -> Option<u32> {
    match v {
        JsonV::Number(n) => n.as_single,
        _ => None,
    }
}

pub open spec fn as_bool(v: JsonV) -> Option<bool> {
    match v {
        JsonV::Bool(b) => Some(b),
        _ => None,
    }
}

pub open spec fn as_str(v: JsonV) -> Option<Seq<char>> {
    match v {
        JsonV::Str(s) => Some(s),
        _ => None,
    }
}

pub open spec fn as_array(v: JsonV) -> Option<Seq<JsonV>> {
    match v {
        JsonV::Array(a) => Some(a),
        _ => None,
    }
}

pub open spec fn as_object(v: JsonV) -> Option<Seq<(Seq<char>, JsonV)>> {
    match v {
        JsonV::Object(o) => Some(o),
        _ => None,
    }
}

pub proof fn lemma_items_view(s: Seq<JsonValue>)
    ensures
        items_view(s).len() == s.len(),
        forall|i: int| 0 <= i < s.len() ==> #[trigger] items_view(s)[i] == json_view(s[i]),
    decreases s.len(),
{
    if s.len() > 0 {
        lemma_items_view(s.drop_last());
    }
}

pub proof fn lemma_entries_view(s: Seq<(String, JsonValue)>)
    ensures
        entries_view(s).len() == s.len(),
        forall|i: int| 0 <= i < s.len() ==> #[trigger] entries_view(s)[i] == (s[i].0@, json_view(s[i].1)),
    decreases s.len(),
{
    if s.len() > 0 {
        lemma_entries_view(s.drop_last());
    }
}

impl JsonValue {
    /// `self.get(key)`.
    pub fn get<'a>(&'a self, key: &str) -> (r: Option<&'a JsonValue>)
        ensures
            match field(self@, key@) {
                Some(x) => r matches Some(y) && y@ == x,
                None => r is None,
            },
    {
        match self {
            JsonValue::Object(o) => {
                proof {
                    lemma_entries_view(o@);
                }
                let ghost es = entries_view(o@);
                assert(self@ == JsonV::Object(es));
                let mut i: usize = 0;
                while i < o.len()
                    invariant
                        i <= o@.len(),
                        es == entries_view(o@),
                        self@ == JsonV::Object(es),
                        es.len() == o@.len(),
                        forall|k: int| 0 <= k < o@.len() ==> #[trigger] es[k] == (o@[k].0@, json_view(o@[k].1)),
                        first_with_key(es, key@, 0) == first_with_key(es, key@, i as int),
                    decreases o@.len() - i,
                {
                    if str_eq(o[i].0.as_str(), key) {
                        proof {
                            assert(es[i as int] == (o@[i as int].0@, json_view(o@[i as int].1)));
                            assert(first_with_key(es, key@, i as int) == Some(json_view(o@[i as int].1)));
                        }
                        return Some(&o[i].1);
                    }
                    i = i + 1;
                }
                None
            },
            _ => None,
        }
    }

    pub fn as_i64(&self) -> (r: Option<i64>)
        ensures
            r == as_i64(self@),
    {
        match self {
            JsonValue::Number(n) => match n.kind {
                NumberKind::PosInt(u) => if u <= 0x7FFF_FFFF_FFFF_FFFF { Some(u as i64) } else { None },
                NumberKind::NegInt(i) => Some(i),
                NumberKind::Float => None,
            },
            _ => None,
        }
    }

    pub fn as_u64(&self) -> (r: Option<u64>)
        ensures
            r == as_u64(self@),
    {
        match self {
            JsonValue::Number(n) => match n.kind {
                NumberKind::PosInt(u) => Some(u),
                _ => None,
            },
            _ => None,
        }
    }

    pub fn as_double(&self) -> (r: Option<u64>)
        ensures
            r == as_double(self@),
    {
        match self {
            JsonValue::Number(n) => n.as_double,
            _ => None,
        }
    }

    pub fn as_single(&self) -> (r: Option<u32>)
        ensures
            r == as_single(self@),
    {
        match self {
            JsonValue::Number(n) => n.as_single,
            _ => None,
        }
    }

    pub fn as_bool(&self) -> (r: Option<bool>)
        ensures
            r == as_bool(self@),
    {
        match self {
            JsonValue::Bool(b) => Some(*b),
            _ => None,
        }
    }

    pub fn as_str(&self) -> (r: Option<&str>)
        ensures
            match as_str(self@) {
                Some(s) => r matches Some(t) && t@ == s,
                None => r is None,
            },
    {
        match self {
            JsonValue::String(s) => Some(s.as_str()),
            _ => None,
        }
    }

    pub fn as_array(&self) -> (r: Option<&Vec<JsonValue>>)
        ensures
            match as_array(self@) {
                Some(a) => r matches Some(v) && items_view(v@) == a,
                None => r is None,
            },
    {
        match self {
            JsonValue::Array(a) => Some(a),
            _ => None,
        }
    }

    pub fn as_object(&self) -> (r: Option<&Vec<(String, JsonValue)>>)
        ensures
            match as_object(self@) {
                Some(o) => r matches Some(v) && entries_view(v@) == o,
                None => r is None,
            },
    {
        match self {
            JsonValue::Object(o) => Some(o),
            _ => None,
        }
    }

    /// `self[key]` read as an `i64`.
    pub fn field_i64(&self, key: &str) -> (r: Option<i64>)
        ensures
            r == as_i64(index(self@, key@)),
    {
        match self.get(key) {
            Some(v) => v.as_i64(),
            None => None,
        }
    }

    /// `self[key]` read as a `u64`.
    pub fn field_u64(&self, key: &str) -> (r: Option<u64>)
        ensures
            r == as_u64(index(self@, key@)),
    {
        match self.get(key) {
            Some(v) => v.as_u64(),
            None => None,
        }
    }

    /// `self[key]` read as binary64 bits.
    pub fn field_double(&self, key: &str) -> (r: Option<u64>)
        ensures
            r == as_double(index(self@, key@)),
    {
        match self.get(key) {
            Some(v) => v.as_double(),
            None => None,
        }
    }

    /// `self[key]` read as binary32 bits.
    pub fn field_single(&self, key: &str) -> (r: Option<u32>)
        ensures
            r == as_single(index(self@, key@)),
    {
        match self.get(key) {
            Some(v) => v.as_single(),
            None => None,
        }
    }

    /// `self[key]` read as a `bool`.
    pub fn field_bool(&self, key: &str) -> (r: Option<bool>)
        ensures
            r == as_bool(index(self@, key@)),
    {
        match self.get(key) {
            Some(v) => v.as_bool(),
            None => None,
        }
    }

    /// `self[key]` read as a string.
    pub fn field_str<'a>(&'a self, key: &str) -> (r: Option<&'a str>)
        ensures
            match as_str(index(self@, key@)) {
                Some(s) => r matches Some(t) && t@ == s,
                None => r is None,
            },
    {
        match self.get(key) {
            Some(v) => v.as_str(),
            None => None,
        }
    }

    /// `self[key]` read as an array.
    pub fn field_array<'a>(&'a self, key: &str) -> (r: Option<&'a Vec<JsonValue>>)
        ensures
            match as_array(index(self@, key@)) {
                Some(a) => r matches Some(v) && items_view(v@) == a,
                None => r is None,
            },
    {
        match self.get(key) {
            Some(v) => v.as_array(),
            None => None,
        }
    }
}

} // verus!
