//! JSON documents as plain data.
//!
//! Guards read and rewrite JSON payloads. [`Json`] holds such a payload as an
//! ordinary tree; its view, [`JsonValue`], is the same tree over mathematical
//! sequences, and every contract on JSON data is stated over that view.
use crate::text::text_eq;
use vstd::prelude::*;

verus! {

/// A JSON number. A number with a fraction or an exponent is held as the text
/// that writes it.
#[derive(Debug, PartialEq, Eq)]
pub enum JsonNumber {
    Unsigned(u64),
    Signed(i64),
    Real(String),
}

/// A JSON document. The fields of an object keep the order in which they were
/// given.
#[derive(Debug, PartialEq, Eq)]
pub enum Json {
    Null,
    Bool(bool),
    Number(JsonNumber),
    Str(String),
    Array(Vec<Json>),
    Object(Vec<(String, Json)>),
}

/// The mathematical value of a [`JsonNumber`].
pub enum NumberValue {
    Unsigned(u64),
    Signed(i64),
    Real(Seq<char>),
}

/// The mathematical value of a [`Json`] document.
#[verifier::ext_equal]
pub enum JsonValue {
    Null,
    Bool(bool),
    Number(NumberValue),
    Str(Seq<char>),
    Array(Seq<JsonValue>),
    Object(Seq<(Seq<char>, JsonValue)>),
}

impl View for JsonNumber {
    type V = NumberValue;

    open spec fn view(&self) -> NumberValue {
        match self {
            JsonNumber::Unsigned(n) => NumberValue::Unsigned(*n),
            JsonNumber::Signed(n) => NumberValue::Signed(*n),
            JsonNumber::Real(t) => NumberValue::Real(t@),
        }
    }
}

/// The mathematical value of a document.
pub open spec fn value_of(j: Json) -> JsonValue
    decreases j,
{
    match j {
        Json::Null => JsonValue::Null,
        Json::Bool(b) => JsonValue::Bool(b),
        Json::Number(n) => JsonValue::Number(n@),
        Json::Str(s) => JsonValue::Str(s@),
        Json::Array(items) => JsonValue::Array(
            Seq::new(
                items@.len(),
                |i: int|
                    if 0 <= i < items@.len() {
                        value_of(items@[i])
                    } else {
                        JsonValue::Null
                    },
            ),
        ),
        Json::Object(fields) => JsonValue::Object(
            Seq::new(
                fields@.len(),
                |i: int|
                    if 0 <= i < fields@.len() {
                        (fields@[i].0@, value_of(fields@[i].1))
                    } else {
                        (Seq::empty(), JsonValue::Null)
                    },
            ),
        ),
    }
}

impl View for Json {
    type V = JsonValue;

    open spec fn view(&self) -> JsonValue {
        value_of(*self)
    }
}

/// The values of the items of an array.
pub open spec fn array_values(items: Seq<Json>) -> Seq<JsonValue> {
    Seq::new(items.len(), |i: int| items[i]@)
}

/// The keys and values of the fields of an object.
pub open spec fn object_fields(fields: Seq<(String, Json)>) -> Seq<(Seq<char>, JsonValue)> {
    Seq::new(fields.len(), |i: int| (fields[i].0@, fields[i].1@))
}

/// The view of an array is the array of its items' views.
pub proof fn lemma_array_view(items: Vec<Json>)
    ensures
        Json::Array(items)@ == JsonValue::Array(array_values(items@)),
{
    let a = Json::Array(items)@;
    assert(a is Array);
    assert(a->Array_0 =~= array_values(items@));
}

/// The view of an object is the sequence of its fields' keys and views.
pub proof fn lemma_object_view(fields: Vec<(String, Json)>)
    ensures
        Json::Object(fields)@ == JsonValue::Object(object_fields(fields@)),
{
    let a = Json::Object(fields)@;
    assert(a is Object);
    assert(a->Object_0 =~= object_fields(fields@));
}

/// The position of the first field of `fields` whose key is `key`, or the
/// number of fields when there is none.
pub open spec fn field_position(fields: Seq<(Seq<char>, JsonValue)>, key: Seq<char>) -> int
    decreases fields.len(),
{
    if fields.len() == 0 {
        0
    } else if fields[0].0 == key {
        0
    } else {
        1 + field_position(fields.drop_first(), key)
    }
}

/// The first position of a key lies in range, holds the key if it is a
/// position, and no position before it does.
pub proof fn lemma_field_position(fields: Seq<(Seq<char>, JsonValue)>, key: Seq<char>)
    ensures
        0 <= field_position(fields, key) <= fields.len(),
        field_position(fields, key) < fields.len() ==> fields[field_position(fields, key)].0
            == key,
        forall|i: int| 0 <= i < field_position(fields, key) ==> (#[trigger] fields[i]).0 != key,
    decreases fields.len(),
{
    if fields.len() != 0 && fields[0].0 != key {
        let rest = fields.drop_first();
        lemma_field_position(rest, key);
        let p = field_position(rest, key);
        assert forall|i: int| 0 <= i < 1 + p implies (#[trigger] fields[i]).0 != key by {
            if i > 0 {
                assert(fields[i] == rest[i - 1]);
            }
        }
        if p < rest.len() {
            assert(fields[1 + p] == rest[p]);
        }
    }
}

/// A position below which no field has the key, and which holds the key
/// itself or is the end, is the first position of the key.
pub proof fn lemma_field_position_is(fields: Seq<(Seq<char>, JsonValue)>, key: Seq<char>, p: int)
    requires
        0 <= p <= fields.len(),
        forall|i: int| 0 <= i < p ==> (#[trigger] fields[i]).0 != key,
        p < fields.len() ==> fields[p].0 == key,
    ensures
        field_position(fields, key) == p,
{
    lemma_field_position(fields, key);
    let q = field_position(fields, key);
    if q < p {
        assert(fields[q].0 != key);
    } else if p < q {
        assert(fields[p].0 != key);
    }
}

impl JsonValue {
    /// The value of the first field named `key`, where `self` is an object that
    /// has one.
    pub open spec fn field(self, key: Seq<char>) -> Option<JsonValue> {
        match self {
            JsonValue::Object(fields) => {
                let p = field_position(fields, key);
                if p < fields.len() {
                    Some(fields[p].1)
                } else {
                    None
                }
            },
            _ => None,
        }
    }

    /// The item at `index`, where `self` is an array that has one.
    pub open spec fn item(self, index: int) -> Option<JsonValue> {
        match self {
            JsonValue::Array(items) => if 0 <= index < items.len() {
                Some(items[index])
            } else {
                None
            },
            _ => None,
        }
    }
}

impl JsonNumber {
    /// A copy of this number.
    pub fn duplicate(&self) -> (res: JsonNumber)
        ensures
            res@ == self@,
    {
        match self {
            JsonNumber::Unsigned(x) => JsonNumber::Unsigned(*x),
            JsonNumber::Signed(x) => JsonNumber::Signed(*x),
            JsonNumber::Real(t) => JsonNumber::Real(t.clone()),
        }
    }
}

impl Clone for Json {
    #[verifier::loop_isolation(false)]
    fn clone(&self) -> (res: Json)
        ensures
            res@ == self@,
        decreases self,
    {
        match self {
            Json::Null => Json::Null,
            Json::Bool(b) => Json::Bool(*b),
            Json::Number(n) => Json::Number(n.duplicate()),
            Json::Str(s) => Json::Str(s.clone()),
            Json::Array(items) => {
                let mut out: Vec<Json> = Vec::new();
                let mut i: usize = 0;
                while i < items.len()
                    invariant
                        i <= items.len(),
                        out.len() == i,
                        forall|k: int| 0 <= k < i ==> out@[k]@ == items@[k]@,
                    decreases items.len() - i,
                {
                    proof {
                        assert(decreases_to!(items => items[i as int]));
                    }
                    let c = items[i].clone();
                    out.push(c);
                    i += 1;
                }
                proof {
                    lemma_array_view(out);
                    lemma_array_view(*items);
                    assert(array_values(out@) =~= array_values(items@));
                }
                Json::Array(out)
            },
            Json::Object(fields) => {
                let mut out: Vec<(String, Json)> = Vec::new();
                let mut i: usize = 0;
                while i < fields.len()
                    invariant
                        i <= fields.len(),
                        out.len() == i,
                        forall|k: int|
                            0 <= k < i ==> out@[k].0@ == fields@[k].0@ && out@[k].1@
                                == fields@[k].1@,
                    decreases fields.len() - i,
                {
                    proof {
                        assert(decreases_to!(fields => fields[i as int]));
                    }
                    let c = fields[i].1.clone();
                    out.push((fields[i].0.clone(), c));
                    i += 1;
                }
                proof {
                    lemma_object_view(out);
                    lemma_object_view(*fields);
                    assert(object_fields(out@) =~= object_fields(fields@));
                }
                Json::Object(out)
            },
        }
    }
}

impl Json {
    /// A string document holding a copy of `s`.
    pub fn text(s: &str) -> (res: Json)
        ensures
            res@ == JsonValue::Str(s@),
    {
        Json::Str(s.to_owned())
    }

    /// A number document holding `n`.
    pub fn unsigned(n: u64) -> (res: Json)
        ensures
            res@ == JsonValue::Number(NumberValue::Unsigned(n)),
    {
        Json::Number(JsonNumber::Unsigned(n))
    }

    /// The value of the first field named `key`, if `self` is an object that
    /// has one.
    pub fn get(&self, key: &str) -> (res: Option<&Json>)
        ensures
            match res {
                Some(v) => self@.field(key@) == Some(v@),
                None => self@.field(key@) is None,
            },
    {
        match self {
            Json::Object(fields) => {
                proof {
                    lemma_object_view(*fields);
                }
                let mut i: usize = 0;
                while i < fields.len()
                    invariant
                        i <= fields.len(),
                        forall|k: int| 0 <= k < i ==> (#[trigger] fields@[k]).0@ != key@,
                    decreases fields.len() - i,
                {
                    if text_eq(fields[i].0.as_str(), key) {
                        proof {
                            let fv = object_fields(fields@);
                            assert forall|k: int| 0 <= k < i implies (#[trigger] fv[k]).0
                                != key@ by {
                                assert(fields@[k].0@ != key@);
                            }
                            assert(fv[i as int] == (fields@[i as int].0@, fields@[i as int].1@));
                            lemma_field_position_is(fv, key@, i as int);
                        }
                        return Some(&fields[i].1);
                    }
                    i += 1;
                }
                proof {
                    let fv = object_fields(fields@);
                    assert forall|k: int| 0 <= k < fv.len() implies (#[trigger] fv[k]).0
                        != key@ by {
                        assert(fields@[k].0@ != key@);
                    }
                    lemma_field_position_is(fv, key@, fv.len() as int);
                }
                None
            },
            _ => None,
        }
    }

    /// The item at `index`, if `self` is an array that has one.
    pub fn at(&self, index: usize) -> (res: Option<&Json>)
        ensures
            match res {
                Some(v) => self@.item(index as int) == Some(v@),
                None => self@.item(index as int) is None,
            },
    {
        match self {
            Json::Array(items) => {
                proof {
                    lemma_array_view(*items);
                }
                if index < items.len() {
                    Some(&items[index])
                } else {
                    None
                }
            },
            _ => None,
        }
    }

    /// The text, if `self` is a string.
    pub fn as_str(&self) -> (res: Option<&str>)
        ensures
            match res {
                Some(s) => self@ == JsonValue::Str(s@),
                None => !(self@ is Str),
            },
    {
        match self {
            Json::Str(s) => Some(s.as_str()),
            Json::Array(items) => {
                proof {
                    lemma_array_view(*items);
                }
                None
            },
            Json::Object(fields) => {
                proof {
                    lemma_object_view(*fields);
                }
                None
            },
            _ => None,
        }
    }

    /// The items, if `self` is an array.
    pub fn as_array(&self) -> (res: Option<&Vec<Json>>)
        ensures
            match res {
                Some(items) => self@ == JsonValue::Array(array_values(items@)),
                None => !(self@ is Array),
            },
    {
        match self {
            Json::Array(items) => {
                proof {
                    lemma_array_view(*items);
                }
                Some(items)
            },
            Json::Object(fields) => {
                proof {
                    lemma_object_view(*fields);
                }
                None
            },
            _ => None,
        }
    }

    /// The number, if `self` is a non-negative integer.
    pub fn as_u64(&self) -> (res: Option<u64>)
        ensures
            match res {
                Some(n) => self@ == JsonValue::Number(NumberValue::Unsigned(n)),
                None => !(self@ matches JsonValue::Number(NumberValue::Unsigned(_))),
            },
    {
        match self {
            Json::Number(JsonNumber::Unsigned(n)) => Some(*n),
            Json::Array(items) => {
                proof {
                    lemma_array_view(*items);
                }
                None
            },
            Json::Object(fields) => {
                proof {
                    lemma_object_view(*fields);
                }
                None
            },
            _ => None,
        }
    }
}

} // verus!
