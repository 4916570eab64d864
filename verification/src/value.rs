//! JSON values.
use vstd::prelude::*;
use crate::number::{numbers_agree, parse_unsigned, same_number, unsigned_number};
use crate::text::str_eq;

verus! {

/// A JSON value.  A number is held as its text.
#[derive(Debug)]
pub enum Json {
    /// Nothing.
    Null,
    /// A truth value.
    Bool(bool),
    /// A number.
    Number(String),
    /// A text.
    Text(String),
    /// A list.
    Array(Vec<Json>),
    /// Members in the order of their names.
    Object(Vec<Member>),
}

/// A member of a JSON object.
#[derive(Debug)]
pub struct Member {
    /// Name.
    pub name: String,
    /// Value.
    pub value: Json,
}

/// A JSON value as the contracts see it.
pub enum JsonModel {
    /// Nothing.
    Null,
    /// A truth value.
    Bool(bool),
    /// A number.
    Number(Seq<char>),
    /// A text.
    Text(Seq<char>),
    /// A list.
    Array(Seq<JsonModel>),
    /// Members in the order of their names.
    Object(Seq<(Seq<char>, JsonModel)>),
}

impl Json {
    /// The value as the contracts see it.
    pub open spec fn model(self) -> JsonModel
        decreases self,
    {
        match self {
            Json::Null => JsonModel::Null,
            Json::Bool(value) => JsonModel::Bool(value),
            Json::Number(text) => JsonModel::Number(text@),
            Json::Text(text) => JsonModel::Text(text@),
            Json::Array(items) => JsonModel::Array(
                Seq::new(
                    items@.len(),
                    |i: int|
                        if 0 <= i < items@.len() {
                            items@[i].model()
                        } else {
                            JsonModel::Null
                        },
                ),
            ),
            Json::Object(members) => JsonModel::Object(
                Seq::new(
                    members@.len(),
                    |i: int|
                        if 0 <= i < members@.len() {
                            (members@[i].name@, members@[i].value.model())
                        } else {
                            (Seq::empty(), JsonModel::Null)
                        },
                ),
            ),
        }
    }
}

impl View for Json {
    type V = JsonModel;

    open spec fn view(&self) -> JsonModel {
        self.model()
    }
}

/// The values of a list.
pub open spec fn values(items: Seq<Json>) -> Seq<JsonModel> {
    items.map_values(|item: Json| item@)
}

/// Names and values of members.
pub open spec fn members(items: Seq<Member>) -> Seq<(Seq<char>, JsonModel)> {
    items.map_values(|item: Member| (item.name@, item.value@))
}

pub(crate) proof fn lemma_model(value: Json)
    ensures
        match value {
            Json::Array(items) => value@ == JsonModel::Array(values(items@)),
            Json::Object(list) => value@ == JsonModel::Object(members(list@)),
            _ => true,
        },
{
    match value {
        Json::Array(items) => {
            assert(value@->Array_0 =~= values(items@));
        },
        Json::Object(list) => {
            assert(value@->Object_0 =~= members(list@));
        },
        _ => {},
    }
}

/// Position of the member with a name, from a position on; the number of members where none has
/// it.
pub open spec fn member_from(list: Seq<(Seq<char>, JsonModel)>, name: Seq<char>, i: int) -> int
    decreases list.len() - i,
{
    if i < 0 || i >= list.len() {
        list.len() as int
    } else if list[i].0 == name {
        i
    } else {
        member_from(list, name, i + 1)
    }
}

/// The value of the member with a name.
pub open spec fn member(list: Seq<(Seq<char>, JsonModel)>, name: Seq<char>) -> Option<JsonModel> {
    let i = member_from(list, name, 0);
    if 0 <= i < list.len() {
        Some(list[i].1)
    } else {
        None
    }
}

/// Finds the value of the member with a name.
pub fn find_member<'a>(list: &'a [Member], name: &str) -> (r: Option<&'a Json>)
    ensures
        match r {
            Some(value) => member(members(list@), name@) == Some(value@),
            None => member(members(list@), name@) is None,
        },
        r is Some ==> exists|i: int| 0 <= i < list@.len() && *r->Some_0 == #[trigger] list@[i].value,
{
    let ghost all = members(list@);
    let mut i: usize = 0;
    while i < list.len()
        invariant
            i <= list@.len(),
            all == members(list@),
            member_from(all, name@, 0) == member_from(all, name@, i as int),
        decreases list@.len() - i,
    {
        assert(all[i as int] == (list@[i as int].name@, list@[i as int].value@));
        if str_eq(list[i].name.as_str(), name) {
            return Some(&list[i].value);
        }
        i += 1;
    }
    None
}

/// The value of the member with a name, where the value is an object.
pub open spec fn field(value: JsonModel, name: Seq<char>) -> Option<JsonModel> {
    match value {
        JsonModel::Object(list) => member(list, name),
        _ => None,
    }
}

/// The value of an unsigned integer of 64 bits.
pub open spec fn as_unsigned(value: JsonModel) -> Option<u64> {
    match value {
        JsonModel::Number(text) => unsigned_number(text),
        _ => None,
    }
}

impl Json {
    /// Returns the value of the member with a name, where the value is an object.
    pub fn get(&self, name: &str) -> (r: Option<&Json>)
        ensures
            match r {
                Some(value) => field(self@, name@) == Some(value@),
                None => field(self@, name@) is None,
            },
    {
        match self {
            Json::Object(list) => {
                proof {
                    lemma_model(*self);
                }
                find_member(list.as_slice(), name)
            },
            _ => None,
        }
    }

    /// Returns the value of an unsigned integer of 64 bits.
    pub fn as_u64(&self) -> (r: Option<u64>)
        ensures
            r == as_unsigned(self@),
    {
        match self {
            Json::Number(text) => parse_unsigned(text.as_str()),
            _ => None,
        }
    }
}

/// Whether two values are equal.
pub open spec fn same_json(a: JsonModel, b: JsonModel) -> bool
    decreases a,
{
    match (a, b) {
        (JsonModel::Null, JsonModel::Null) => true,
        (JsonModel::Bool(x), JsonModel::Bool(y)) => x == y,
        (JsonModel::Number(x), JsonModel::Number(y)) => same_number(x, y),
        (JsonModel::Text(x), JsonModel::Text(y)) => x == y,
        (JsonModel::Array(x), JsonModel::Array(y)) => x.len() == y.len() && forall|i: int|
            0 <= i < x.len() ==> same_json(#[trigger] x[i], y[i]),
        (JsonModel::Object(x), JsonModel::Object(y)) => x.len() == y.len() && forall|i: int|
            0 <= i < x.len() ==> (#[trigger] x[i]).0 == y[i].0 && same_json(x[i].1, y[i].1),
        _ => false,
    }
}

impl Json {
    /// Returns whether two values are equal.
    pub fn same(&self, other: &Json) -> (r: bool)
        ensures
            r == same_json(self@, other@),
        decreases self,
    {
        proof {
            lemma_model(*self);
            lemma_model(*other);
        }
        match (self, other) {
            (Json::Null, Json::Null) => true,
            (Json::Bool(x), Json::Bool(y)) => *x == *y,
            (Json::Number(x), Json::Number(y)) => numbers_agree(x.as_str(), y.as_str()),
            (Json::Text(x), Json::Text(y)) => *x == *y,
            (Json::Array(x), Json::Array(y)) => {
                if x.len() != y.len() {
                    return false;
                }
                let mut i: usize = 0;
                while i < x.len()
                    invariant
                        i <= x@.len(),
                        x@.len() == y@.len(),
                        *self == Json::Array(*x),
                        self@ == JsonModel::Array(values(x@)),
                        other@ == JsonModel::Array(values(y@)),
                        forall|k: int|
                            0 <= k < i ==> same_json(#[trigger] values(x@)[k], values(y@)[k]),
                    decreases x@.len() - i,
                {
                    assert(values(x@)[i as int] == x@[i as int]@);
                    assert(values(y@)[i as int] == y@[i as int]@);
                    assert(decreases_to!(*x => x[i as int]));
                    if !x[i].same(&y[i]) {
                        return false;
                    }
                    i += 1;
                }
                true
            },
            (Json::Object(x), Json::Object(y)) => {
                if x.len() != y.len() {
                    return false;
                }
                let mut i: usize = 0;
                while i < x.len()
                    invariant
                        i <= x@.len(),
                        x@.len() == y@.len(),
                        *self == Json::Object(*x),
                        self@ == JsonModel::Object(members(x@)),
                        other@ == JsonModel::Object(members(y@)),
                        forall|k: int|
                            0 <= k < i ==> (#[trigger] members(x@)[k]).0 == members(y@)[k].0
                                && same_json(members(x@)[k].1, members(y@)[k].1),
                    decreases x@.len() - i,
                {
                    assert(members(x@)[i as int] == (x@[i as int].name@, x@[i as int].value@));
                    assert(members(y@)[i as int] == (y@[i as int].name@, y@[i as int].value@));
                    if !str_eq(x[i].name.as_str(), y[i].name.as_str()) {
                        return false;
                    }
                    assert(decreases_to!(*x => x[i as int]));
                    if !x[i].value.same(&y[i].value) {
                        return false;
                    }
                    i += 1;
                }
                true
            },
            _ => false,
        }
    }

    /// Returns an equal value.
    pub fn copy(&self) -> (r: Json)
        ensures
            r@ == self@,
        decreases self,
    {
        match self {
            Json::Null => Json::Null,
            Json::Bool(value) => Json::Bool(*value),
            Json::Number(text) => Json::Number(text.clone()),
            Json::Text(text) => Json::Text(text.clone()),
            Json::Array(items) => {
                let mut out: Vec<Json> = Vec::new();
                let mut i: usize = 0;
                while i < items.len()
                    invariant
                        i <= items@.len(),
                        *self == Json::Array(*items),
                        out@.len() == i,
                        forall|k: int| 0 <= k < i ==> #[trigger] out@[k]@ == items@[k]@,
                    decreases items@.len() - i,
                {
                    assert(self->Array_0 == *items);
                    assert(decreases_to!(*self => self->Array_0));
                    assert(decreases_to!(*items => items[i as int]));
                    out.push(items[i].copy());
                    i += 1;
                }
                assert(values(out@) =~= values(items@));
                let value = Json::Array(out);
                proof {
                    lemma_model(value);
                    lemma_model(*self);
                }
                value
            },
            Json::Object(list) => {
                let mut out: Vec<Member> = Vec::new();
                let mut i: usize = 0;
                while i < list.len()
                    invariant
                        i <= list@.len(),
                        *self == Json::Object(*list),
                        out@.len() == i,
                        forall|k: int|
                            0 <= k < i ==> (#[trigger] out@[k]).name@ == list@[k].name@
                                && out@[k].value@ == list@[k].value@,
                    decreases list@.len() - i,
                {
                    assert(self->Object_0 == *list);
                    assert(decreases_to!(*self => self->Object_0));
                    assert(decreases_to!(*list => list[i as int]));
                    out.push(Member { name: list[i].name.clone(), value: list[i].value.copy() });
                    i += 1;
                }
                assert(members(out@) =~= members(list@));
                let value = Json::Object(out);
                proof {
                    lemma_model(value);
                    lemma_model(*self);
                }
                value
            },
        }
    }
}

/// A parsed document of `serde_json`.
#[verifier::external_type_specification]
#[verifier::external_body]
pub struct ExValue(serde_json::Value);

/// The contents of a parsed document: lists in order, members in the order of their names, and
/// numbers as their texts.
pub uninterp spec fn document_contents(value: serde_json::Value) -> JsonModel;

/// The value that `serde_json::from_str` reads from a text, or nothing where the text is no JSON
/// document.
pub uninterp spec fn parsed_json(text: Seq<char>) -> Option<JsonModel>;

/// The message of the error that `serde_json::from_str` gives for a text that is no JSON document.
pub uninterp spec fn json_error(text: Seq<char>) -> Seq<char>;

/// Parses a text with `serde_json::from_str`.  The result depends on the text alone.
#[verifier::external_body]
pub(crate) fn parse_document(text: &str) -> (r: Result<serde_json::Value, String>)
    ensures
        match r {
            Ok(value) => parsed_json(text@) == Some(document_contents(value)),
            Err(error) => parsed_json(text@) is None && error@ == json_error(text@),
        },
{
    serde_json::from_str(text).map_err(|error| error.to_string())
}

/// Hands out the contents of a `serde_json::Value`, variant by variant.
#[verifier::external_body]
pub(crate) fn document_value(value: serde_json::Value) -> (r: Json)
    ensures
        r@ == document_contents(value),
{
    match value {
        serde_json::Value::Null => Json::Null,
        serde_json::Value::Bool(value) => Json::Bool(value),
        serde_json::Value::Number(number) => Json::Number(number.to_string()),
        serde_json::Value::String(text) => Json::Text(text),
        serde_json::Value::Array(items) => Json::Array(items.into_iter().map(document_value).collect()),
        serde_json::Value::Object(map) => Json::Object(
            map.into_iter().map(|(name, value)| Member { name, value: document_value(value) }).collect(),
        ),
    }
}

/// Parses a JSON document, or returns the message of the failure.
pub fn read_json(text: &str) -> (r: Result<Json, String>)
    ensures
        match r {
            Ok(value) => parsed_json(text@) == Some(value@),
            Err(error) => parsed_json(text@) is None && error@ == json_error(text@),
        },
{
    match parse_document(text) {
        Ok(value) => Ok(document_value(value)),
        Err(error) => Err(error),
    }
}

/// Parses a JSON document.
pub fn parse_json(text: &str) -> (r: Option<Json>)
    ensures
        match r {
            Some(value) => parsed_json(text@) == Some(value@),
            None => parsed_json(text@) is None,
        },
{
    match read_json(text) {
        Ok(value) => Some(value),
        Err(_) => None,
    }
}

} // verus!
