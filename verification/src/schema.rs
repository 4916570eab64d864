//! Validation of JSON values against JSON schemas.
use vstd::prelude::*;
use crate::number::{number_below, parse_safe_number, safe_number, Decimal, DecimalModel};
use crate::text::{str_eq, to_chars};
use crate::value::{as_unsigned, find_member, lemma_model, member, member_from, members, same_json, values, Json, JsonModel, Member};

verus! {

/// Whether `regex::Regex::new` accepts a pattern.
pub uninterp spec fn valid_regex(pattern: Seq<char>) -> bool;

/// Whether `regex::Regex::is_match` finds a valid pattern in a text.
pub uninterp spec fn regex_matches(pattern: Seq<char>, text: Seq<char>) -> bool;

/// Asks `regex::Regex::new` whether it accepts a pattern.  The answer depends on the pattern
/// alone.
#[verifier::external_body]
pub(crate) fn is_regex(pattern: &str) -> (r: bool)
    ensures
        r == valid_regex(pattern@),
{
    regex::Regex::new(pattern).is_ok()
}

/// Asks `regex::Regex::is_match` whether a text holds a match of a pattern; a pattern that
/// `regex::Regex::new` refuses matches nothing.  The answer depends on pattern and text alone.
#[verifier::external_body]
pub(crate) fn match_regex(pattern: &str, text: &str) -> (r: bool)
    ensures
        r == (valid_regex(pattern@) && regex_matches(pattern@, text@)),
{
    regex::Regex::new(pattern).is_ok_and(|regex| regex.is_match(text))
}

/// The members of a JSON object.
pub type Fields = Seq<(Seq<char>, JsonModel)>;

/// The keywords that a schema may use.
pub open spec fn is_keyword(name: Seq<char>) -> bool {
    name == "$id"@
        || name == "$schema"@
        || name == "additionalProperties"@
        || name == "allOf"@
        || name == "anyOf"@
        || name == "const"@
        || name == "default"@
        || name == "deprecated"@
        || name == "description"@
        || name == "enum"@
        || name == "examples"@
        || name == "exclusiveMaximum"@
        || name == "exclusiveMinimum"@
        || name == "maxItems"@
        || name == "maxLength"@
        || name == "maxProperties"@
        || name == "maximum"@
        || name == "minItems"@
        || name == "minLength"@
        || name == "minProperties"@
        || name == "minimum"@
        || name == "pattern"@
        || name == "properties"@
        || name == "readOnly"@
        || name == "required"@
        || name == "title"@
        || name == "type"@
        || name == "items"@
}

fn known_keyword(name: &str) -> (r: bool)
    ensures
        r == is_keyword(name@),
{
    str_eq(name, "$id")
        || str_eq(name, "$schema")
        || str_eq(name, "additionalProperties")
        || str_eq(name, "allOf")
        || str_eq(name, "anyOf")
        || str_eq(name, "const")
        || str_eq(name, "default")
        || str_eq(name, "deprecated")
        || str_eq(name, "description")
        || str_eq(name, "enum")
        || str_eq(name, "examples")
        || str_eq(name, "exclusiveMaximum")
        || str_eq(name, "exclusiveMinimum")
        || str_eq(name, "maxItems")
        || str_eq(name, "maxLength")
        || str_eq(name, "maxProperties")
        || str_eq(name, "maximum")
        || str_eq(name, "minItems")
        || str_eq(name, "minLength")
        || str_eq(name, "minProperties")
        || str_eq(name, "minimum")
        || str_eq(name, "pattern")
        || str_eq(name, "properties")
        || str_eq(name, "readOnly")
        || str_eq(name, "required")
        || str_eq(name, "title")
        || str_eq(name, "type")
        || str_eq(name, "items")
}

/// The names of types.
pub open spec fn is_type_name(name: Seq<char>) -> bool {
    name == "object"@
        || name == "array"@
        || name == "boolean"@
        || name == "integer"@
        || name == "number"@
        || name == "null"@
        || name == "string"@
}

fn valid_type_name(name: &str) -> (r: bool)
    ensures
        r == is_type_name(name@),
{
    str_eq(name, "object")
        || str_eq(name, "array")
        || str_eq(name, "boolean")
        || str_eq(name, "integer")
        || str_eq(name, "number")
        || str_eq(name, "null")
        || str_eq(name, "string")
}

/// Whether a keyword is absent or a text.
pub open spec fn text_or_absent(value: Option<JsonModel>) -> bool {
    match value {
        None => true,
        Some(JsonModel::Text(_)) => true,
        Some(_) => false,
    }
}

/// Whether a keyword is absent or a truth value.
pub open spec fn bool_or_absent(value: Option<JsonModel>) -> bool {
    match value {
        None => true,
        Some(JsonModel::Bool(_)) => true,
        Some(_) => false,
    }
}

/// Whether a `type` keyword is absent, the name of a type or a list of such names.
pub open spec fn type_is_valid(value: Option<JsonModel>) -> bool {
    match value {
        None => true,
        Some(JsonModel::Text(name)) => is_type_name(name),
        Some(JsonModel::Array(items)) => items.len() > 0 && forall|i: int|
            0 <= i < items.len() ==> ((#[trigger] items[i]) matches JsonModel::Text(name)
                && is_type_name(name)),
        Some(_) => false,
    }
}

/// Whether an `enum` keyword is absent or a list that is not empty.
pub open spec fn enum_is_valid(value: Option<JsonModel>) -> bool {
    match value {
        None => true,
        Some(JsonModel::Array(items)) => items.len() > 0,
        Some(_) => false,
    }
}

/// The value of a length bound.
pub open spec fn size_of_value(value: JsonModel) -> Option<usize> {
    match as_unsigned(value) {
        Some(n) => if n <= usize::MAX {
            Some(n as usize)
        } else {
            None
        },
        None => None,
    }
}

/// Whether a length bound is absent or a size.
pub open spec fn size_is_valid(value: Option<JsonModel>) -> bool {
    match value {
        None => true,
        Some(bound) => size_of_value(bound) is Some,
    }
}

/// The number that a value holds, where double precision holds it exactly or it is no integer.
pub open spec fn safe_value(value: JsonModel) -> Option<DecimalModel> {
    match value {
        JsonModel::Number(text) => safe_number(text),
        _ => None,
    }
}

/// Whether a number bound is absent or a number.
pub open spec fn number_is_valid(value: Option<JsonModel>) -> bool {
    match value {
        None => true,
        Some(bound) => safe_value(bound) is Some,
    }
}

/// Whether a `pattern` keyword is absent or a valid pattern.
pub open spec fn pattern_is_valid(value: Option<JsonModel>) -> bool {
    match value {
        None => true,
        Some(JsonModel::Text(pattern)) => valid_regex(pattern),
        Some(_) => false,
    }
}

/// Whether a `required` keyword is absent or a list of texts.
pub open spec fn required_is_valid(value: Option<JsonModel>) -> bool {
    match value {
        None => true,
        Some(JsonModel::Array(items)) => forall|i: int|
            0 <= i < items.len() ==> (#[trigger] items[i]) is Text,
        Some(_) => false,
    }
}

/// Whether the keywords that hold no schema have values of the right form.
pub open spec fn plain_keywords_valid(fields: Fields) -> bool {
    &&& text_or_absent(member(fields, "$id"@))
    &&& text_or_absent(member(fields, "$schema"@))
    &&& text_or_absent(member(fields, "title"@))
    &&& text_or_absent(member(fields, "description"@))
    &&& bool_or_absent(member(fields, "deprecated"@))
    &&& bool_or_absent(member(fields, "readOnly"@))
    &&& type_is_valid(member(fields, "type"@))
    &&& enum_is_valid(member(fields, "enum"@))
    &&& size_is_valid(member(fields, "minLength"@))
    &&& size_is_valid(member(fields, "maxLength"@))
    &&& pattern_is_valid(member(fields, "pattern"@))
    &&& size_is_valid(member(fields, "minItems"@))
    &&& size_is_valid(member(fields, "maxItems"@))
    &&& size_is_valid(member(fields, "minProperties"@))
    &&& size_is_valid(member(fields, "maxProperties"@))
    &&& number_is_valid(member(fields, "minimum"@))
    &&& number_is_valid(member(fields, "maximum"@))
    &&& number_is_valid(member(fields, "exclusiveMinimum"@))
    &&& number_is_valid(member(fields, "exclusiveMaximum"@))
    &&& required_is_valid(member(fields, "required"@))
}

/// Whether a schema uses supported keywords only, with values of the right form.
pub open spec fn is_supported(schema: JsonModel) -> bool
    decreases schema,
{
    match schema {
        JsonModel::Bool(_) => true,
        JsonModel::Object(fields) => {
            let properties = member_from(fields, "properties"@, 0);
            let items = member_from(fields, "items"@, 0);
            let additional = member_from(fields, "additionalProperties"@, 0);
            let all_of = member_from(fields, "allOf"@, 0);
            let any_of = member_from(fields, "anyOf"@, 0);
            &&& forall|i: int| 0 <= i < fields.len() ==> is_keyword((#[trigger] fields[i]).0)
            &&& plain_keywords_valid(fields)
            &&& 0 <= properties < fields.len() ==> (match fields[properties].1 {
                JsonModel::Object(list) => forall|i: int|
                    0 <= i < list.len() ==> is_supported((#[trigger] list[i]).1),
                _ => false,
            })
            &&& 0 <= items < fields.len() ==> is_supported(fields[items].1)
            &&& 0 <= additional < fields.len() ==> is_supported(fields[additional].1)
            &&& 0 <= all_of < fields.len() ==> (match fields[all_of].1 {
                JsonModel::Array(list) => list.len() > 0 && forall|i: int|
                    0 <= i < list.len() ==> is_supported(#[trigger] list[i]),
                _ => false,
            })
            &&& 0 <= any_of < fields.len() ==> (match fields[any_of].1 {
                JsonModel::Array(list) => list.len() > 0 && forall|i: int|
                    0 <= i < list.len() ==> is_supported(#[trigger] list[i]),
                _ => false,
            })
        },
        _ => false,
    }
}

/// Whether a value has a type.
pub open spec fn has_type(name: Seq<char>, value: JsonModel) -> bool {
    if name == "object"@ {
        value is Object
    } else if name == "array"@ {
        value is Array
    } else if name == "boolean"@ {
        value is Bool
    } else if name == "integer"@ {
        value matches JsonModel::Number(text) && is_integer_text(text)
    } else if name == "number"@ {
        value is Number
    } else if name == "null"@ {
        value is Null
    } else if name == "string"@ {
        value is Text
    } else {
        false
    }
}

/// Whether a number is written without a fraction and an exponent.
pub open spec fn is_integer_text(text: Seq<char>) -> bool {
    !text.contains('.') && !text.contains('e') && !text.contains('E')
}

/// Whether a value has the type, or one of the types, that a schema names.
pub open spec fn type_matches(expected: Option<JsonModel>, value: JsonModel) -> bool {
    match expected {
        None => true,
        Some(JsonModel::Text(name)) => has_type(name, value),
        Some(JsonModel::Array(items)) => {
            &&& items.len() > 0
            &&& forall|i: int| 0 <= i < items.len() ==> (#[trigger] items[i]) is Text
            &&& exists|i: int| 0 <= i < items.len() && has_type((#[trigger] items[i])->Text_0, value)
        },
        Some(_) => false,
    }
}

/// Whether a value is one of those that a schema lists.
pub open spec fn enum_matches(expected: Option<JsonModel>, value: JsonModel) -> bool {
    match expected {
        None => true,
        Some(JsonModel::Array(items)) => lists_value(items, value),
        Some(_) => false,
    }
}

/// Whether a value equals one of a list.
pub open spec fn lists_value(items: Seq<JsonModel>, value: JsonModel) -> bool {
    exists|i: int| 0 <= i < items.len() && same_json(#[trigger] items[i], value)
}

/// Whether a value is the one that a schema demands.
pub open spec fn const_matches(expected: Option<JsonModel>, value: JsonModel) -> bool {
    match expected {
        None => true,
        Some(constant) => same_json(constant, value),
    }
}

/// Whether a size is at least a bound.
pub open spec fn at_least(bound: Option<JsonModel>, size: nat) -> bool {
    match bound {
        None => true,
        Some(value) => size_of_value(value) matches Some(n) && size >= n,
    }
}

/// Whether a size is at most a bound.
pub open spec fn at_most(bound: Option<JsonModel>, size: nat) -> bool {
    match bound {
        None => true,
        Some(value) => size_of_value(value) matches Some(n) && size <= n,
    }
}

/// Whether a text meets the bounds on its length and the pattern.
pub open spec fn text_matches(fields: Fields, value: JsonModel) -> bool {
    match value {
        JsonModel::Text(text) => {
            &&& at_least(member(fields, "minLength"@), text.len())
            &&& at_most(member(fields, "maxLength"@), text.len())
            &&& match member(fields, "pattern"@) {
                None => true,
                Some(JsonModel::Text(pattern)) => valid_regex(pattern) && regex_matches(
                    pattern,
                    text,
                ),
                Some(_) => false,
            }
        },
        _ => true,
    }
}

/// Whether a number is on the right side of a bound: the bound is below it or above it, or equal
/// to it where that is allowed.
pub open spec fn bound_holds(
    bound: Option<JsonModel>,
    number: DecimalModel,
    lower: bool,
    exclusive: bool,
) -> bool {
    match bound {
        None => true,
        Some(value) => match safe_value(value) {
            None => false,
            Some(limit) => if lower {
                if exclusive {
                    number_below(limit, number)
                } else {
                    !number_below(number, limit)
                }
            } else if exclusive {
                number_below(number, limit)
            } else {
                !number_below(limit, number)
            },
        },
    }
}

/// Whether a number meets the bounds.
pub open spec fn number_matches(fields: Fields, value: JsonModel) -> bool {
    match value {
        JsonModel::Number(text) => match safe_number(text) {
            None => false,
            Some(number) => {
                &&& bound_holds(member(fields, "minimum"@), number, true, false)
                &&& bound_holds(member(fields, "maximum"@), number, false, false)
                &&& bound_holds(member(fields, "exclusiveMinimum"@), number, true, true)
                &&& bound_holds(member(fields, "exclusiveMaximum"@), number, false, true)
            },
        },
        _ => true,
    }
}

/// Whether an object has the members that a schema requires.
pub open spec fn required_present(required: Option<JsonModel>, object: Fields) -> bool {
    match required {
        None => true,
        Some(JsonModel::Array(names)) => forall|i: int|
            0 <= i < names.len() ==> ((#[trigger] names[i]) matches JsonModel::Text(name) && member(
                object,
                name,
            ) is Some),
        Some(_) => false,
    }
}

/// Whether the parts of a schema that hold no schema accept a value.
pub open spec fn plain_matches(fields: Fields, value: JsonModel) -> bool {
    &&& type_matches(member(fields, "type"@), value)
    &&& enum_matches(member(fields, "enum"@), value)
    &&& const_matches(member(fields, "const"@), value)
    &&& text_matches(fields, value)
    &&& number_matches(fields, value)
    &&& match value {
        JsonModel::Array(items) => at_least(member(fields, "minItems"@), items.len()) && at_most(
            member(fields, "maxItems"@),
            items.len(),
        ),
        JsonModel::Object(object) => at_least(member(fields, "minProperties"@), object.len())
            && at_most(member(fields, "maxProperties"@), object.len()) && required_present(
            member(fields, "required"@),
            object,
        ),
        _ => true,
    }
}

/// Whether a supported schema accepts a value.
pub open spec fn conforms(schema: JsonModel, value: JsonModel) -> bool
    decreases schema,
{
    match schema {
        JsonModel::Bool(accepts) => accepts,
        JsonModel::Object(fields) => {
            let properties = member_from(fields, "properties"@, 0);
            let items = member_from(fields, "items"@, 0);
            let additional = member_from(fields, "additionalProperties"@, 0);
            let all_of = member_from(fields, "allOf"@, 0);
            let any_of = member_from(fields, "anyOf"@, 0);
            &&& is_supported(schema)
            &&& plain_matches(fields, value)
            &&& 0 <= all_of < fields.len() ==> (match fields[all_of].1 {
                JsonModel::Array(list) => forall|i: int|
                    0 <= i < list.len() ==> conforms(#[trigger] list[i], value),
                _ => false,
            })
            &&& 0 <= any_of < fields.len() ==> (match fields[any_of].1 {
                JsonModel::Array(list) => exists|i: int|
                    0 <= i < list.len() && conforms(#[trigger] list[i], value),
                _ => false,
            })
            &&& match value {
                JsonModel::Array(elements) => 0 <= items < fields.len() ==> forall|i: int|
                    0 <= i < elements.len() ==> conforms(
                        fields[items].1,
                        #[trigger] elements[i],
                    ),
                JsonModel::Object(object) => forall|i: int|
                    0 <= i < object.len() ==> {
                        let name = (#[trigger] object[i]).0;
                        let declared = if 0 <= properties < fields.len() {
                            match fields[properties].1 {
                                JsonModel::Object(list) => member_from(list, name, 0),
                                _ => -1,
                            }
                        } else {
                            -1
                        };
                        if 0 <= properties < fields.len() && fields[properties].1 is Object && 0
                            <= declared < fields[properties].1->Object_0.len() {
                            conforms(fields[properties].1->Object_0[declared].1, object[i].1)
                        } else {
                            0 <= additional < fields.len() ==> conforms(
                                fields[additional].1,
                                object[i].1,
                            )
                        }
                    },
                _ => true,
            }
        },
        _ => false,
    }
}

fn is_text_or_absent(value: Option<&Json>) -> (r: bool)
    ensures
        r == text_or_absent(opt_json(value)),
{
    match value {
        None => true,
        Some(Json::Text(_)) => true,
        Some(_) => false,
    }
}

fn is_bool_or_absent(value: Option<&Json>) -> (r: bool)
    ensures
        r == bool_or_absent(opt_json(value)),
{
    match value {
        None => true,
        Some(Json::Bool(_)) => true,
        Some(_) => false,
    }
}

/// The view of an optional value.
pub open spec fn opt_json(value: Option<&Json>) -> Option<JsonModel> {
    match value {
        Some(json) => Some(json@),
        None => None,
    }
}

fn valid_type(value: Option<&Json>) -> (r: bool)
    ensures
        r == type_is_valid(opt_json(value)),
{
    match value {
        None => true,
        Some(Json::Text(name)) => valid_type_name(name.as_str()),
        Some(Json::Array(items)) => {
            proof {
                lemma_model(*value->Some_0);
            }
            let mut i: usize = 0;
            while i < items.len()
                invariant
                    i <= items@.len(),
                    value->Some_0@ == JsonModel::Array(values(items@)),
                    value is Some,
                    forall|k: int|
                        0 <= k < i ==> ((#[trigger] values(items@)[k]) matches JsonModel::Text(name)
                            && is_type_name(name)),
                decreases items@.len() - i,
            {
                assert(values(items@)[i as int] == items@[i as int]@);
                let valid = match &items[i] {
                    Json::Text(name) => valid_type_name(name.as_str()),
                    _ => false,
                };
                if !valid {
                    return false;
                }
                i += 1;
            }
            items.len() > 0
        },
        Some(_) => false,
    }
}

fn valid_enum(value: Option<&Json>) -> (r: bool)
    ensures
        r == enum_is_valid(opt_json(value)),
{
    match value {
        None => true,
        Some(Json::Array(items)) => items.len() > 0,
        Some(_) => false,
    }
}

fn size_value(value: &Json) -> (r: Option<usize>)
    ensures
        r == size_of_value(value@),
{
    match value.as_u64() {
        Some(n) => {
            if n <= usize::MAX as u64 {
                Some(n as usize)
            } else {
                None
            }
        },
        None => None,
    }
}

fn valid_nonnegative_integer(value: Option<&Json>) -> (r: bool)
    ensures
        r == size_is_valid(opt_json(value)),
{
    match value {
        None => true,
        Some(bound) => size_value(bound).is_some(),
    }
}

fn safe_decimal(value: &Json) -> (r: Option<Decimal>)
    ensures
        match r {
            Some(number) => safe_value(value@) == Some(number@) && number.wf(),
            None => safe_value(value@) is None,
        },
{
    match value {
        Json::Number(text) => parse_safe_number(text.as_str()),
        _ => None,
    }
}

fn valid_number(value: Option<&Json>) -> (r: bool)
    ensures
        r == number_is_valid(opt_json(value)),
{
    match value {
        None => true,
        Some(bound) => safe_decimal(bound).is_some(),
    }
}

fn valid_pattern(value: Option<&Json>) -> (r: bool)
    ensures
        r == pattern_is_valid(opt_json(value)),
{
    match value {
        None => true,
        Some(Json::Text(pattern)) => is_regex(pattern.as_str()),
        Some(_) => false,
    }
}

fn all_texts(items: &[Json]) -> (r: bool)
    ensures
        r == (forall|i: int| 0 <= i < items@.len() ==> (#[trigger] values(items@)[i]) is Text),
{
    let mut i: usize = 0;
    while i < items.len()
        invariant
            i <= items@.len(),
            forall|k: int| 0 <= k < i ==> (#[trigger] values(items@)[k]) is Text,
        decreases items@.len() - i,
    {
        assert(values(items@)[i as int] == items@[i as int]@);
        match &items[i] {
            Json::Text(_) => {},
            _ => {
                return false;
            },
        }
        i += 1;
    }
    true
}

fn valid_required(value: Option<&Json>) -> (r: bool)
    ensures
        r == required_is_valid(opt_json(value)),
{
    match value {
        None => true,
        Some(Json::Array(items)) => {
            proof {
                lemma_model(*value->Some_0);
            }
            all_texts(items.as_slice())
        },
        Some(_) => false,
    }
}

fn plain_values_are_supported(fields: &[Member]) -> (r: bool)
    ensures
        r == plain_keywords_valid(members(fields@)),
{
    is_text_or_absent(find_member(fields, "$id")) && is_text_or_absent(
        find_member(fields, "$schema"),
    ) && is_text_or_absent(find_member(fields, "title")) && is_text_or_absent(
        find_member(fields, "description"),
    ) && is_bool_or_absent(find_member(fields, "deprecated")) && is_bool_or_absent(
        find_member(fields, "readOnly"),
    ) && valid_type(find_member(fields, "type")) && valid_enum(find_member(fields, "enum"))
        && valid_nonnegative_integer(find_member(fields, "minLength")) && valid_nonnegative_integer(
        find_member(fields, "maxLength"),
    ) && valid_pattern(find_member(fields, "pattern")) && valid_nonnegative_integer(
        find_member(fields, "minItems"),
    ) && valid_nonnegative_integer(find_member(fields, "maxItems")) && valid_nonnegative_integer(
        find_member(fields, "minProperties"),
    ) && valid_nonnegative_integer(find_member(fields, "maxProperties")) && valid_number(
        find_member(fields, "minimum"),
    ) && valid_number(find_member(fields, "maximum")) && valid_number(
        find_member(fields, "exclusiveMinimum"),
    ) && valid_number(find_member(fields, "exclusiveMaximum")) && valid_required(
        find_member(fields, "required"),
    )
}

fn keywords_are_known(fields: &[Member]) -> (r: bool)
    ensures
        r == (forall|i: int|
            0 <= i < fields@.len() ==> is_keyword((#[trigger] members(fields@)[i]).0)),
{
    let mut i: usize = 0;
    while i < fields.len()
        invariant
            i <= fields@.len(),
            forall|k: int| 0 <= k < i ==> is_keyword((#[trigger] members(fields@)[k]).0),
        decreases fields@.len() - i,
    {
        assert(members(fields@)[i as int].0 == fields@[i as int].name@);
        if !known_keyword(fields[i].name.as_str()) {
            return false;
        }
        i += 1;
    }
    true
}

proof fn lemma_value_smaller(schema: Json, list: Vec<Member>, value: Json)
    requires
        schema == Json::Object(list),
        exists|i: int| 0 <= i < list@.len() && value == #[trigger] list@[i].value,
    ensures
        decreases_to!(schema => value),
{
    let i = choose|i: int| 0 <= i < list@.len() && value == #[trigger] list@[i].value;
    assert(schema->Object_0 == list);
    assert(decreases_to!(schema => schema->Object_0));
    assert(decreases_to!(list => list[i]));
    assert(decreases_to!(list[i] => list[i].value));
}

/// Returns whether every value of a list is a supported schema.
fn all_supported(items: &Vec<Json>) -> (r: bool)
    ensures
        r == (forall|i: int| 0 <= i < items@.len() ==> is_supported(#[trigger] values(items@)[i])),
    decreases *items,
{
    let mut i: usize = 0;
    while i < items.len()
        invariant
            i <= items@.len(),
            forall|k: int| 0 <= k < i ==> is_supported(#[trigger] values(items@)[k]),
        decreases items@.len() - i,
    {
        assert(values(items@)[i as int] == items@[i as int]@);
        assert(decreases_to!(*items => items[i as int]));
        if !schema_is_supported(&items[i]) {
            return false;
        }
        i += 1;
    }
    true
}

/// Returns whether every member of an object is a supported schema.
fn members_supported(list: &Vec<Member>) -> (r: bool)
    ensures
        r == (forall|i: int|
            0 <= i < list@.len() ==> is_supported((#[trigger] members(list@)[i]).1)),
    decreases *list,
{
    let mut i: usize = 0;
    while i < list.len()
        invariant
            i <= list@.len(),
            forall|k: int| 0 <= k < i ==> is_supported((#[trigger] members(list@)[k]).1),
        decreases list@.len() - i,
    {
        assert(members(list@)[i as int].1 == list@[i as int].value@);
        assert(decreases_to!(*list => list[i as int]));
        assert(decreases_to!(list[i as int] => list[i as int].value));
        if !schema_is_supported(&list[i].value) {
            return false;
        }
        i += 1;
    }
    true
}

/// Returns whether a value is a list of supported schemas that is not empty.
fn branches_supported(value: &Json) -> (r: bool)
    ensures
        r == match value@ {
            JsonModel::Array(list) => list.len() > 0 && forall|i: int|
                0 <= i < list.len() ==> is_supported(#[trigger] list[i]),
            _ => false,
        },
    decreases *value,
{
    match value {
        Json::Array(items) => {
            proof {
                lemma_model(*value);
                assert(value->Array_0 == *items);
                assert(decreases_to!(*value => value->Array_0));
            }
            items.len() > 0 && all_supported(items)
        },
        _ => false,
    }
}

/// Returns whether a value is an object of supported schemas.
fn properties_supported(value: &Json) -> (r: bool)
    ensures
        r == match value@ {
            JsonModel::Object(list) => forall|i: int|
                0 <= i < list.len() ==> is_supported((#[trigger] list[i]).1),
            _ => false,
        },
    decreases *value,
{
    match value {
        Json::Object(list) => {
            proof {
                lemma_model(*value);
                assert(value->Object_0 == *list);
                assert(decreases_to!(*value => value->Object_0));
            }
            members_supported(list)
        },
        _ => false,
    }
}

/// Returns whether a schema uses supported keywords only, with values of the right form.
pub fn schema_is_supported(schema: &Json) -> (r: bool)
    ensures
        r == is_supported(schema@),
    decreases *schema,
{
    match schema {
        Json::Bool(_) => true,
        Json::Object(list) => {
            proof {
                lemma_model(*schema);
            }
            let fields = list.as_slice();
            if !keywords_are_known(fields) || !plain_values_are_supported(fields) {
                return false;
            }
            if let Some(properties) = find_member(fields, "properties") {
                proof {
                    lemma_value_smaller(*schema, *list, *properties);
                }
                if !properties_supported(properties) {
                    return false;
                }
            }
            if let Some(items) = find_member(fields, "items") {
                proof {
                    lemma_value_smaller(*schema, *list, *items);
                }
                if !schema_is_supported(items) {
                    return false;
                }
            }
            if let Some(additional) = find_member(fields, "additionalProperties") {
                proof {
                    lemma_value_smaller(*schema, *list, *additional);
                }
                if !schema_is_supported(additional) {
                    return false;
                }
            }
            if let Some(branches) = find_member(fields, "allOf") {
                proof {
                    lemma_value_smaller(*schema, *list, *branches);
                }
                if !branches_supported(branches) {
                    return false;
                }
            }
            if let Some(branches) = find_member(fields, "anyOf") {
                proof {
                    lemma_value_smaller(*schema, *list, *branches);
                }
                if !branches_supported(branches) {
                    return false;
                }
            }
            true
        },
        _ => false,
    }
}

fn is_integer(text: &str) -> (r: bool)
    ensures
        r == is_integer_text(text@),
{
    let chars = to_chars(text);
    let mut i: usize = 0;
    while i < chars.len()
        invariant
            i <= chars@.len(),
            chars@ == text@,
            forall|k: int|
                0 <= k < i ==> (#[trigger] text@[k]) != '.' && text@[k] != 'e' && text@[k] != 'E',
        decreases chars@.len() - i,
    {
        if chars[i] == '.' || chars[i] == 'e' || chars[i] == 'E' {
            assert(text@.contains(text@[i as int]));
            return false;
        }
        i += 1;
    }
    true
}

fn matches_single_type(name: &str, value: &Json) -> (r: bool)
    ensures
        r == has_type(name@, value@),
{
    if str_eq(name, "object") {
        matches!(value, Json::Object(_))
    } else if str_eq(name, "array") {
        matches!(value, Json::Array(_))
    } else if str_eq(name, "boolean") {
        matches!(value, Json::Bool(_))
    } else if str_eq(name, "integer") {
        match value {
            Json::Number(text) => is_integer(text.as_str()),
            _ => false,
        }
    } else if str_eq(name, "number") {
        matches!(value, Json::Number(_))
    } else if str_eq(name, "null") {
        matches!(value, Json::Null)
    } else if str_eq(name, "string") {
        matches!(value, Json::Text(_))
    } else {
        false
    }
}

fn matches_type(expected: Option<&Json>, value: &Json) -> (r: bool)
    ensures
        r == type_matches(opt_json(expected), value@),
{
    match expected {
        None => true,
        Some(Json::Text(name)) => matches_single_type(name.as_str(), value),
        Some(Json::Array(items)) => {
            proof {
                lemma_model(*expected->Some_0);
            }
            if !all_texts(items.as_slice()) {
                return false;
            }
            let mut i: usize = 0;
            while i < items.len()
                invariant
                    i <= items@.len(),
                    expected is Some,
                    expected->Some_0@ == JsonModel::Array(values(items@)),
                    forall|k: int| 0 <= k < items@.len() ==> (#[trigger] values(items@)[k]) is Text,
                    forall|k: int|
                        0 <= k < i ==> !has_type((#[trigger] values(items@)[k])->Text_0, value@),
                decreases items@.len() - i,
            {
                assert(values(items@)[i as int] == items@[i as int]@);
                match &items[i] {
                    Json::Text(name) => {
                        if matches_single_type(name.as_str(), value) {
                            return true;
                        }
                    },
                    _ => {},
                }
                i += 1;
            }
            false
        },
        Some(_) => false,
    }
}

fn contains_value(items: &[Json], value: &Json) -> (r: bool)
    ensures
        r == lists_value(values(items@), value@),
{
    let mut i: usize = 0;
    while i < items.len()
        invariant
            i <= items@.len(),
            forall|k: int| 0 <= k < i ==> !same_json(#[trigger] values(items@)[k], value@),
        decreases items@.len() - i,
    {
        assert(values(items@)[i as int] == items@[i as int]@);
        if items[i].same(value) {
            assert(same_json(values(items@)[i as int], value@));
            return true;
        }
        i += 1;
    }
    false
}

fn matches_enum(expected: Option<&Json>, value: &Json) -> (r: bool)
    ensures
        r == enum_matches(opt_json(expected), value@),
{
    match expected {
        None => true,
        Some(Json::Array(items)) => {
            proof {
                lemma_model(*expected->Some_0);
            }
            contains_value(items.as_slice(), value)
        },
        Some(_) => false,
    }
}

fn matches_const(expected: Option<&Json>, value: &Json) -> (r: bool)
    ensures
        r == const_matches(opt_json(expected), value@),
{
    match expected {
        None => true,
        Some(constant) => constant.same(value),
    }
}

fn minimum(bound: Option<&Json>, size: usize) -> (r: bool)
    ensures
        r == at_least(opt_json(bound), size as nat),
{
    match bound {
        None => true,
        Some(value) => match size_value(value) {
            Some(n) => size >= n,
            None => false,
        },
    }
}

fn maximum(bound: Option<&Json>, size: usize) -> (r: bool)
    ensures
        r == at_most(opt_json(bound), size as nat),
{
    match bound {
        None => true,
        Some(value) => match size_value(value) {
            Some(n) => size <= n,
            None => false,
        },
    }
}

fn validates_string(fields: &[Member], value: &Json) -> (r: bool)
    ensures
        r == text_matches(members(fields@), value@),
{
    match value {
        Json::Text(text) => {
            let length: usize = to_chars(text.as_str()).len();
            minimum(find_member(fields, "minLength"), length) && maximum(
                find_member(fields, "maxLength"),
                length,
            ) && match find_member(fields, "pattern") {
                None => true,
                Some(Json::Text(pattern)) => match_regex(pattern.as_str(), text.as_str()),
                Some(_) => false,
            }
        },
        _ => true,
    }
}

fn within_bound(bound: Option<&Json>, number: &Decimal, lower: bool, exclusive: bool) -> (r: bool)
    requires
        number.wf(),
    ensures
        r == bound_holds(opt_json(bound), number@, lower, exclusive),
{
    match bound {
        None => true,
        Some(value) => match safe_decimal(value) {
            None => false,
            Some(limit) => {
                if lower {
                    if exclusive {
                        limit.below(number)
                    } else {
                        !number.below(&limit)
                    }
                } else if exclusive {
                    number.below(&limit)
                } else {
                    !limit.below(number)
                }
            },
        },
    }
}

fn validates_number(fields: &[Member], value: &Json) -> (r: bool)
    ensures
        r == number_matches(members(fields@), value@),
{
    match value {
        Json::Number(text) => match parse_safe_number(text.as_str()) {
            None => false,
            Some(number) => within_bound(find_member(fields, "minimum"), &number, true, false)
                && within_bound(find_member(fields, "maximum"), &number, false, false)
                && within_bound(find_member(fields, "exclusiveMinimum"), &number, true, true)
                && within_bound(find_member(fields, "exclusiveMaximum"), &number, false, true),
        },
        _ => true,
    }
}

fn required_properties_present(required: Option<&Json>, object: &[Member]) -> (r: bool)
    ensures
        r == required_present(opt_json(required), members(object@)),
{
    match required {
        None => true,
        Some(Json::Array(names)) => {
            proof {
                lemma_model(*required->Some_0);
            }
            let mut i: usize = 0;
            while i < names.len()
                invariant
                    i <= names@.len(),
                    required is Some,
                    required->Some_0@ == JsonModel::Array(values(names@)),
                    forall|k: int|
                        0 <= k < i ==> ((#[trigger] values(names@)[k]) matches JsonModel::Text(name)
                            && member(members(object@), name) is Some),
                decreases names@.len() - i,
            {
                assert(values(names@)[i as int] == names@[i as int]@);
                let present = match &names[i] {
                    Json::Text(name) => find_member(object, name.as_str()).is_some(),
                    _ => false,
                };
                if !present {
                    return false;
                }
                i += 1;
            }
            true
        },
        Some(_) => false,
    }
}

fn validates_plain(fields: &[Member], value: &Json) -> (r: bool)
    ensures
        r == plain_matches(members(fields@), value@),
{
    proof {
        lemma_model(*value);
    }
    matches_type(find_member(fields, "type"), value) && matches_enum(
        find_member(fields, "enum"),
        value,
    ) && matches_const(find_member(fields, "const"), value) && validates_string(fields, value)
        && validates_number(fields, value) && match value {
        Json::Array(items) => minimum(find_member(fields, "minItems"), items.len()) && maximum(
            find_member(fields, "maxItems"),
            items.len(),
        ),
        Json::Object(object) => minimum(find_member(fields, "minProperties"), object.len())
            && maximum(find_member(fields, "maxProperties"), object.len())
            && required_properties_present(find_member(fields, "required"), object.as_slice()),
        _ => true,
    }
}

/// Returns whether every schema of a list accepts a value.
fn matches_all_of(schemas: &Vec<Json>, value: &Json) -> (r: bool)
    ensures
        r == (forall|i: int|
            0 <= i < schemas@.len() ==> conforms(#[trigger] values(schemas@)[i], value@)),
    decreases *schemas,
{
    let mut i: usize = 0;
    while i < schemas.len()
        invariant
            i <= schemas@.len(),
            forall|k: int| 0 <= k < i ==> conforms(#[trigger] values(schemas@)[k], value@),
        decreases schemas@.len() - i,
    {
        assert(values(schemas@)[i as int] == schemas@[i as int]@);
        assert(decreases_to!(*schemas => schemas[i as int]));
        if !validates_schema(&schemas[i], value) {
            return false;
        }
        i += 1;
    }
    true
}

/// Returns whether some schema of a list accepts a value.
fn matches_any_of(schemas: &Vec<Json>, value: &Json) -> (r: bool)
    ensures
        r == (exists|i: int|
            0 <= i < schemas@.len() && conforms(#[trigger] values(schemas@)[i], value@)),
    decreases *schemas,
{
    let mut i: usize = 0;
    while i < schemas.len()
        invariant
            i <= schemas@.len(),
            forall|k: int| 0 <= k < i ==> !conforms(#[trigger] values(schemas@)[k], value@),
        decreases schemas@.len() - i,
    {
        assert(values(schemas@)[i as int] == schemas@[i as int]@);
        assert(decreases_to!(*schemas => schemas[i as int]));
        if validates_schema(&schemas[i], value) {
            return true;
        }
        i += 1;
    }
    false
}

/// Returns whether a schema accepts every value of a list.
fn accepts_items(schema: &Json, items: &[Json]) -> (r: bool)
    ensures
        r == (forall|i: int|
            0 <= i < items@.len() ==> conforms(schema@, #[trigger] values(items@)[i])),
    decreases *schema, 3int,
{
    let mut i: usize = 0;
    while i < items.len()
        invariant
            i <= items@.len(),
            forall|k: int| 0 <= k < i ==> conforms(schema@, #[trigger] values(items@)[k]),
        decreases items@.len() - i,
    {
        assert(values(items@)[i as int] == items@[i as int]@);
        if !validates_schema(schema, &items[i]) {
            return false;
        }
        i += 1;
    }
    true
}

/// Whether the schema of a member accepts it.
pub open spec fn member_conforms(fields: Fields, name: Seq<char>, value: JsonModel) -> bool {
    let declared = match member(fields, "properties"@) {
        Some(JsonModel::Object(list)) => member(list, name),
        _ => None,
    };
    match declared {
        Some(schema) => conforms(schema, value),
        None => match member(fields, "additionalProperties"@) {
            Some(schema) => conforms(schema, value),
            None => true,
        },
    }
}

fn accepts_member(schema: &Json, list: &Vec<Member>, name: &str, value: &Json) -> (r: bool)
    requires
        *schema == Json::Object(*list),
    ensures
        r == member_conforms(members(list@), name@, value@),
    decreases *schema, 0int,
{
    let fields = list.as_slice();
    if let Some(properties) = find_member(fields, "properties") {
        proof {
            lemma_value_smaller(*schema, *list, *properties);
            lemma_model(*properties);
        }
        if let Json::Object(inner) = properties {
            if let Some(declared) = find_member(inner.as_slice(), name) {
                proof {
                    lemma_value_smaller(*properties, *inner, *declared);
                }
                return validates_schema(declared, value);
            }
        }
    }
    match find_member(fields, "additionalProperties") {
        Some(additional) => {
            proof {
                lemma_value_smaller(*schema, *list, *additional);
            }
            validates_schema(additional, value)
        },
        None => true,
    }
}

/// Returns whether a schema is supported and accepts a value.
pub fn validates_schema(schema: &Json, value: &Json) -> (r: bool)
    ensures
        r == conforms(schema@, value@),
    decreases *schema, 2int,
{
    match schema {
        Json::Bool(accepts) => *accepts,
        Json::Object(list) => {
            proof {
                lemma_model(*schema);
                lemma_model(*value);
            }
            let fields = list.as_slice();
            if !schema_is_supported(schema) || !validates_plain(fields, value) {
                return false;
            }
            if let Some(schemas) = find_member(fields, "allOf") {
                proof {
                    lemma_value_smaller(*schema, *list, *schemas);
                    lemma_model(*schemas);
                }
                if let Json::Array(branches) = schemas {
                    assert(schemas->Array_0 == *branches);
                    assert(decreases_to!(*schemas => schemas->Array_0));
                    if !matches_all_of(branches, value) {
                        return false;
                    }
                } else {
                    return false;
                }
            }
            if let Some(schemas) = find_member(fields, "anyOf") {
                proof {
                    lemma_value_smaller(*schema, *list, *schemas);
                    lemma_model(*schemas);
                }
                if let Json::Array(branches) = schemas {
                    assert(schemas->Array_0 == *branches);
                    assert(decreases_to!(*schemas => schemas->Array_0));
                    if !matches_any_of(branches, value) {
                        return false;
                    }
                } else {
                    return false;
                }
            }
            match value {
                Json::Array(elements) => {
                    if let Some(items) = find_member(fields, "items") {
                        proof {
                            lemma_value_smaller(*schema, *list, *items);
                        }
                        return accepts_items(items, elements.as_slice());
                    }
                    true
                },
                Json::Object(object) => accepts_object(schema, list, object.as_slice()),
                _ => true,
            }
        },
        _ => false,
    }
}

fn accepts_object(schema: &Json, list: &Vec<Member>, object: &[Member]) -> (r: bool)
    requires
        *schema == Json::Object(*list),
    ensures
        r == (forall|i: int|
            0 <= i < object@.len() ==> member_conforms(
                members(list@),
                (#[trigger] members(object@)[i]).0,
                members(object@)[i].1,
            )),
    decreases *schema, 1int,
{
    let mut i: usize = 0;
    while i < object.len()
        invariant
            i <= object@.len(),
            *schema == Json::Object(*list),
            forall|k: int|
                0 <= k < i ==> member_conforms(
                    members(list@),
                    (#[trigger] members(object@)[k]).0,
                    members(object@)[k].1,
                ),
        decreases object@.len() - i,
    {
        assert(members(object@)[i as int] == (object@[i as int].name@, object@[i as int].value@));
        if !accepts_member(schema, list, object[i].name.as_str(), &object[i].value) {
            return false;
        }
        i += 1;
    }
    true
}

} // verus!
