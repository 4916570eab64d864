//! What a schema accepts.
use vstd::prelude::*;
use crate::number::{number_below, safe_number, DecimalModel};
use crate::schema::{at_least, at_most, conforms, has_type, size_of_value};
use crate::value::{field, member, member_from, same_json, JsonModel};

verus! {

/// A value that a schema accepts has the type that the schema names.
pub proof fn accepted_value_has_the_type(schema: JsonModel, value: JsonModel, name: Seq<char>)
    requires
        conforms(schema, value),
        field(schema, "type"@) == Some(JsonModel::Text(name)),
    ensures
        name == "object"@ ==> value is Object,
        name == "array"@ ==> value is Array,
        name == "boolean"@ ==> value is Bool,
        name == "number"@ ==> value is Number,
        name == "integer"@ ==> (value matches JsonModel::Number(text) && !text.contains('.')
            && !text.contains('e') && !text.contains('E')),
        name == "null"@ ==> value is Null,
        name == "string"@ ==> value is Text,
{
    reveal_strlit("object");
    reveal_strlit("array");
    reveal_strlit("boolean");
    reveal_strlit("integer");
    reveal_strlit("number");
    reveal_strlit("null");
    reveal_strlit("string");
    assert("object"@.len() == 6 && "array"@.len() == 5 && "boolean"@.len() == 7 && "integer"@.len()
        == 7 && "number"@.len() == 6 && "null"@.len() == 4 && "string"@.len() == 6);
    assert("object"@[0] == 'o' && "number"@[0] == 'n' && "string"@[0] == 's' && "boolean"@[0] == 'b'
        && "integer"@[0] == 'i');
    let fields = schema->Object_0;
    assert(member(fields, "type"@) == Some(JsonModel::Text(name)));
    assert(has_type(name, value));
}

/// An object that a schema accepts has every member that the schema requires.
pub proof fn accepted_object_has_what_is_required(
    schema: JsonModel,
    value: JsonModel,
    names: Seq<JsonModel>,
    i: int,
)
    requires
        conforms(schema, value),
        value is Object,
        field(schema, "required"@) == Some(JsonModel::Array(names)),
        0 <= i < names.len(),
    ensures
        names[i] matches JsonModel::Text(name) && field(value, name) is Some,
{
    let fields = schema->Object_0;
    assert(member(fields, "required"@) == Some(JsonModel::Array(names)));
    assert(crate::schema::required_present(Some(JsonModel::Array(names)), value->Object_0));
    assert(names[i] is Text);
}

/// A number that a schema accepts lies within the bounds of the schema; a bound that is exclusive it
/// does not reach.
pub proof fn accepted_number_is_within_bounds(
    schema: JsonModel,
    text: Seq<char>,
    bound: Seq<char>,
    number: DecimalModel,
    limit: DecimalModel,
)
    requires
        conforms(schema, JsonModel::Number(text)),
        safe_number(text) == Some(number),
        safe_number(bound) == Some(limit),
    ensures
        field(schema, "minimum"@) == Some(JsonModel::Number(bound)) ==> !number_below(number, limit),
        field(schema, "maximum"@) == Some(JsonModel::Number(bound)) ==> !number_below(limit, number),
        field(schema, "exclusiveMinimum"@) == Some(JsonModel::Number(bound)) ==> number_below(
            limit,
            number,
        ),
        field(schema, "exclusiveMaximum"@) == Some(JsonModel::Number(bound)) ==> number_below(
            number,
            limit,
        ),
{
    if schema is Object {
        let fields = schema->Object_0;
        assert(field(schema, "minimum"@) == member(fields, "minimum"@));
        assert(field(schema, "maximum"@) == member(fields, "maximum"@));
        assert(field(schema, "exclusiveMinimum"@) == member(fields, "exclusiveMinimum"@));
        assert(field(schema, "exclusiveMaximum"@) == member(fields, "exclusiveMaximum"@));
        assert(crate::schema::number_matches(fields, JsonModel::Number(text)));
    }
}

/// A text, a list or an object that a schema accepts is neither shorter nor longer than the schema
/// allows, and may be just as short or as long as it says.
pub proof fn sizes_are_inclusive(bound: JsonModel, n: usize, size: nat)
    requires
        size_of_value(bound) == Some(n),
    ensures
        at_least(Some(bound), size) <==> size >= n,
        at_most(Some(bound), size) <==> size <= n,
        at_least(None, size) && at_most(None, size),
{
}

/// Sizes of texts, lists and objects are held to the bounds that a schema names for each.
pub proof fn accepted_value_keeps_its_sizes(schema: JsonModel, value: JsonModel)
    requires
        conforms(schema, value),
        schema is Object,
    ensures
        value matches JsonModel::Text(text) ==> at_least(field(schema, "minLength"@), text.len())
            && at_most(field(schema, "maxLength"@), text.len()),
        value matches JsonModel::Array(items) ==> at_least(field(schema, "minItems"@), items.len())
            && at_most(field(schema, "maxItems"@), items.len()),
        value matches JsonModel::Object(object) ==> at_least(
            field(schema, "minProperties"@),
            object.len(),
        ) && at_most(field(schema, "maxProperties"@), object.len()),
{
}

/// A value that a schema accepts is one of those that the schema lists, and equals the one that it
/// fixes.
pub proof fn accepted_value_is_listed(
    schema: JsonModel,
    value: JsonModel,
    items: Seq<JsonModel>,
    constant: JsonModel,
)
    requires
        conforms(schema, value),
    ensures
        field(schema, "enum"@) == Some(JsonModel::Array(items)) ==> exists|i: int|
            0 <= i < items.len() && same_json(#[trigger] items[i], value),
        field(schema, "const"@) == Some(constant) ==> same_json(constant, value),
{
    if schema is Object {
        let fields = schema->Object_0;
        assert(field(schema, "enum"@) == member(fields, "enum"@));
        assert(field(schema, "const"@) == member(fields, "const"@));
        assert(crate::schema::enum_matches(member(fields, "enum"@), value));
    }
}

/// Each element of a list that a schema accepts is accepted by the schema for elements, each member
/// that is declared by the schema declared for it, and any other member by the schema for others.
pub proof fn accepted_parts_are_accepted(
    schema: JsonModel,
    value: JsonModel,
    inner: JsonModel,
    i: int,
)
    requires
        conforms(schema, value),
        schema is Object,
    ensures
        field(schema, "items"@) == Some(inner) ==> (value matches JsonModel::Array(elements) && 0 <= i
            < elements.len() ==> conforms(inner, value->Array_0[i])),
        value matches JsonModel::Object(object) ==> (0 <= i < object.len() ==> (field(
            schema,
            "properties"@,
        ) matches Some(JsonModel::Object(list)) ==> (member(list, object[i].0) == Some(inner)
            ==> conforms(inner, object[i].1)))),
        value matches JsonModel::Object(object) ==> (0 <= i < object.len() && field(
            schema,
            "properties"@,
        ) is None && field(schema, "additionalProperties"@) == Some(inner) ==> conforms(
            inner,
            object[i].1,
        )),
{
    let fields = schema->Object_0;
    lemma_member(fields, "items"@, 0);
    lemma_member(fields, "properties"@, 0);
    lemma_member(fields, "additionalProperties"@, 0);
    if let JsonModel::Object(object) = value {
        if 0 <= i < object.len() {
            let p = member_from(fields, "properties"@, 0);
            if 0 <= p < fields.len() && fields[p].1 is Object {
                lemma_member(fields[p].1->Object_0, object[i].0, 0);
            }
            assert(object[i].0 == object[i].0);
        }
    }
}

proof fn lemma_member(list: Seq<(Seq<char>, JsonModel)>, name: Seq<char>, i: int)
    requires
        0 <= i <= list.len(),
    ensures
        i <= member_from(list, name, i) <= list.len(),
    decreases list.len() - i,
{
    if i < list.len() && list[i].0 != name {
        lemma_member(list, name, i + 1);
    }
}

/// A value that a schema accepts is accepted by all of the schemas that it joins, and by one of those
/// that it offers.
pub proof fn joined_schemas_all_accept(
    schema: JsonModel,
    value: JsonModel,
    list: Seq<JsonModel>,
    i: int,
)
    requires
        conforms(schema, value),
        schema is Object,
    ensures
        field(schema, "allOf"@) == Some(JsonModel::Array(list)) && 0 <= i < list.len() ==> conforms(
            list[i],
            value,
        ),
        field(schema, "anyOf"@) == Some(JsonModel::Array(list)) ==> exists|k: int|
            0 <= k < list.len() && conforms(#[trigger] list[k], value),
{
    let fields = schema->Object_0;
    lemma_member(fields, "allOf"@, 0);
    lemma_member(fields, "anyOf"@, 0);
}

/// The schema `true` accepts everything, `false` nothing, and what is no schema accepts nothing.
pub proof fn plain_schemas_accept_all_or_nothing(value: JsonModel, text: Seq<char>)
    ensures
        conforms(JsonModel::Bool(true), value),
        !conforms(JsonModel::Bool(false), value),
        !conforms(JsonModel::Null, value),
        !conforms(JsonModel::Text(text), value),
        !conforms(JsonModel::Number(text), value),
{
}

/// A schema names these types and no others.
pub proof fn seven_types_are_known(name: Seq<char>)
    ensures
        crate::schema::is_type_name(name) <==> name == "object"@ || name == "array"@ || name
            == "boolean"@ || name == "integer"@ || name == "number"@ || name == "null"@ || name
            == "string"@,
{
}

} // verus!
