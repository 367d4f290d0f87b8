//! What a schema accepts, and what coercion makes of a value.

use vstd::prelude::*;

use crate::error::ErrorView;
use crate::json::{
    field, lookup, real_rank, real_value, same_json, text_before, unsigned_of, with_member,
    JsonNumberView, JsonView, Members,
};
use crate::json_laws::{has_no_member, is_first_named, law_lookup, law_text_order};
use crate::text::{contains, decimal};
use crate::text_laws::{
    law_signed_text, lemma_contains_part, lemma_contains_within, lemma_join_contains,
};
use crate::tool_validation::{
    all_errors, arguments_for, arguments_for_call, array_errors, as_first_type, as_one_of, as_type,
    coerced, coerced_by_all, coerced_by_union, coerced_each, coerced_others, coerced_pairwise,
    coerced_properties, content_errors, each_errors, errors_of, is_of_type, is_of_types, item_path,
    law_validity_ignores_path, listed_errors, match_count, member_path, object_errors,
    pairwise_errors, property_errors, rejection, required_errors, texts_of, tool_named, types_of,
    unexpected_errors, whole,
};
use crate::types::ToolDefinitionView;

verus! {

// ---------------------------------------------------------------------------
// What a schema accepts
// ---------------------------------------------------------------------------

/// A value has no errors under a schema.
pub open spec fn accepts(schema: JsonView, value: JsonView) -> bool {
    errors_of(value, schema, "root"@).len() == 0
}

/// A value is of a kind that a schema names.
pub open spec fn is_kind(value: JsonView, name: Seq<char>) -> bool {
    match value {
        JsonView::Null => name == "null"@,
        JsonView::Bool(_) => name == "boolean"@,
        JsonView::Number(JsonNumberView::Real(_)) => name == "number"@,
        JsonView::Number(_) => name == "number"@ || name == "integer"@,
        JsonView::Text(_) => name == "string"@,
        JsonView::Array(_) => name == "array"@,
        JsonView::Object(_) => name == "object"@,
    }
}

/// A value is of the type under "type", or of one of several. A list that names none
/// asks for nothing.
pub open spec fn meets_type(value: JsonView, wanted: Option<JsonView>) -> bool {
    match wanted {
        Some(JsonView::Text(name)) => is_kind(value, name),
        Some(JsonView::Array(names)) => {
            ||| forall|i: int| 0 <= i < names.len() ==> !((#[trigger] names[i]) is Text)
            ||| exists|i: int|
                0 <= i < names.len() && ((#[trigger] names[i]) matches JsonView::Text(name)
                    && is_kind(value, name))
        },
        _ => true,
    }
}

/// A value is that under "const".
pub open spec fn meets_const(value: JsonView, wanted: Option<JsonView>) -> bool {
    wanted matches Some(only) ==> same_json(value, only)
}

/// A value is one of those under "enum".
pub open spec fn meets_enum(value: JsonView, wanted: Option<JsonView>) -> bool {
    wanted matches Some(JsonView::Array(allowed)) ==> exists|i: int|
        0 <= i < allowed.len() && same_json(#[trigger] allowed[i], value)
}

/// One of some schemas accepts a value.
pub open spec fn some_accepts(schemas: Seq<JsonView>, value: JsonView) -> bool {
    exists|i: int| 0 <= i < schemas.len() && accepts(#[trigger] schemas[i], value)
}

/// Exactly one of some schemas accepts a value.
pub open spec fn one_accepts(schemas: Seq<JsonView>, value: JsonView) -> bool {
    &&& some_accepts(schemas, value)
    &&& forall|i: int, j: int|
        0 <= i < j < schemas.len() ==> !(accepts(#[trigger] schemas[i], value) && accepts(
            #[trigger] schemas[j],
            value,
        ))
}

/// Every one of some schemas accepts a value.
pub open spec fn all_accept(schemas: Seq<JsonView>, value: JsonView) -> bool {
    forall|i: int| 0 <= i < schemas.len() ==> accepts(#[trigger] schemas[i], value)
}

/// An object has the members that a schema asks for, and those that it describes are
/// as it says. Where it allows no others, there are none.
pub open spec fn meets_members(members: Members, schema: JsonView) -> bool {
    &&& field(schema, "required"@) matches Some(JsonView::Array(required)) ==> forall|i: int|
        0 <= i < required.len() ==> ((#[trigger] required[i]) matches JsonView::Text(name)
            ==> !has_no_member(members, name))
    &&& field(schema, "properties"@) matches Some(JsonView::Object(properties)) ==> {
        &&& forall|i: int|
            0 <= i < properties.len() ==> (lookup(members, (#[trigger] properties[i]).0)
                matches Some(value) ==> accepts(properties[i].1, value))
        &&& field(schema, "additionalProperties"@) == Some(JsonView::Bool(false))
            ==> forall|i: int|
            0 <= i < members.len() ==> !has_no_member(properties, (#[trigger] members[i]).0)
    }
}

/// An array is as long as a schema asks for, and its items are as it says: all alike,
/// or each as the schema at its place says.
pub open spec fn meets_items(items: Seq<JsonView>, schema: JsonView) -> bool {
    &&& unsigned_of(field(schema, "minItems"@)) matches Some(n) ==> n <= items.len()
    &&& unsigned_of(field(schema, "maxItems"@)) matches Some(n) ==> items.len() <= n
    &&& match field(schema, "items"@) {
        Some(JsonView::Array(schemas)) => forall|i: int|
            0 <= i < items.len() && i < schemas.len() ==> accepts(schemas[i], #[trigger] items[i]),
        Some(JsonView::Object(members)) => forall|i: int|
            0 <= i < items.len() ==> accepts(
                JsonView::Object(members),
                #[trigger] items[i],
            ),
        _ => true,
    }
}

/// The content of a value is as a schema says.
pub open spec fn meets_content(value: JsonView, schema: JsonView) -> bool {
    match value {
        JsonView::Object(members) => meets_members(members, schema),
        JsonView::Array(items) => meets_items(items, schema),
        JsonView::Text(text) => {
            &&& unsigned_of(field(schema, "minLength"@)) matches Some(n) ==> n <= text.len()
            &&& unsigned_of(field(schema, "maxLength"@)) matches Some(n) ==> text.len() <= n
        },
        JsonView::Number(n) => {
            &&& field(schema, "minimum"@) matches Some(JsonView::Number(bound)) ==> is_at_most(
                bound,
                n,
            )
            &&& field(schema, "maximum"@) matches Some(JsonView::Number(bound)) ==> is_at_most(
                n,
                bound,
            )
        },
        _ => true,
    }
}

/// As doubles, the first of two numbers is not above the second. A number that is no
/// finite double is bounded by none.
pub open spec fn is_at_most(a: JsonNumberView, b: JsonNumberView) -> bool {
    match (real_value(a), real_value(b)) {
        (Some(x), Some(y)) => real_rank(x) <= real_rank(y),
        _ => true,
    }
}

/// A value meets all that a schema says. Where the schema says "anyOf", what it says
/// of the content is not looked at.
pub open spec fn meets(value: JsonView, schema: JsonView) -> bool {
    &&& meets_type(value, field(schema, "type"@))
    &&& meets_const(value, field(schema, "const"@))
    &&& meets_enum(value, field(schema, "enum"@))
    &&& match field(schema, "anyOf"@) {
        Some(JsonView::Array(schemas)) => some_accepts(schemas, value),
        _ => {
            &&& field(schema, "oneOf"@) matches Some(JsonView::Array(schemas)) ==> one_accepts(
                schemas,
                value,
            )
            &&& field(schema, "allOf"@) matches Some(JsonView::Array(schemas)) ==> all_accept(
                schemas,
                value,
            )
            &&& meets_content(value, schema)
        },
    }
}

proof fn lemma_kinds(value: JsonView, name: Seq<char>)
    ensures
        is_of_type(value, name) == is_kind(value, name),
{
    lemma_kind_names();
}

/// The texts among some values are those of the text values.
pub open spec fn is_text_among(items: Seq<JsonView>, text: Seq<char>) -> bool {
    exists|i: int| 0 <= i < items.len() && #[trigger] items[i] == JsonView::Text(text)
}

proof fn lemma_texts_of(items: Seq<JsonView>, text: Seq<char>)
    ensures
        texts_of(items).contains(text) <==> is_text_among(items, text),
    decreases items.len(),
{
    let texts = texts_of(items);
    if items.len() > 0 {
        let front = items.drop_last();
        let before = texts_of(front);
        lemma_texts_of(front, text);
        if is_text_among(items, text) {
            let i = choose|i: int|
                0 <= i < items.len() && #[trigger] items[i] == JsonView::Text(text);
            if i < front.len() {
                assert(front[i] == items[i]);
                let a = choose|a: int| 0 <= a < before.len() && before[a] == text;
                assert(texts[a] == text);
            } else {
                assert(texts[before.len() as int] == text);
            }
        }
        if texts.contains(text) {
            let a = choose|a: int| 0 <= a < texts.len() && texts[a] == text;
            if a < before.len() {
                assert(before[a] == text);
                let i = choose|i: int|
                    0 <= i < front.len() && #[trigger] front[i] == JsonView::Text(text);
                assert(items[i] == JsonView::Text(text));
            } else {
                assert(items[items.len() - 1] == JsonView::Text(text));
            }
        }
    }
}

proof fn lemma_type_met(value: JsonView, schema: JsonView)
    ensures
        (types_of(schema).len() > 0 && !is_of_types(value, types_of(schema))) == !meets_type(
            value,
            field(schema, "type"@),
        ),
{
    let types = types_of(schema);
    match field(schema, "type"@) {
        Some(JsonView::Text(name)) => {
            lemma_kinds(value, name);
            assert(types[0] == name);
            if is_of_types(value, types) {
                let i = choose|i: int|
                    0 <= i < types.len() && is_of_type(value, #[trigger] types[i]);
                assert(types[i] == name);
            }
        },
        Some(JsonView::Array(names)) => {
            if types.len() == 0 {
                assert forall|i: int| 0 <= i < names.len() implies !((
                #[trigger] names[i]) is Text) by {
                    if let JsonView::Text(name) = names[i] {
                        lemma_texts_of(names, name);
                    }
                }
            } else {
                lemma_texts_of(names, types[0]);
                assert(types.contains(types[0]));
                assert(is_text_among(names, types[0]));
                if is_of_types(value, types) {
                    let i = choose|i: int|
                        0 <= i < types.len() && is_of_type(value, #[trigger] types[i]);
                    lemma_texts_of(names, types[i]);
                    lemma_kinds(value, types[i]);
                    assert(types.contains(types[i]));
                    let k = choose|k: int|
                        0 <= k < names.len() && #[trigger] names[k] == JsonView::Text(types[i]);
                    assert(names[k] matches JsonView::Text(name) && is_kind(value, name));
                }
                if exists|i: int|
                    0 <= i < names.len() && ((#[trigger] names[i]) matches JsonView::Text(name)
                        && is_kind(value, name)) {
                    let i = choose|i: int|
                        0 <= i < names.len() && ((#[trigger] names[i]) matches JsonView::Text(name)
                            && is_kind(value, name));
                    let name = names[i]->Text_0;
                    lemma_kinds(value, name);
                    lemma_texts_of(names, name);
                    assert(is_text_among(names, name));
                    let k = choose|k: int| 0 <= k < types.len() && types[k] == name;
                    assert(is_of_type(value, types[k]));
                }
            }
        },
        _ => {},
    }
}

proof fn lemma_count(value: JsonView, schemas: Seq<JsonView>, path: Seq<char>)
    ensures
        match_count(value, schemas, path) == 0 <==> !some_accepts(schemas, value),
        match_count(value, schemas, path) == 1 <==> one_accepts(schemas, value),
    decreases schemas.len(),
{
    if schemas.len() > 0 {
        let front = schemas.drop_last();
        let n = schemas.len() - 1;
        lemma_count(value, front, path);
        law_validity_ignores_path(value, schemas.last(), path, "root"@);
        assert(schemas[n] == schemas.last());
        assert(forall|i: int| 0 <= i < n ==> #[trigger] front[i] == schemas[i]);
        if some_accepts(front, value) {
            let i = choose|i: int| 0 <= i < front.len() && accepts(#[trigger] front[i], value);
            assert(accepts(schemas[i], value));
            if accepts(schemas[n], value) {
                assert(!one_accepts(schemas, value));
            }
        }
        if some_accepts(schemas, value) {
            let i = choose|i: int| 0 <= i < schemas.len() && accepts(#[trigger] schemas[i], value);
            if i < n {
                assert(accepts(front[i], value));
            }
        }
        if one_accepts(front, value) && !accepts(schemas[n], value) {
            assert forall|i: int, j: int| 0 <= i < j < schemas.len() implies !(accepts(
                #[trigger] schemas[i],
                value,
            ) && accepts(#[trigger] schemas[j], value)) by {
                if j < n {
                    assert(front[i] == schemas[i] && front[j] == schemas[j]);
                }
            }
        }
        if one_accepts(schemas, value) && !accepts(schemas[n], value) {
            assert forall|i: int, j: int| 0 <= i < j < front.len() implies !(accepts(
                #[trigger] front[i],
                value,
            ) && accepts(#[trigger] front[j], value)) by {
                assert(front[i] == schemas[i] && front[j] == schemas[j]);
            }
        }
        if !some_accepts(front, value) && accepts(schemas[n], value) {
            assert forall|i: int, j: int| 0 <= i < j < schemas.len() implies !(accepts(
                #[trigger] schemas[i],
                value,
            ) && accepts(#[trigger] schemas[j], value)) by {
                assert(front[i] == schemas[i]);
            }
        }
    }
}

proof fn lemma_all(value: JsonView, schemas: Seq<JsonView>, path: Seq<char>)
    ensures
        all_errors(value, schemas, path).len() == 0 <==> all_accept(schemas, value),
    decreases schemas.len(),
{
    if schemas.len() > 0 {
        let front = schemas.drop_last();
        lemma_all(value, front, path);
        law_validity_ignores_path(value, schemas.last(), path, "root"@);
        assert(schemas[schemas.len() - 1] == schemas.last());
        assert(forall|i: int| 0 <= i < front.len() ==> #[trigger] front[i] == schemas[i]);
        if all_accept(schemas, value) {
            assert forall|i: int| 0 <= i < front.len() implies accepts(
                #[trigger] front[i],
                value,
            ) by {
                assert(accepts(schemas[i], value));
            }
        }
        if all_accept(front, value) && accepts(schemas.last(), value) {
            assert forall|i: int| 0 <= i < schemas.len() implies accepts(
                #[trigger] schemas[i],
                value,
            ) by {
                if i < front.len() {
                    assert(accepts(front[i], value));
                }
            }
        }
    }
}

proof fn lemma_required(members: Members, required: Seq<Seq<char>>, path: Seq<char>)
    ensures
        required_errors(members, required, path).len() == 0 <==> forall|i: int|
            0 <= i < required.len() ==> !has_no_member(members, #[trigger] required[i]),
    decreases required.len(),
{
    if required.len() > 0 {
        let front = required.drop_last();
        let n = required.len() - 1;
        lemma_required(members, front, path);
        law_lookup(members, required[n]);
        if lookup(members, required[n]) is Some {
            let i = choose|i: int| #[trigger]
                is_first_named(members, required[n], i) && lookup(members, required[n])->0
                    == members[i].1;
            assert(members[i].0 == required[n]);
            assert(!has_no_member(members, required[n]));
        }
        assert(forall|i: int| 0 <= i < n ==> #[trigger] front[i] == required[i]);
        if required_errors(members, required, path).len() == 0 {
            assert forall|i: int| 0 <= i < required.len() implies !has_no_member(
                members,
                #[trigger] required[i],
            ) by {
                if i < n {
                    assert(!has_no_member(members, front[i]));
                }
            }
        }
        if forall|i: int|
            0 <= i < required.len() ==> !has_no_member(members, #[trigger] required[i]) {
            assert forall|i: int| 0 <= i < front.len() implies !has_no_member(
                members,
                #[trigger] front[i],
            ) by {
                assert(!has_no_member(members, required[i]));
            }
        }
    }
}

proof fn lemma_required_names(members: Members, required: Seq<JsonView>)
    ensures
        (forall|i: int|
            0 <= i < texts_of(required).len() ==> !has_no_member(
                members,
                #[trigger] texts_of(required)[i],
            )) <==> (forall|i: int|
            0 <= i < required.len() ==> ((#[trigger] required[i]) matches JsonView::Text(name)
                ==> !has_no_member(members, name))),
{
    let texts = texts_of(required);
    if forall|i: int| 0 <= i < texts.len() ==> !has_no_member(members, #[trigger] texts[i]) {
        assert forall|i: int| 0 <= i < required.len() implies ((
        #[trigger] required[i]) matches JsonView::Text(name) ==> !has_no_member(
            members,
            name,
        )) by {
            if let JsonView::Text(name) = required[i] {
                lemma_texts_of(required, name);
                assert(is_text_among(required, name));
                let a = choose|a: int| 0 <= a < texts.len() && texts[a] == name;
                assert(!has_no_member(members, texts[a]));
            }
        }
    }
    if forall|i: int|
        0 <= i < required.len() ==> ((#[trigger] required[i]) matches JsonView::Text(name)
            ==> !has_no_member(members, name)) {
        assert forall|i: int| 0 <= i < texts.len() implies !has_no_member(
            members,
            #[trigger] texts[i],
        ) by {
            lemma_texts_of(required, texts[i]);
            assert(texts.contains(texts[i]));
            let k = choose|k: int|
                0 <= k < required.len() && #[trigger] required[k] == JsonView::Text(texts[i]);
            assert(required[k] matches JsonView::Text(name) ==> !has_no_member(members, name));
        }
    }
}

proof fn lemma_properties(members: Members, properties: Members, path: Seq<char>)
    ensures
        property_errors(members, properties, path).len() == 0 <==> forall|i: int|
            0 <= i < properties.len() ==> (lookup(members, (#[trigger] properties[i]).0)
                matches Some(value) ==> accepts(properties[i].1, value)),
    decreases properties.len(),
{
    if properties.len() > 0 {
        let front = properties.drop_last();
        let n = properties.len() - 1;
        let (name, schema) = properties.last();
        lemma_properties(members, front, path);
        if let Some(value) = lookup(members, name) {
            law_validity_ignores_path(value, schema, member_path(path, name), "root"@);
        }
        assert(properties[n] == properties.last());
        assert(forall|i: int| 0 <= i < n ==> #[trigger] front[i] == properties[i]);
        if property_errors(members, properties, path).len() == 0 {
            assert forall|i: int| 0 <= i < properties.len() implies (lookup(
                members,
                (#[trigger] properties[i]).0,
            ) matches Some(value) ==> accepts(properties[i].1, value)) by {
                if i < n {
                    assert(front[i] == properties[i]);
                }
            }
        }
        if forall|i: int|
            0 <= i < properties.len() ==> (lookup(members, (#[trigger] properties[i]).0)
                matches Some(value) ==> accepts(properties[i].1, value)) {
            assert forall|i: int| 0 <= i < front.len() implies (lookup(
                members,
                (#[trigger] front[i]).0,
            ) matches Some(value) ==> accepts(front[i].1, value)) by {
                assert(front[i] == properties[i]);
            }
        }
    }
}

proof fn lemma_unexpected(members: Members, properties: Members, path: Seq<char>)
    ensures
        unexpected_errors(members, properties, path).len() == 0 <==> forall|i: int|
            0 <= i < members.len() ==> !has_no_member(properties, (#[trigger] members[i]).0),
    decreases members.len(),
{
    if members.len() > 0 {
        let front = members.drop_last();
        let n = members.len() - 1;
        let name = members.last().0;
        lemma_unexpected(front, properties, path);
        law_lookup(properties, name);
        if lookup(properties, name) is Some {
            let i = choose|i: int| #[trigger]
                is_first_named(properties, name, i) && lookup(properties, name)->0
                    == properties[i].1;
            assert(properties[i].0 == name);
            assert(!has_no_member(properties, name));
        }
        assert(members[n] == members.last());
        assert(forall|i: int| 0 <= i < n ==> #[trigger] front[i] == members[i]);
        if unexpected_errors(members, properties, path).len() == 0 {
            assert forall|i: int| 0 <= i < members.len() implies !has_no_member(
                properties,
                (#[trigger] members[i]).0,
            ) by {
                if i < n {
                    assert(!has_no_member(properties, front[i].0));
                }
            }
        }
        if forall|i: int|
            0 <= i < members.len() ==> !has_no_member(properties, (#[trigger] members[i]).0) {
            assert forall|i: int| 0 <= i < front.len() implies !has_no_member(
                properties,
                (#[trigger] front[i]).0,
            ) by {
                assert(!has_no_member(properties, members[i].0));
            }
        }
    }
}

proof fn lemma_members(members: Members, schema: JsonView, path: Seq<char>)
    ensures
        object_errors(members, schema, path).len() == 0 <==> meets_members(members, schema),
{
    if let Some(JsonView::Array(required)) = field(schema, "required"@) {
        lemma_required(members, texts_of(required), path);
        lemma_required_names(members, required);
    }
    if let Some(JsonView::Object(properties)) = field(schema, "properties"@) {
        lemma_properties(members, properties, path);
        lemma_unexpected(members, properties, path);
    }
}

proof fn lemma_pairwise(items: Seq<JsonView>, schemas: Seq<JsonView>, path: Seq<char>)
    ensures
        pairwise_errors(items, schemas, path).len() == 0 <==> forall|i: int|
            0 <= i < items.len() && i < schemas.len() ==> accepts(schemas[i], #[trigger] items[i]),
    decreases schemas.len(),
{
    if schemas.len() > 0 {
        let front = schemas.drop_last();
        let n = schemas.len() - 1;
        lemma_pairwise(items, front, path);
        assert(forall|i: int| 0 <= i < n ==> #[trigger] front[i] == schemas[i]);
        if n < items.len() {
            law_validity_ignores_path(items[n], schemas[n], item_path(path, n as nat), "root"@);
        }
        if pairwise_errors(items, schemas, path).len() == 0 {
            assert forall|i: int| 0 <= i < items.len() && i < schemas.len() implies accepts(
                schemas[i],
                #[trigger] items[i],
            ) by {
                if i < n {
                    assert(accepts(front[i], items[i]));
                }
            }
        }
        if forall|i: int|
            0 <= i < items.len() && i < schemas.len() ==> accepts(schemas[i], #[trigger] items[i]) {
            assert forall|i: int| 0 <= i < items.len() && i < front.len() implies accepts(
                front[i],
                #[trigger] items[i],
            ) by {
                assert(accepts(schemas[i], items[i]));
            }
            if n < items.len() {
                assert(accepts(schemas[n], items[n]));
            }
        }
    }
}

proof fn lemma_each(items: Seq<JsonView>, schema: JsonView, path: Seq<char>)
    ensures
        each_errors(items, schema, path).len() == 0 <==> forall|i: int|
            0 <= i < items.len() ==> accepts(schema, #[trigger] items[i]),
    decreases items.len(),
{
    if items.len() > 0 {
        let front = items.drop_last();
        let n = items.len() - 1;
        lemma_each(front, schema, path);
        law_validity_ignores_path(items[n], schema, item_path(path, n as nat), "root"@);
        assert(forall|i: int| 0 <= i < n ==> #[trigger] front[i] == items[i]);
        if each_errors(items, schema, path).len() == 0 {
            assert forall|i: int| 0 <= i < items.len() implies accepts(
                schema,
                #[trigger] items[i],
            ) by {
                if i < n {
                    assert(accepts(schema, front[i]));
                }
            }
        }
        if forall|i: int| 0 <= i < items.len() ==> accepts(schema, #[trigger] items[i]) {
            assert forall|i: int| 0 <= i < front.len() implies accepts(
                schema,
                #[trigger] front[i],
            ) by {
                assert(accepts(schema, items[i]));
            }
            assert(accepts(schema, items[n]));
        }
    }
}

proof fn lemma_items(items: Seq<JsonView>, schema: JsonView, path: Seq<char>)
    ensures
        array_errors(items, schema, path).len() == 0 <==> meets_items(items, schema),
{
    match field(schema, "items"@) {
        Some(JsonView::Array(schemas)) => {
            lemma_pairwise(items, schemas, path);
        },
        Some(JsonView::Object(members)) => {
            lemma_each(items, JsonView::Object(members), path);
        },
        _ => {},
    }
}

proof fn lemma_content(value: JsonView, schema: JsonView, path: Seq<char>)
    ensures
        content_errors(value, schema, path).len() == 0 <==> {
            &&& field(schema, "allOf"@) matches Some(JsonView::Array(schemas)) ==> all_accept(
                schemas,
                value,
            )
            &&& meets_content(value, schema)
        },
{
    if let Some(JsonView::Array(schemas)) = field(schema, "allOf"@) {
        lemma_all(value, schemas, path);
    }
    match value {
        JsonView::Object(members) => {
            lemma_members(members, schema, path);
        },
        JsonView::Array(items) => {
            lemma_items(items, schema, path);
        },
        _ => {},
    }
}

/// A schema accepts a value exactly where the value meets all that it says: it is of
/// the type, it is the constant, it is one of those listed, some, one or all of the
/// schemas it names accept it, and its members, its items, its length or its size are
/// as the schema asks. Under which path errors are told makes no difference.
pub proof fn law_schema_accepts_what_meets_it(value: JsonView, schema: JsonView, path: Seq<char>)
    ensures
        errors_of(value, schema, path).len() == 0 <==> meets(value, schema),
        accepts(schema, value) <==> meets(value, schema),
{
    law_validity_ignores_path(value, schema, path, "root"@);
    lemma_type_met(value, schema);
    if let Some(JsonView::Array(schemas)) = field(schema, "anyOf"@) {
        lemma_count(value, schemas, path);
    }
    if let Some(JsonView::Array(schemas)) = field(schema, "oneOf"@) {
        lemma_count(value, schemas, path);
    }
    lemma_content(value, schema, path);
}

// ---------------------------------------------------------------------------
// Schemas that say one thing
// ---------------------------------------------------------------------------

/// A schema with one member.
pub open spec fn with_only(name: Seq<char>, value: JsonView) -> JsonView {
    JsonView::Object(seq![(name, value)])
}

proof fn lemma_only(name: Seq<char>, value: JsonView, other: Seq<char>)
    ensures
        field(with_only(name, value), name) == Some(value),
        other != name ==> field(with_only(name, value), other) is None,
{
    let members = seq![(name, value)];
    assert(members.skip(1) =~= seq![]);
    assert(lookup(members.skip(1), other) is None);
}

proof fn lemma_keywords()
    ensures
        "type"@ != "enum"@,
        "const"@ != "enum"@,
        "anyOf"@ != "enum"@,
        "oneOf"@ != "enum"@,
        "allOf"@ != "enum"@,
        "required"@ != "enum"@,
        "properties"@ != "enum"@,
        "items"@ != "enum"@,
        "minItems"@ != "enum"@,
        "maxItems"@ != "enum"@,
        "minLength"@ != "enum"@,
        "maxLength"@ != "enum"@,
        "minimum"@ != "enum"@,
        "maximum"@ != "enum"@,
        "type"@ != "const"@,
        "anyOf"@ != "const"@,
        "oneOf"@ != "const"@,
        "allOf"@ != "const"@,
        "required"@ != "const"@,
        "properties"@ != "const"@,
        "items"@ != "const"@,
        "minItems"@ != "const"@,
        "maxItems"@ != "const"@,
        "minLength"@ != "const"@,
        "maxLength"@ != "const"@,
        "minimum"@ != "const"@,
        "maximum"@ != "const"@,
        "anyOf"@ != "type"@,
        "oneOf"@ != "type"@,
        "allOf"@ != "type"@,
        "required"@ != "type"@,
        "properties"@ != "type"@,
        "items"@ != "type"@,
        "minItems"@ != "type"@,
        "maxItems"@ != "type"@,
        "minLength"@ != "type"@,
        "maxLength"@ != "type"@,
        "minimum"@ != "type"@,
        "maximum"@ != "type"@,
{
    reveal_strlit("type");
    reveal_strlit("enum");
    reveal_strlit("const");
    reveal_strlit("anyOf");
    reveal_strlit("oneOf");
    reveal_strlit("allOf");
    reveal_strlit("required");
    reveal_strlit("properties");
    reveal_strlit("items");
    reveal_strlit("minItems");
    reveal_strlit("maxItems");
    reveal_strlit("minLength");
    reveal_strlit("maxLength");
    reveal_strlit("minimum");
    reveal_strlit("maximum");
    assert("type"@[0] == 't' && "enum"@[0] == 'e' && "const"@[0] == 'c');
    assert("anyOf"@[0] == 'a' && "oneOf"@[0] == 'o' && "allOf"@[0] == 'a');
    assert("required"@[0] == 'r' && "properties"@[0] == 'p' && "items"@[0] == 'i');
    assert("minItems"@[0] == 'm' && "maxItems"@[0] == 'm' && "minLength"@[0] == 'm');
    assert("maxLength"@[0] == 'm' && "minimum"@[0] == 'm' && "maximum"@[0] == 'm');
}

proof fn lemma_only_name(name: Seq<char>, wanted: JsonView)
    requires
        name == "enum"@ || name == "const"@ || name == "type"@,
    ensures
        ({
            let schema = with_only(name, wanted);
            &&& field(schema, name) == Some(wanted)
            &&& name != "enum"@ ==> field(schema, "enum"@) is None
            &&& name != "const"@ ==> field(schema, "const"@) is None
            &&& name != "type"@ ==> field(schema, "type"@) is None
            &&& field(schema, "anyOf"@) is None
            &&& field(schema, "oneOf"@) is None
            &&& field(schema, "allOf"@) is None
            &&& field(schema, "required"@) is None
            &&& field(schema, "properties"@) is None
            &&& field(schema, "items"@) is None
            &&& field(schema, "minItems"@) is None
            &&& field(schema, "maxItems"@) is None
            &&& field(schema, "minLength"@) is None
            &&& field(schema, "maxLength"@) is None
            &&& field(schema, "minimum"@) is None
            &&& field(schema, "maximum"@) is None
        }),
{
    lemma_keywords();
    lemma_only(name, wanted, "enum"@);
    lemma_only(name, wanted, "const"@);
    lemma_only(name, wanted, "type"@);
    lemma_only(name, wanted, "anyOf"@);
    lemma_only(name, wanted, "oneOf"@);
    lemma_only(name, wanted, "allOf"@);
    lemma_only(name, wanted, "required"@);
    lemma_only(name, wanted, "properties"@);
    lemma_only(name, wanted, "items"@);
    lemma_only(name, wanted, "minItems"@);
    lemma_only(name, wanted, "maxItems"@);
    lemma_only(name, wanted, "minLength"@);
    lemma_only(name, wanted, "maxLength"@);
    lemma_only(name, wanted, "minimum"@);
    lemma_only(name, wanted, "maximum"@);
}

/// A schema that lists values and says nothing else accepts exactly those that are
/// equal to one of them.
pub proof fn law_enum_accepts_its_values(value: JsonView, allowed: Seq<JsonView>, path: Seq<char>)
    ensures
        errors_of(value, with_only("enum"@, JsonView::Array(allowed)), path).len() == 0
            <==> exists|i: int| 0 <= i < allowed.len() && same_json(#[trigger] allowed[i], value),
{
    let schema = with_only("enum"@, JsonView::Array(allowed));
    lemma_keywords();
    lemma_only_name("enum"@, JsonView::Array(allowed));
    law_schema_accepts_what_meets_it(value, schema, path);
}

/// A schema that names a constant and says nothing else accepts exactly the values
/// that are equal to it.
pub proof fn law_const_accepts_its_value(value: JsonView, only: JsonView, path: Seq<char>)
    ensures
        errors_of(value, with_only("const"@, only), path).len() == 0 <==> same_json(value, only),
{
    lemma_keywords();
    lemma_only_name("const"@, only);
    law_schema_accepts_what_meets_it(value, with_only("const"@, only), path);
}

/// A schema that names a type and says nothing else accepts exactly the values of it.
pub proof fn law_type_accepts_its_values(value: JsonView, name: Seq<char>, path: Seq<char>)
    ensures
        errors_of(value, with_only("type"@, JsonView::Text(name)), path).len() == 0 <==> is_kind(
            value,
            name,
        ),
{
    lemma_keywords();
    lemma_only_name("type"@, JsonView::Text(name));
    law_schema_accepts_what_meets_it(value, with_only("type"@, JsonView::Text(name)), path);
}

// ---------------------------------------------------------------------------
// Arguments
// ---------------------------------------------------------------------------

/// Arguments that are taken meet all that the tool's schema says: where it lists
/// values, they are one of those. Where they are not taken, the error is that of the
/// tool, and it holds what is wrong and what was given.
pub proof fn law_taken_arguments_meet_the_schema(tool: ToolDefinitionView, arguments: JsonView)
    ensures
        match arguments_for(tool, arguments) {
            Ok(value) => {
                &&& value == coerced(arguments, tool.parameters)
                &&& meets(value, tool.parameters)
                &&& field(tool.parameters, "enum"@) matches Some(JsonView::Array(allowed))
                    ==> exists|i: int|
                    0 <= i < allowed.len() && same_json(#[trigger] allowed[i], value)
            },
            Err(e) => {
                &&& !meets(coerced(arguments, tool.parameters), tool.parameters)
                &&& e matches ErrorView::Tool { tool: name, message } && name == tool.name
                    && contains(message, tool.name) && contains(
                    message,
                    crate::json::pretty_json(arguments),
                ) && forall|i: int|
                    0 <= i < errors_of(
                        coerced(arguments, tool.parameters),
                        tool.parameters,
                        "root"@,
                    ).len() ==> contains(
                        message,
                        #[trigger] errors_of(
                            coerced(arguments, tool.parameters),
                            tool.parameters,
                            "root"@,
                        )[i],
                    )
            },
        },
{
    let value = coerced(arguments, tool.parameters);
    law_schema_accepts_what_meets_it(value, tool.parameters, "root"@);
    let errors = errors_of(value, tool.parameters, "root"@);
    if errors.len() > 0 {
        let listed = listed_errors(errors);
        let all = crate::text::join(listed, "\n"@);
        let shown = crate::json::pretty_json(arguments);
        let message = rejection(tool.name, errors, arguments)->Tool_message;
        let head = "Validation failed for tool \""@;
        let middle = "\":\n"@;
        let tail = "\n\nReceived arguments:\n"@;
        lemma_contains_part(head, tool.name, middle + all + tail + shown);
        assert(head + tool.name + (middle + all + tail + shown) =~= message);
        lemma_contains_part(head + tool.name + middle + all + tail, shown, seq![]);
        assert(head + tool.name + middle + all + tail + shown + Seq::<char>::empty() =~= message);
        lemma_contains_part(head + tool.name + middle, all, tail + shown);
        assert(head + tool.name + middle + all + (tail + shown) =~= message);
        assert forall|i: int| 0 <= i < errors.len() implies contains(
            message,
            #[trigger] errors[i],
        ) by {
            lemma_join_contains(listed, "\n"@, i);
            lemma_contains_within(message, all, listed[i]);
            lemma_contains_part("  - "@, errors[i], seq![]);
            assert("  - "@ + errors[i] + Seq::<char>::empty() =~= listed[i]);
            lemma_contains_within(message, listed[i], errors[i]);
        }
    }
}

/// A call is held against the first tool with its name; where no tool has it, the
/// error says so, and where its arguments are no JSON, the error is that of reading
/// them.
pub proof fn law_call_is_held_against_its_tool(
    tools: Seq<ToolDefinitionView>,
    name: Seq<char>,
    read: Result<JsonView, Seq<char>>,
)
    ensures
        match tool_named(tools, name) {
            Some(tool) => {
                &&& exists|i: int|
                    0 <= i < tools.len() && #[trigger] tools[i] == tool && tool.name == name
                        && forall|j: int| 0 <= j < i ==> (#[trigger] tools[j]).name != name
                &&& match read {
                    Ok(arguments) => arguments_for_call(Some(tool), name, read) == arguments_for(
                        tool,
                        arguments,
                    ),
                    Err(message) => arguments_for_call(Some(tool), name, read) == Err::<
                        JsonView,
                        ErrorView,
                    >(ErrorView::Serialization(message)),
                }
            },
            None => {
                &&& forall|i: int| 0 <= i < tools.len() ==> (#[trigger] tools[i]).name != name
                &&& arguments_for_call(None, name, read) matches Err(
                    ErrorView::Tool { tool, message },
                ) && tool == name && contains(message, name)
            },
        },
{
    lemma_tool_named(tools, name);
    lemma_contains_part("Tool \""@, name, "\" not found"@);
}

proof fn lemma_tool_named(tools: Seq<ToolDefinitionView>, name: Seq<char>)
    ensures
        match tool_named(tools, name) {
            Some(tool) => exists|i: int|
                0 <= i < tools.len() && #[trigger] tools[i] == tool && tool.name == name
                    && forall|j: int| 0 <= j < i ==> (#[trigger] tools[j]).name != name,
            None => forall|i: int| 0 <= i < tools.len() ==> (#[trigger] tools[i]).name != name,
        },
    decreases tools.len(),
{
    if tools.len() > 0 {
        let rest = tools.skip(1);
        lemma_tool_named(rest, name);
        if tools[0].name != name {
            assert(forall|i: int| 0 < i < tools.len() ==> #[trigger] tools[i] == rest[i - 1]);
            match tool_named(rest, name) {
                Some(tool) => {
                    let i = choose|i: int|
                        0 <= i < rest.len() && #[trigger] rest[i] == tool && tool.name == name
                            && forall|j: int| 0 <= j < i ==> (#[trigger] rest[j]).name != name;
                    assert(tools[i + 1] == tool);
                },
                None => {},
            }
        }
    }
}

// ---------------------------------------------------------------------------
// Coercion
// ---------------------------------------------------------------------------

/// What stands for a value of another type: nothing is zero, false and the empty text;
/// true and false are one and zero, and are told by their names; zero and one are false
/// and true; and what stands for nothing is nothing. Lists and objects stand for
/// nothing else, and neither does any value for a list or an object.
pub proof fn law_primitives_stand_for_each_other(value: JsonView, name: Seq<char>, b: bool)
    ensures
        as_type(JsonView::Null, "number"@) == JsonView::Number(JsonNumberView::Unsigned(0)),
        as_type(JsonView::Null, "integer"@) == JsonView::Number(JsonNumberView::Unsigned(0)),
        as_type(JsonView::Null, "boolean"@) == JsonView::Bool(false),
        as_type(JsonView::Null, "string"@) == JsonView::Text(Seq::empty()),
        as_type(JsonView::Bool(b), "number"@) == JsonView::Number(
            JsonNumberView::Unsigned(
                if b {
                    1
                } else {
                    0
                },
            ),
        ),
        as_type(JsonView::Bool(b), "integer"@) == as_type(JsonView::Bool(b), "number"@),
        as_type(as_type(JsonView::Bool(b), "number"@), "boolean"@) == JsonView::Bool(b),
        as_type(as_type(JsonView::Bool(b), "string"@), "boolean"@) == JsonView::Bool(b),
        as_type(JsonView::Text("true"@), "boolean"@) == JsonView::Bool(true),
        as_type(JsonView::Text("false"@), "boolean"@) == JsonView::Bool(false),
        as_type(JsonView::Bool(false), "null"@) == JsonView::Null,
        as_type(JsonView::Bool(true), "null"@) == JsonView::Bool(true),
        as_type(JsonView::Text(Seq::empty()), "null"@) == JsonView::Null,
        as_type(JsonView::Number(JsonNumberView::Unsigned(0)), "null"@) == JsonView::Null,
        value is Array || value is Object ==> as_type(value, name) == value,
        name == "array"@ || name == "object"@ ==> as_type(value, name) == value,
{
    lemma_kind_names();
    reveal_strlit("true");
    reveal_strlit("false");
    assert("true"@[0] == 't' && "false"@[0] == 'f');
    assert(as_type(JsonView::Text(Seq::empty()), "null"@) == JsonView::Null);
}

/// What is of a type already stays as it is, and so does what stands for nothing of the
/// type. A number with a fraction stands in a text as it was written.
pub proof fn law_others_stay(text: Seq<char>, n: JsonNumberView, u: u64, b: bool)
    ensures
        as_type(JsonView::Text(text), "string"@) == JsonView::Text(text),
        as_type(JsonView::Bool(b), "boolean"@) == JsonView::Bool(b),
        as_type(JsonView::Null, "null"@) == JsonView::Null,
        as_type(JsonView::Number(n), "number"@) == JsonView::Number(n),
        as_type(JsonView::Number(n), "integer"@) == JsonView::Number(n),
        text != "true"@ && text != "false"@ ==> as_type(JsonView::Text(text), "boolean"@)
            == JsonView::Text(text),
        text.len() > 0 ==> as_type(JsonView::Text(text), "null"@) == JsonView::Text(text),
        u > 1 ==> as_type(JsonView::Number(JsonNumberView::Unsigned(u)), "boolean"@)
            == JsonView::Number(JsonNumberView::Unsigned(u)),
        as_type(JsonView::Number(JsonNumberView::Real(text)), "boolean"@) == JsonView::Number(
            JsonNumberView::Real(text),
        ),
        as_type(JsonView::Number(JsonNumberView::Real(text)), "string"@) == JsonView::Text(text),
{
    lemma_kind_names();
}

proof fn lemma_kind_names()
    ensures
        "number"@ != "integer"@,
        "number"@ != "boolean"@,
        "number"@ != "string"@,
        "number"@ != "null"@,
        "number"@ != "array"@,
        "number"@ != "object"@,
        "integer"@ != "boolean"@,
        "integer"@ != "string"@,
        "integer"@ != "null"@,
        "integer"@ != "array"@,
        "integer"@ != "object"@,
        "boolean"@ != "string"@,
        "boolean"@ != "null"@,
        "boolean"@ != "array"@,
        "boolean"@ != "object"@,
        "string"@ != "null"@,
        "string"@ != "array"@,
        "string"@ != "object"@,
        "null"@ != "array"@,
        "null"@ != "object"@,
        "array"@ != "object"@,
{
    reveal_strlit("number");
    reveal_strlit("integer");
    reveal_strlit("boolean");
    reveal_strlit("string");
    reveal_strlit("null");
    reveal_strlit("array");
    reveal_strlit("object");
    assert("number"@[0] == 'n' && "integer"@[0] == 'i' && "boolean"@[0] == 'b');
    assert("string"@[0] == 's' && "null"@[0] == 'n' && "array"@[0] == 'a' && "object"@[0] == 'o');
    assert("number"@.len() == 6 && "null"@.len() == 4);
}

/// A text that is read as a number is that number: a whole one from its digits, and
/// one that was told as text is itself again.
pub proof fn law_numbers_stand_in_texts(n: i64)
    ensures
        as_type(JsonView::Number(whole(n)), "string"@) == JsonView::Text(
            if n < 0 {
                seq!['-'] + decimal((-n) as nat)
            } else {
                decimal(n as nat)
            },
        ),
        as_type(as_type(JsonView::Number(whole(n)), "string"@), "integer"@) == JsonView::Number(
            whole(n),
        ),
{
    lemma_kind_names();
    law_signed_text(n as int);
}

/// A value is what comes of another by the first of some types that changes it, or the
/// value itself where none does.
pub open spec fn is_first_fit(value: JsonView, names: Seq<Seq<char>>, result: JsonView) -> bool {
    ||| (result == value && forall|i: int|
        0 <= i < names.len() ==> same_json(as_type(value, #[trigger] names[i]), value))
    ||| exists|i: int|
        0 <= i < names.len() && result == as_type(value, #[trigger] names[i]) && !same_json(
            as_type(value, names[i]),
            value,
        ) && forall|j: int|
            0 <= j < i ==> same_json(as_type(value, #[trigger] names[j]), value)
}

/// Of several types, a value that is of one of them is left as it is. Otherwise it is
/// coerced to the first to which it can be, and left as it is where there is none.
pub proof fn law_first_type_that_fits(value: JsonView, names: Seq<Seq<char>>)
    ensures
        names.len() > 1 && is_of_types(value, names) ==> as_one_of(value, names) == value,
        !(names.len() > 1 && is_of_types(value, names)) ==> is_first_fit(
            value,
            names,
            as_one_of(value, names),
        ),
{
    lemma_first_type(value, names);
}

proof fn lemma_first_type(value: JsonView, names: Seq<Seq<char>>)
    ensures
        is_first_fit(value, names, as_first_type(value, names)),
    decreases names.len(),
{
    if names.len() > 0 {
        if same_json(as_type(value, names[0]), value) {
            let rest = names.skip(1);
            lemma_first_type(value, rest);
            assert(forall|j: int| 0 < j < names.len() ==> #[trigger] names[j] == rest[j - 1]);
            if !(forall|i: int|
                0 <= i < rest.len() ==> same_json(as_type(value, #[trigger] rest[i]), value)) {
                let i = choose|i: int|
                    0 <= i < rest.len() && as_first_type(value, rest) == as_type(
                        value,
                        #[trigger] rest[i],
                    ) && !same_json(as_type(value, rest[i]), value) && forall|j: int|
                        0 <= j < i ==> same_json(as_type(value, #[trigger] rest[j]), value);
                assert(names[i + 1] == rest[i]);
            }
        } else {
            assert(as_first_type(value, names) == as_type(value, names[0]));
        }
    }
}

proof fn lemma_large_value(value: JsonView, names: Seq<Seq<char>>)
    requires
        value is Array || value is Object,
    ensures
        as_one_of(value, names) == value,
{
    law_first_type_that_fits(value, names);
    if as_one_of(value, names) != value {
        let i = choose|i: int|
            0 <= i < names.len() && as_one_of(value, names) == as_type(value, #[trigger] names[i])
                && !same_json(as_type(value, names[i]), value) && forall|j: int|
                0 <= j < i ==> same_json(as_type(value, #[trigger] names[j]), value);
        law_primitives_stand_for_each_other(value, names[i], true);
    }
}

/// A schema names no other schemas that a value is coerced by as a whole.
pub open spec fn is_plain(schema: JsonView) -> bool {
    &&& !(field(schema, "allOf"@) matches Some(JsonView::Array(_)))
    &&& !(field(schema, "anyOf"@) matches Some(JsonView::Array(_)))
    &&& !(field(schema, "oneOf"@) matches Some(JsonView::Array(_)))
}

/// The items of a list are coerced one by one, where the schema is one of lists: each
/// by the schema at its place, or all by one. There are as many of them as before, and
/// those that no schema is for are left as they are.
pub proof fn law_items_are_coerced(items: Seq<JsonView>, schema: JsonView)
    requires
        is_plain(schema),
    ensures
        coerced(JsonView::Array(items), schema) matches JsonView::Array(out) && out.len()
            == items.len() && forall|i: int|
            0 <= i < items.len() ==> #[trigger] out[i] == if !types_of(schema).contains(
                "array"@,
            ) {
                items[i]
            } else {
                match field(schema, "items"@) {
                    Some(JsonView::Array(schemas)) => if i < schemas.len() {
                        coerced(items[i], schemas[i])
                    } else {
                        items[i]
                    },
                    Some(JsonView::Object(members)) => coerced(
                        items[i],
                        JsonView::Object(members),
                    ),
                    _ => items[i],
                }
            },
{
    lemma_large_value(JsonView::Array(items), types_of(schema));
    match field(schema, "items"@) {
        Some(JsonView::Array(schemas)) => lemma_coerced_pairwise(items, schemas),
        Some(JsonView::Object(members)) => lemma_coerced_each(items, JsonView::Object(members)),
        _ => {},
    }
}

proof fn lemma_coerced_pairwise(items: Seq<JsonView>, schemas: Seq<JsonView>)
    ensures
        coerced_pairwise(items, schemas).len() == items.len(),
        forall|i: int|
            0 <= i < items.len() ==> #[trigger] coerced_pairwise(items, schemas)[i] == if i
                < schemas.len() {
                coerced(items[i], schemas[i])
            } else {
                items[i]
            },
    decreases schemas.len(),
{
    if schemas.len() > 0 {
        let front = schemas.drop_last();
        let n = schemas.len() - 1;
        lemma_coerced_pairwise(items, front);
        let before = coerced_pairwise(items, front);
        let out = coerced_pairwise(items, schemas);
        assert forall|i: int| 0 <= i < items.len() implies #[trigger] out[i] == if i
            < schemas.len() {
            coerced(items[i], schemas[i])
        } else {
            items[i]
        } by {
            if i != n {
                assert(out[i] == before[i]);
                if i < n {
                    assert(front[i] == schemas[i]);
                }
            }
        }
    }
}

proof fn lemma_coerced_each(items: Seq<JsonView>, schema: JsonView)
    ensures
        coerced_each(items, schema).len() == items.len(),
        forall|i: int|
            0 <= i < items.len() ==> #[trigger] coerced_each(items, schema)[i] == coerced(
                items[i],
                schema,
            ),
    decreases items.len(),
{
    if items.len() > 0 {
        let front = items.drop_last();
        lemma_coerced_each(front, schema);
        let before = coerced_each(front, schema);
        let out = coerced_each(items, schema);
        assert forall|i: int| 0 <= i < items.len() implies #[trigger] out[i] == coerced(
            items[i],
            schema,
        ) by {
            if i < front.len() {
                assert(out[i] == before[i]);
                assert(front[i] == items[i]);
            }
        }
    }
}

/// Members stand in the order of their names, and no two have the same.
pub open spec fn is_sorted(members: Members) -> bool {
    forall|i: int, j: int|
        0 <= i < j < members.len() ==> text_before(
            (#[trigger] members[i]).0,
            (#[trigger] members[j]).0,
        )
}

/// No two members have the same name.
pub open spec fn is_unique(members: Members) -> bool {
    forall|i: int, j: int|
        0 <= i < j < members.len() ==> (#[trigger] members[i]).0 != (#[trigger] members[j]).0
}

proof fn lemma_set_in_place(members: Members, i: int, value: JsonView)
    requires
        is_sorted(members),
        0 <= i < members.len(),
    ensures
        with_member(members, members[i].0, value) == members.update(i, (members[i].0, value)),
    decreases i,
{
    let name = members[i].0;
    let all = with_member(members, name, value);
    if i == 0 {
        assert(all =~= members.update(0, (name, value)));
    } else {
        let rest = members.skip(1);
        assert(text_before(members[0].0, name));
        law_text_order(members[0].0, name);
        law_text_order(name, name);
        assert(rest[i - 1] == members[i]);
        assert forall|a: int, b: int| 0 <= a < b < rest.len() implies text_before(
            (#[trigger] rest[a]).0,
            (#[trigger] rest[b]).0,
        ) by {
            assert(rest[a] == members[a + 1] && rest[b] == members[b + 1]);
        }
        lemma_set_in_place(rest, i - 1, value);
        assert(all =~= members.update(i, (name, value)));
    }
}

/// Each member that has a property is coerced by it.
spec fn is_coerced_by(out: Members, members: Members, properties: Members) -> bool {
    &&& out.len() == members.len()
    &&& forall|i: int|
        0 <= i < members.len() ==> (#[trigger] out[i]).0 == members[i].0 && out[i].1 == match lookup(
            properties,
            members[i].0,
        ) {
            Some(schema) => coerced(members[i].1, schema),
            None => members[i].1,
        }
}

proof fn lemma_lookup_last(properties: Members, name: Seq<char>)
    requires
        properties.len() > 0,
        is_unique(properties),
    ensures
        lookup(properties, name) == if properties.last().0 == name {
            Some(properties.last().1)
        } else {
            lookup(properties.drop_last(), name)
        },
{
    let front = properties.drop_last();
    let n = properties.len() - 1;
    law_lookup(properties, name);
    law_lookup(front, name);
    assert(forall|i: int| 0 <= i < n ==> #[trigger] front[i] == properties[i]);
    if let Some(value) = lookup(properties, name) {
        let i = choose|i: int| #[trigger]
            is_first_named(properties, name, i) && value == properties[i].1;
        if i < n {
            assert(properties[i].0 != properties[n].0);
            assert(front[i].0 == name);
            assert(lookup(front, name) is Some);
            let k = choose|k: int| #[trigger]
                is_first_named(front, name, k) && lookup(front, name)->0 == front[k].1;
            assert(properties[k].0 == name);
            if i < k {
                assert(front[i].0 != name);
            } else if k < i {
                assert(properties[k].0 != name);
            }
        } else {
            if lookup(front, name) is Some {
                let k = choose|k: int| #[trigger]
                    is_first_named(front, name, k) && lookup(front, name)->0 == front[k].1;
                assert(properties[k].0 == name);
            }
        }
    } else {
        assert(properties[n].0 != name);
        if lookup(front, name) is Some {
            let k = choose|k: int| #[trigger]
                is_first_named(front, name, k) && lookup(front, name)->0 == front[k].1;
            assert(properties[k].0 == name);
        }
    }
}

proof fn lemma_coerced_properties(members: Members, properties: Members)
    requires
        is_sorted(members),
        is_unique(properties),
    ensures
        is_coerced_by(coerced_properties(members, properties), members, properties),
    decreases properties.len(),
{
    let out = coerced_properties(members, properties);
    if properties.len() == 0 {
        assert(forall|name: Seq<char>| lookup(properties, name) is None);
    } else {
        let front = properties.drop_last();
        assert(forall|i: int| 0 <= i < front.len() ==> #[trigger] front[i] == properties[i]);
        assert(is_unique(front)) by {
            assert forall|i: int, j: int| 0 <= i < j < front.len() implies (#[trigger] front[i]).0
                != (#[trigger] front[j]).0 by {
                assert(properties[i].0 != properties[j].0);
            }
        }
        lemma_coerced_properties(members, front);
        let before = coerced_properties(members, front);
        let name = properties.last().0;
        let schema = properties.last().1;
        assert(is_sorted(before)) by {
            assert forall|i: int, j: int| 0 <= i < j < before.len() implies text_before(
                (#[trigger] before[i]).0,
                (#[trigger] before[j]).0,
            ) by {
                assert(text_before(members[i].0, members[j].0));
            }
        }
        law_lookup(before, name);
        if let Some(value) = lookup(before, name) {
            let k = choose|k: int| #[trigger] is_first_named(before, name, k) && value == before[k].1;
            lemma_set_in_place(before, k, coerced(value, schema));
            assert forall|i: int| 0 <= i < members.len() implies (#[trigger] out[i]).0
                == members[i].0 && out[i].1 == match lookup(properties, members[i].0) {
                Some(own) => coerced(members[i].1, own),
                None => members[i].1,
            } by {
                lemma_lookup_last(properties, members[i].0);
                assert(before[i].0 == members[i].0);
                if i == k {
                    law_lookup(front, name);
                    assert(before[k].0 == name);
                    if lookup(front, name) is Some {
                        let a = choose|a: int| #[trigger]
                            is_first_named(front, name, a) && lookup(front, name)->0 == front[a].1;
                        assert(properties[a].0 != properties[properties.len() - 1].0);
                    }
                } else {
                    assert(out[i] == before[i]);
                    if members[i].0 == name {
                        if i < k {
                            assert(text_before(before[i].0, before[k].0));
                        } else {
                            assert(text_before(before[k].0, before[i].0));
                        }
                        law_text_order(name, name);
                    }
                }
            }
        } else {
            assert forall|i: int| 0 <= i < members.len() implies (#[trigger] out[i]).0
                == members[i].0 && out[i].1 == match lookup(properties, members[i].0) {
                Some(own) => coerced(members[i].1, own),
                None => members[i].1,
            } by {
                lemma_lookup_last(properties, members[i].0);
                assert(before[i].0 != name);
            }
        }
    }
}

proof fn lemma_coerced_others(members: Members, properties: Members, schema: JsonView)
    ensures
        coerced_others(members, properties, schema).len() == members.len(),
        forall|i: int|
            0 <= i < members.len() ==> #[trigger] coerced_others(members, properties, schema)[i]
                == if lookup(properties, members[i].0) is Some {
                members[i]
            } else {
                (members[i].0, coerced(members[i].1, schema))
            },
    decreases members.len(),
{
    if members.len() > 0 {
        let front = members.drop_last();
        lemma_coerced_others(front, properties, schema);
        let before = coerced_others(front, properties, schema);
        let out = coerced_others(members, properties, schema);
        assert forall|i: int| 0 <= i < members.len() implies #[trigger] out[i] == if lookup(
            properties,
            members[i].0,
        ) is Some {
            members[i]
        } else {
            (members[i].0, coerced(members[i].1, schema))
        } by {
            if i < front.len() {
                assert(out[i] == before[i]);
                assert(front[i] == members[i]);
            }
        }
    }
}

/// The members of an object are coerced one by one, where the schema is one of objects:
/// each by the schema that the properties have under its name, and the others by that
/// for additional ones, where there is one. Names and order stay as they are.
pub proof fn law_members_are_coerced(members: Members, schema: JsonView)
    requires
        is_plain(schema),
        is_sorted(members),
        field(schema, "properties"@) matches Some(JsonView::Object(properties)) ==> is_unique(
            properties,
        ),
    ensures
        coerced(JsonView::Object(members), schema) matches JsonView::Object(out) && out.len()
            == members.len() && forall|i: int|
            0 <= i < members.len() ==> (#[trigger] out[i]).0 == members[i].0 && out[i].1
                == if !types_of(schema).contains("object"@) {
                members[i].1
            } else {
                match property_for(schema, members[i].0) {
                    Some(own) => coerced(members[i].1, own),
                    None => members[i].1,
                }
            },
{
    lemma_large_value(JsonView::Object(members), types_of(schema));
    let properties = match field(schema, "properties"@) {
        Some(JsonView::Object(properties)) => properties,
        _ => seq![],
    };
    lemma_coerced_properties(members, properties);
    let named = coerced_properties(members, properties);
    if let Some(JsonView::Object(entries)) = field(schema, "additionalProperties"@) {
        lemma_coerced_others(named, properties, JsonView::Object(entries));
        let out = coerced_others(named, properties, JsonView::Object(entries));
        assert forall|i: int| 0 <= i < members.len() implies (#[trigger] out[i]).0 == members[i].0
            && out[i].1 == match property_for(schema, members[i].0) {
            Some(own) => coerced(members[i].1, own),
            None => members[i].1,
        } by {
            assert(named[i].0 == members[i].0);
        }
    } else {
        assert forall|i: int| 0 <= i < members.len() implies (#[trigger] named[i]).0
            == members[i].0 && named[i].1 == match property_for(schema, members[i].0) {
            Some(own) => coerced(members[i].1, own),
            None => members[i].1,
        } by {}
    }
}

/// The schema for the member with a name: that among the properties, or else that for
/// additional ones.
pub open spec fn property_for(schema: JsonView, name: Seq<char>) -> Option<JsonView> {
    let own = match field(schema, "properties"@) {
        Some(JsonView::Object(properties)) => lookup(properties, name),
        _ => None,
    };
    match (own, field(schema, "additionalProperties"@)) {
        (Some(own), _) => Some(own),
        (None, Some(JsonView::Object(entries))) => Some(JsonView::Object(entries)),
        _ => None,
    }
}

/// A value is what comes of another by the first of some schemas that accepts what
/// comes of it, or the value itself where none does.
pub open spec fn is_first_accepted(
    value: JsonView,
    schemas: Seq<JsonView>,
    result: JsonView,
) -> bool {
    ||| (result == value && forall|i: int|
        0 <= i < schemas.len() ==> !accepts(#[trigger] schemas[i], coerced(value, schemas[i])))
    ||| exists|i: int|
        0 <= i < schemas.len() && result == coerced(value, #[trigger] schemas[i]) && accepts(
            schemas[i],
            coerced(value, schemas[i]),
        ) && forall|j: int|
            0 <= j < i ==> !accepts(#[trigger] schemas[j], coerced(value, schemas[j]))
}

/// Of several schemas of which a value has to meet one, it is coerced by the first that
/// accepts what comes of it, and left as it is where there is none.
pub proof fn law_union_takes_the_first(value: JsonView, schemas: Seq<JsonView>)
    ensures
        is_first_accepted(value, schemas, coerced_by_union(value, schemas)),
    decreases schemas.len(),
{
    if schemas.len() > 0 {
        let rest = schemas.skip(1);
        law_union_takes_the_first(value, rest);
        assert(forall|j: int| 0 < j < schemas.len() ==> #[trigger] schemas[j] == rest[j - 1]);
        if accepts(schemas[0], coerced(value, schemas[0])) {
            assert(coerced_by_union(value, schemas) == coerced(value, schemas[0]));
        } else if !(forall|i: int|
            0 <= i < rest.len() ==> !accepts(#[trigger] rest[i], coerced(value, rest[i]))) {
            let i = choose|i: int|
                0 <= i < rest.len() && coerced_by_union(value, rest) == coerced(
                    value,
                    #[trigger] rest[i],
                ) && accepts(rest[i], coerced(value, rest[i])) && forall|j: int|
                    0 <= j < i ==> !accepts(#[trigger] rest[j], coerced(value, rest[j]));
            assert(schemas[i + 1] == rest[i]);
        }
    }
}

/// Where a value has to meet every one of some schemas, it is coerced by each in turn,
/// the first one first.
pub proof fn law_all_take_their_turn(value: JsonView, schemas: Seq<JsonView>)
    requires
        schemas.len() > 0,
    ensures
        coerced_by_all(value, schemas) == coerced_by_all(
            coerced(value, schemas[0]),
            schemas.skip(1),
        ),
        coerced_by_all(value, Seq::empty()) == value,
    decreases schemas.len(),
{
    let front = schemas.drop_last();
    if front.len() > 0 {
        law_all_take_their_turn(value, front);
        assert(schemas.skip(1).drop_last() =~= front.skip(1));
        assert(schemas.skip(1).last() == schemas.last());
        assert(front[0] == schemas[0]);
    } else {
        assert(front =~= seq![]);
        assert(schemas.skip(1) =~= seq![]);
        assert(coerced_by_all(value, front) == value);
        assert(schemas.last() == schemas[0]);
    }
}

} // verus!
