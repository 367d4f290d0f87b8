//! Tool argument validation helpers.
//!
//! Arguments are held against the JSON schema of a tool. Primitive values are
//! coerced first, where the coercion is unambiguous.

use vstd::prelude::*;

use crate::error::{ErrorView, PiError};
use crate::json::{
    as_real, field, find_member, items_of, json_view, lemma_array_view, lemma_object_view, lookup,
    members_of, parse_json, parse_real, parsed_json, parsed_real, pretty_json, print_pretty_json,
    real_below, real_rank, real_value, same_json, set_member, show_real, shown_real, signed_value,
    to_whole_number, unsigned_of, whole_number, with_member, Json, JsonNumber, JsonNumberView,
    JsonView, Members,
};
use crate::text::{
    char_count, decimal, decimal_text, join, join_text, list_contains, parse_i64, same_text,
    signed_text_value, trim, trimmed,
};
use crate::types::{ToolCall, ToolDefinition, ToolDefinitionView};

verus! {

broadcast use {lemma_array_view, lemma_object_view};

// ---------------------------------------------------------------------------
// Types
// ---------------------------------------------------------------------------

/// The texts among some values.
pub open spec fn texts_of(items: Seq<JsonView>) -> Seq<Seq<char>>
    decreases items.len(),
{
    if items.len() == 0 {
        seq![]
    } else {
        let front = texts_of(items.drop_last());
        match items.last() {
            JsonView::Text(text) => front.push(text),
            _ => front,
        }
    }
}

/// The types that a schema allows; empty where it does not say.
pub open spec fn types_of(schema: JsonView) -> Seq<Seq<char>> {
    match field(schema, "type"@) {
        Some(JsonView::Text(name)) => seq![name],
        Some(JsonView::Array(names)) => texts_of(names),
        _ => seq![],
    }
}

fn schema_types(schema: &Json) -> (r: Vec<String>)
    ensures
        r.deep_view() == types_of(schema.deep_view()),
{
    let mut types: Vec<String> = Vec::new();
    assert(types.deep_view() =~= seq![]);
    match schema.get("type") {
        Some(Json::Text(name)) => {
            types.push(name.clone());
            assert(types.deep_view() =~= seq![name@]);
        },
        Some(Json::Array(names)) => {
            let ghost all = names.deep_view();
            let mut i: usize = 0;
            assert(all.take(0) =~= seq![]);
            while i < names.len()
                invariant
                    all == names.deep_view(),
                    i <= names@.len(),
                    types.deep_view() == texts_of(all.take(i as int)),
                decreases names@.len() - i,
            {
                assert(all.take(i + 1).drop_last() =~= all.take(i as int));
                assert(all.take(i + 1).last() == names@[i as int].deep_view());
                let ghost before = types.deep_view();
                if let Json::Text(name) = &names[i] {
                    types.push(name.clone());
                    assert(types.deep_view() =~= before.push(name@));
                }
                i = i + 1;
            }
            assert(all.take(all.len() as int) =~= all);
        },
        _ => {},
    }
    types
}

/// A value is of a type.
pub open spec fn is_of_type(value: JsonView, name: Seq<char>) -> bool {
    ||| name == "number"@ && value is Number
    ||| name == "integer"@ && (value matches JsonView::Number(n) && !(n is Real))
    ||| name == "boolean"@ && value is Bool
    ||| name == "string"@ && value is Text
    ||| name == "null"@ && value is Null
    ||| name == "array"@ && value is Array
    ||| name == "object"@ && value is Object
}

/// A value is of one of some types.
pub open spec fn is_of_types(value: JsonView, names: Seq<Seq<char>>) -> bool {
    exists|i: int| 0 <= i < names.len() && is_of_type(value, #[trigger] names[i])
}

proof fn lemma_type_names()
    ensures
        "number"@ != "integer"@,
        "number"@ != "boolean"@,
        "number"@ != "string"@,
        "number"@ != "null"@,
        "number"@ != "array"@,
        "number"@ != "object"@,
        "integer"@ != "boolean"@,
        "integer"@ != "string"@,
        "integer"@ != "null"@,
        "integer"@ != "array"@,
        "integer"@ != "object"@,
        "boolean"@ != "string"@,
        "boolean"@ != "null"@,
        "boolean"@ != "array"@,
        "boolean"@ != "object"@,
        "string"@ != "null"@,
        "string"@ != "array"@,
        "string"@ != "object"@,
        "null"@ != "array"@,
        "null"@ != "object"@,
        "array"@ != "object"@,
{
    reveal_strlit("number");
    reveal_strlit("integer");
    reveal_strlit("boolean");
    reveal_strlit("string");
    reveal_strlit("null");
    reveal_strlit("array");
    reveal_strlit("object");
    assert("number"@[0] == 'n' && "integer"@[0] == 'i' && "boolean"@[0] == 'b');
    assert("string"@[0] == 's' && "null"@[0] == 'n' && "array"@[0] == 'a' && "object"@[0] == 'o');
    assert("number"@.len() == 6 && "null"@.len() == 4);
}

fn matches_json_type(value: &Json, name: &str) -> (r: bool)
    ensures
        r == is_of_type(value.deep_view(), name@),
{
    proof {
        lemma_type_names();
    }
    match value {
        Json::Number(JsonNumber::Real(_)) => same_text(name, "number"),
        Json::Number(_) => same_text(name, "number") || same_text(name, "integer"),
        Json::Bool(_) => same_text(name, "boolean"),
        Json::Text(_) => same_text(name, "string"),
        Json::Null => same_text(name, "null"),
        Json::Array(_) => same_text(name, "array"),
        Json::Object(_) => same_text(name, "object"),
    }
}

fn matches_any_type(value: &Json, types: &Vec<String>) -> (r: bool)
    ensures
        r == is_of_types(value.deep_view(), types.deep_view()),
{
    let ghost names = types.deep_view();
    let mut i: usize = 0;
    while i < types.len()
        invariant
            names == types.deep_view(),
            i <= types@.len(),
            forall|j: int| 0 <= j < i ==> !is_of_type(value.deep_view(), #[trigger] names[j]),
        decreases types@.len() - i,
    {
        assert(names[i as int] == types@[i as int]@);
        if matches_json_type(value, &types[i]) {
            return true;
        }
        i = i + 1;
    }
    false
}

// ---------------------------------------------------------------------------
// Coercion of primitive values
// ---------------------------------------------------------------------------

/// The number for a whole number.
pub open spec fn whole(n: i64) -> JsonNumberView {
    if n >= 0 {
        JsonNumberView::Unsigned(n as u64)
    } else {
        JsonNumberView::Negative(n)
    }
}

fn whole_json(n: i64) -> (r: Json)
    ensures
        json_view(r) == JsonView::Number(whole(n)),
{
    if n >= 0 {
        Json::Number(JsonNumber::Unsigned(n as u64))
    } else {
        Json::Number(JsonNumber::Negative(n))
    }
}

/// The number that a text was read as: a whole number where it is one, and none
/// where it was no finite number.
pub open spec fn number_read(read: Option<Option<(u64, Seq<char>)>>) -> Option<JsonNumberView> {
    match read {
        Some(Some((bits, text))) => Some(
            match whole_number(bits) {
                Some(n) => whole(n),
                None => JsonNumberView::Real(text),
            },
        ),
        _ => None,
    }
}

/// The number for what a text was read as.
pub fn number_value(read: Option<Option<(u64, String)>>) -> (r: Option<Json>)
    ensures
        r.deep_view() == match number_read(crate::json::real_result_view(read)) {
            Some(n) => Some(JsonView::Number(n)),
            None => None,
        },
{
    match read {
        Some(Some((bits, text))) => match to_whole_number(bits) {
            Some(n) => Some(whole_json(n)),
            None => Some(Json::Number(JsonNumber::Real(text))),
        },
        _ => None,
    }
}

/// The text of a number.
pub open spec fn number_text(n: JsonNumberView) -> Seq<char> {
    match n {
        JsonNumberView::Unsigned(u) => decimal(u as nat),
        JsonNumberView::Negative(i) => if i < 0 {
            seq!['-'] + decimal((-i) as nat)
        } else {
            decimal(i as nat)
        },
        JsonNumberView::Real(text) => text,
    }
}

fn show_number(n: &JsonNumber) -> (r: String)
    ensures
        r@ == number_text(n.deep_view()),
{
    match n {
        JsonNumber::Unsigned(u) => decimal_text(*u),
        JsonNumber::Negative(i) => {
            if *i >= 0 {
                return decimal_text(*i as u64);
            }
            let size: u64 = if *i == i64::MIN {
                0x8000_0000_0000_0000
            } else {
                (-*i) as u64
            };
            let mut text: String = String::new();
            text.push('-');
            text.push_str(&decimal_text(size));
            assert(text@ =~= seq!['-'] + decimal(size as nat));
            text
        },
        JsonNumber::Real(text) => text.clone(),
    }
}

/// A number is zero.
pub open spec fn is_zero(n: JsonNumberView) -> bool {
    ||| signed_value(n) == Some(0i64)
    ||| (real_value(n) matches Some(bits) && real_rank(bits) == 0)
}

fn number_is_zero(n: &JsonNumber) -> (r: bool)
    ensures
        r == is_zero(n.deep_view()),
{
    if let Some(0) = n.as_i64() {
        return true;
    }
    match as_real(n) {
        Some(bits) => !real_below(bits, 0) && !real_below(0, bits),
        None => false,
    }
}

/// A value as a number.
pub open spec fn as_number(value: JsonView) -> JsonView {
    match value {
        JsonView::Null => JsonView::Number(JsonNumberView::Unsigned(0)),
        JsonView::Text(text) => if trimmed(text).len() == 0 {
            value
        } else {
            match number_read(parsed_real(text)) {
                Some(n) => JsonView::Number(n),
                None => value,
            }
        },
        JsonView::Bool(b) => JsonView::Number(
            JsonNumberView::Unsigned(
                if b {
                    1
                } else {
                    0
                },
            ),
        ),
        _ => value,
    }
}

/// A value as a whole number.
pub open spec fn as_integer(value: JsonView) -> JsonView {
    match value {
        JsonView::Null => JsonView::Number(JsonNumberView::Unsigned(0)),
        JsonView::Text(text) => match signed_text_value(text) {
            Some(n) => if i64::MIN <= n <= i64::MAX {
                JsonView::Number(whole(n as i64))
            } else {
                value
            },
            None => value,
        },
        JsonView::Bool(b) => JsonView::Number(
            JsonNumberView::Unsigned(
                if b {
                    1
                } else {
                    0
                },
            ),
        ),
        _ => value,
    }
}

/// A value as true or false.
pub open spec fn as_boolean(value: JsonView) -> JsonView {
    match value {
        JsonView::Null => JsonView::Bool(false),
        JsonView::Text(text) => if text == "true"@ {
            JsonView::Bool(true)
        } else if text == "false"@ {
            JsonView::Bool(false)
        } else {
            value
        },
        JsonView::Number(n) => if signed_value(n) == Some(1i64) {
            JsonView::Bool(true)
        } else if signed_value(n) == Some(0i64) {
            JsonView::Bool(false)
        } else {
            value
        },
        _ => value,
    }
}

/// A value as a text.
pub open spec fn as_text(value: JsonView) -> JsonView {
    match value {
        JsonView::Null => JsonView::Text(seq![]),
        JsonView::Number(n) => JsonView::Text(number_text(n)),
        JsonView::Bool(b) => JsonView::Text(
            if b {
                "true"@
            } else {
                "false"@
            },
        ),
        _ => value,
    }
}

/// A value as null.
pub open spec fn as_null(value: JsonView) -> JsonView {
    match value {
        JsonView::Text(text) => if text.len() == 0 {
            JsonView::Null
        } else {
            value
        },
        JsonView::Number(n) => if is_zero(n) {
            JsonView::Null
        } else {
            value
        },
        JsonView::Bool(b) => if b {
            value
        } else {
            JsonView::Null
        },
        _ => value,
    }
}

/// A primitive value as one of a type, where it stands for one; otherwise the
/// value as it is.
pub open spec fn as_type(value: JsonView, name: Seq<char>) -> JsonView {
    if name == "number"@ {
        as_number(value)
    } else if name == "integer"@ {
        as_integer(value)
    } else if name == "boolean"@ {
        as_boolean(value)
    } else if name == "string"@ {
        as_text(value)
    } else if name == "null"@ {
        as_null(value)
    } else {
        value
    }
}

/// Coerce a primitive value to a type.
pub fn coerce_primitive_by_type(value: &Json, name: &str) -> (r: Json)
    ensures
        json_view(r) == as_type(value.deep_view(), name@),
{
    if same_text(name, "number") {
        match value {
            Json::Null => Json::Number(JsonNumber::Unsigned(0)),
            Json::Text(text) => {
                if trim(text).as_str().is_empty() {
                    return value.clone();
                }
                match number_value(parse_real(text)) {
                    Some(n) => n,
                    None => value.clone(),
                }
            },
            Json::Bool(b) => Json::Number(
                JsonNumber::Unsigned(
                    if *b {
                        1
                    } else {
                        0
                    },
                ),
            ),
            _ => value.clone(),
        }
    } else if same_text(name, "integer") {
        match value {
            Json::Null => Json::Number(JsonNumber::Unsigned(0)),
            Json::Text(text) => match parse_i64(text) {
                Some(n) => whole_json(n),
                None => value.clone(),
            },
            Json::Bool(b) => Json::Number(
                JsonNumber::Unsigned(
                    if *b {
                        1
                    } else {
                        0
                    },
                ),
            ),
            _ => value.clone(),
        }
    } else if same_text(name, "boolean") {
        match value {
            Json::Null => Json::Bool(false),
            Json::Text(text) => if same_text(text, "true") {
                Json::Bool(true)
            } else if same_text(text, "false") {
                Json::Bool(false)
            } else {
                value.clone()
            },
            Json::Number(n) => match n.as_i64() {
                Some(1) => Json::Bool(true),
                Some(0) => Json::Bool(false),
                _ => value.clone(),
            },
            _ => value.clone(),
        }
    } else if same_text(name, "string") {
        match value {
            Json::Null => {
                let text: String = String::new();
                assert(text@ =~= seq![]);
                Json::Text(text)
            },
            Json::Number(n) => Json::Text(show_number(n)),
            Json::Bool(b) => if *b {
                Json::Text("true".to_owned())
            } else {
                Json::Text("false".to_owned())
            },
            _ => value.clone(),
        }
    } else if same_text(name, "null") {
        match value {
            Json::Text(text) => if text.as_str().is_empty() {
                Json::Null
            } else {
                value.clone()
            },
            Json::Number(n) => if number_is_zero(n) {
                Json::Null
            } else {
                value.clone()
            },
            Json::Bool(b) => if *b {
                value.clone()
            } else {
                Json::Null
            },
            _ => value.clone(),
        }
    } else {
        value.clone()
    }
}

/// A coerced value is of the type, or it is the value as it was; and a value of
/// the type is left as it is.
pub proof fn law_coercion_reaches_type(value: JsonView, name: Seq<char>)
    ensures
        as_type(value, name) == value || is_of_type(as_type(value, name), name),
        is_of_type(value, name) ==> as_type(value, name) == value,
{
    lemma_type_names();
}

/// The first of some types to which a value is coerced; the value itself where
/// there is none.
pub open spec fn as_first_type(value: JsonView, names: Seq<Seq<char>>) -> JsonView
    decreases names.len(),
{
    if names.len() == 0 {
        value
    } else if !same_json(as_type(value, names[0]), value) {
        as_type(value, names[0])
    } else {
        as_first_type(value, names.skip(1))
    }
}

/// A value as one of some types. A value that is of one of several types is left
/// as it is.
pub open spec fn as_one_of(value: JsonView, names: Seq<Seq<char>>) -> JsonView {
    if names.len() > 1 && is_of_types(value, names) {
        value
    } else {
        as_first_type(value, names)
    }
}

fn coerce_to_types(value: Json, types: &Vec<String>) -> (r: Json)
    ensures
        json_view(r) == as_one_of(value.deep_view(), types.deep_view()),
{
    if types.len() > 1 && matches_any_type(&value, types) {
        return value;
    }
    let ghost names = types.deep_view();
    let mut i: usize = 0;
    assert(names.skip(0) =~= names);
    while i < types.len()
        invariant
            names == types.deep_view(),
            i <= types@.len(),
            !(names.len() > 1 && is_of_types(value.deep_view(), names)),
            as_first_type(value.deep_view(), names) == as_first_type(
                value.deep_view(),
                names.skip(i as int),
            ),
        decreases types@.len() - i,
    {
        assert(names.skip(i as int)[0] == types@[i as int]@);
        assert(names.skip(i as int).skip(1) =~= names.skip(i + 1));
        let candidate: Json = coerce_primitive_by_type(&value, &types[i]);
        if !candidate.same(&value) {
            return candidate;
        }
        i = i + 1;
    }
    value
}

// ---------------------------------------------------------------------------
// What a schema holds
// ---------------------------------------------------------------------------

proof fn lemma_lookup_decreases(members: Members, name: Seq<char>)
    ensures
        lookup(members, name) is Some ==> decreases_to!(members => lookup(members, name)->0),
    decreases members.len(),
{
    if members.len() > 0 {
        if members[0].0 == name {
            assert(decreases_to!(members => members[0]));
            assert(decreases_to!(members[0] => members[0].1));
        } else {
            lemma_lookup_decreases(members.skip(1), name);
            assert(decreases_to!(members => members.subrange(1, members.len() as int)));
            assert(members.skip(1) =~= members.subrange(1, members.len() as int));
        }
    }
}

/// A schema is larger than what it holds under a name.
pub proof fn lemma_field_decreases(schema: JsonView, name: Seq<char>)
    ensures
        field(schema, name) is Some ==> decreases_to!(schema => field(schema, name)->0),
        items_of(field(schema, name)) is Some ==> decreases_to!(
            schema => items_of(field(schema, name))->0
        ),
        members_of(field(schema, name)) is Some ==> decreases_to!(
            schema => members_of(field(schema, name))->0
        ),
{
    if let JsonView::Object(members) = schema {
        lemma_lookup_decreases(members, name);
        assert(decreases_to!(schema => schema->Object_0));
        if let Some(found) = lookup(members, name) {
            assert(decreases_to!(members => found));
            if found is Array {
                assert(decreases_to!(found => found->Array_0));
            }
            if found is Object {
                assert(decreases_to!(found => found->Object_0));
            }
        }
    }
}

/// Schemas are larger than each part of them.
pub proof fn lemma_last_decreases(schemas: Seq<JsonView>)
    requires
        schemas.len() > 0,
    ensures
        decreases_to!(schemas => schemas.last()),
        decreases_to!(schemas => schemas.drop_last()),
        decreases_to!(schemas => schemas[0]),
        decreases_to!(schemas => schemas.skip(1)),
{
    assert(decreases_to!(schemas => schemas[schemas.len() - 1]));
    assert(decreases_to!(schemas => schemas[0]));
    assert(decreases_to!(schemas => schemas.subrange(0, schemas.len() - 1)));
    assert(schemas.drop_last() =~= schemas.subrange(0, schemas.len() - 1));
    assert(decreases_to!(schemas => schemas.subrange(1, schemas.len() as int)));
    assert(schemas.skip(1) =~= schemas.subrange(1, schemas.len() as int));
}

/// Properties are larger than each part of them.
pub proof fn lemma_last_member_decreases(members: Members)
    requires
        members.len() > 0,
    ensures
        decreases_to!(members => members.last().1),
        decreases_to!(members => members.drop_last()),
{
    assert(decreases_to!(members => members[members.len() - 1]));
    assert(decreases_to!(members.last() => members.last().1));
    assert(decreases_to!(members => members.subrange(0, members.len() - 1)));
    assert(members.drop_last() =~= members.subrange(0, members.len() - 1));
}

// ---------------------------------------------------------------------------
// Errors
// ---------------------------------------------------------------------------

/// The path of a part of a value. The whole value has no part in the paths of
/// its members.
pub open spec fn member_path(path: Seq<char>, name: Seq<char>) -> Seq<char> {
    if path == "root"@ {
        name
    } else {
        path + "."@ + name
    }
}

/// The path of an item of an array.
pub open spec fn item_path(path: Seq<char>, index: nat) -> Seq<char> {
    path + "."@ + decimal(index)
}

/// The errors on members that are required and missing.
pub open spec fn required_errors(
    members: Members,
    required: Seq<Seq<char>>,
    path: Seq<char>,
) -> Seq<Seq<char>>
    decreases required.len(),
{
    if required.len() == 0 {
        seq![]
    } else {
        let front = required_errors(members, required.drop_last(), path);
        if lookup(members, required.last()) is None {
            front.push(member_path(path, required.last()) + ": required"@)
        } else {
            front
        }
    }
}

/// The errors on members that a schema does not name.
pub open spec fn unexpected_errors(
    members: Members,
    properties: Members,
    path: Seq<char>,
) -> Seq<Seq<char>>
    decreases members.len(),
{
    if members.len() == 0 {
        seq![]
    } else {
        let front = unexpected_errors(members.drop_last(), properties, path);
        if lookup(properties, members.last().0) is None {
            front.push(member_path(path, members.last().0) + ": unexpected property"@)
        } else {
            front
        }
    }
}

/// One error, where something is wrong.
pub open spec fn error_if(wrong: bool, error: Seq<char>) -> Seq<Seq<char>> {
    if wrong {
        seq![error]
    } else {
        seq![]
    }
}

/// The errors on the length of a text or an array.
pub open spec fn length_errors(
    len: nat,
    min: Option<u64>,
    max: Option<u64>,
    path: Seq<char>,
    short: Seq<char>,
    long: Seq<char>,
) -> Seq<Seq<char>> {
    (match min {
        Some(n) => error_if(len < n, path + short + decimal(n as nat)),
        None => seq![],
    }) + match max {
        Some(n) => error_if(len > n, path + long + decimal(n as nat)),
        None => seq![],
    }
}

/// The number of a value, as a double by its bits, where it is one.
pub open spec fn real_of(value: Option<JsonView>) -> Option<u64> {
    match value {
        Some(JsonView::Number(n)) => real_value(n),
        _ => None,
    }
}

/// How the number of a value is shown.
pub open spec fn real_text_of(value: Option<JsonView>) -> Seq<char> {
    match value {
        Some(JsonView::Number(n)) => match shown_real(n) {
            Some(text) => text,
            None => seq![],
        },
        _ => seq![],
    }
}

/// The errors on the size of a number.
pub open spec fn number_errors(
    value: JsonView,
    min: Option<JsonView>,
    max: Option<JsonView>,
    path: Seq<char>,
) -> Seq<Seq<char>> {
    match real_of(Some(value)) {
        None => seq![],
        Some(bits) => (match real_of(min) {
            Some(bound) => error_if(
                real_rank(bits) < real_rank(bound),
                path + ": number below minimum "@ + real_text_of(min),
            ),
            None => seq![],
        }) + match real_of(max) {
            Some(bound) => error_if(
                real_rank(bound) < real_rank(bits),
                path + ": number above maximum "@ + real_text_of(max),
            ),
            None => seq![],
        },
    }
}

/// A value is among some values.
pub open spec fn is_among(value: JsonView, allowed: Seq<JsonView>) -> bool {
    exists|i: int| 0 <= i < allowed.len() && same_json(#[trigger] allowed[i], value)
}

/// The errors of a value under a schema.
pub open spec fn errors_of(value: JsonView, schema: JsonView, path: Seq<char>) -> Seq<Seq<char>>
    decreases schema, 2nat,
{
    proof {
        lemma_field_decreases(schema, "anyOf"@);
        lemma_field_decreases(schema, "oneOf"@);
    }
    let types = types_of(schema);
    let any_of = items_of(field(schema, "anyOf"@));
    let one_of = items_of(field(schema, "oneOf"@));
    if types.len() > 0 && !is_of_types(value, types) {
        seq![path + ": expected "@ + join(types, " or "@)]
    } else if field(schema, "const"@) is Some && !same_json(
        value,
        field(schema, "const"@)->0,
    ) {
        seq![path + ": const mismatch"@]
    } else if items_of(field(schema, "enum"@)) is Some && !is_among(
        value,
        items_of(field(schema, "enum"@))->0,
    ) {
        seq![path + ": value not in enum"@]
    } else if any_of is Some {
        error_if(
            match_count(value, any_of->0, path) == 0,
            path + ": did not match any anyOf schema"@,
        )
    } else if one_of is Some && match_count(value, one_of->0, path) == 0 {
        seq![path + ": did not match any oneOf schema"@]
    } else if one_of is Some && match_count(value, one_of->0, path) > 1 {
        seq![path + ": matched multiple oneOf schemas"@]
    } else {
        content_errors(value, schema, path)
    }
}

/// How many of some schemas a value meets.
pub open spec fn match_count(value: JsonView, schemas: Seq<JsonView>, path: Seq<char>) -> nat
    decreases schemas, 0nat,
{
    if schemas.len() == 0 {
        0
    } else {
        proof {
            lemma_last_decreases(schemas);
        }
        match_count(value, schemas.drop_last(), path) + if errors_of(
            value,
            schemas.last(),
            path,
        ).len() == 0 {
            1nat
        } else {
            0nat
        }
    }
}

/// The errors of a value under each of some schemas.
pub open spec fn all_errors(value: JsonView, schemas: Seq<JsonView>, path: Seq<char>) -> Seq<
    Seq<char>,
>
    decreases schemas, 0nat,
{
    if schemas.len() == 0 {
        seq![]
    } else {
        proof {
            lemma_last_decreases(schemas);
        }
        all_errors(value, schemas.drop_last(), path) + errors_of(value, schemas.last(), path)
    }
}

/// The errors of a value under what a schema says of its content.
pub open spec fn content_errors(value: JsonView, schema: JsonView, path: Seq<char>) -> Seq<
    Seq<char>,
>
    decreases schema, 1nat,
{
    proof {
        lemma_field_decreases(schema, "allOf"@);
    }
    (match items_of(field(schema, "allOf"@)) {
        Some(schemas) => all_errors(value, schemas, path),
        None => seq![],
    }) + match value {
        JsonView::Object(members) => object_errors(members, schema, path),
        JsonView::Array(items) => array_errors(items, schema, path),
        JsonView::Text(text) => length_errors(
            text.len(),
            unsigned_of(field(schema, "minLength"@)),
            unsigned_of(field(schema, "maxLength"@)),
            path,
            ": string shorter than minLength "@,
            ": string longer than maxLength "@,
        ),
        JsonView::Number(n) => number_errors(
            value,
            field(schema, "minimum"@),
            field(schema, "maximum"@),
            path,
        ),
        _ => seq![],
    }
}

/// The errors of an object.
pub open spec fn object_errors(members: Members, schema: JsonView, path: Seq<char>) -> Seq<
    Seq<char>,
>
    decreases schema, 0nat,
{
    proof {
        lemma_field_decreases(schema, "properties"@);
    }
    (match items_of(field(schema, "required"@)) {
        Some(required) => required_errors(members, texts_of(required), path),
        None => seq![],
    }) + match members_of(field(schema, "properties"@)) {
        Some(properties) => property_errors(members, properties, path) + if field(
            schema,
            "additionalProperties"@,
        ) == Some(JsonView::Bool(false)) {
            unexpected_errors(members, properties, path)
        } else {
            seq![]
        },
        None => seq![],
    }
}

/// The errors of an array.
pub open spec fn array_errors(items: Seq<JsonView>, schema: JsonView, path: Seq<char>) -> Seq<
    Seq<char>,
>
    decreases schema, 0nat,
{
    proof {
        lemma_field_decreases(schema, "items"@);
    }
    length_errors(
        items.len(),
        unsigned_of(field(schema, "minItems"@)),
        unsigned_of(field(schema, "maxItems"@)),
        path,
        ": array shorter than minItems "@,
        ": array longer than maxItems "@,
    ) + match field(schema, "items"@) {
        Some(JsonView::Array(schemas)) => pairwise_errors(items, schemas, path),
        Some(JsonView::Object(members)) => each_errors(items, field(schema, "items"@)->0, path),
        _ => seq![],
    }
}

/// The errors of the members that a schema names.
pub open spec fn property_errors(members: Members, properties: Members, path: Seq<char>) -> Seq<
    Seq<char>,
>
    decreases properties, 0nat,
{
    if properties.len() == 0 {
        seq![]
    } else {
        proof {
            lemma_last_member_decreases(properties);
        }
        let front = property_errors(members, properties.drop_last(), path);
        let (name, schema) = properties.last();
        match lookup(members, name) {
            Some(value) => front + errors_of(
                value,
                properties.last().1,
                member_path(path, name),
            ),
            None => front,
        }
    }
}

/// The errors of items, each under the schema at its place.
pub open spec fn pairwise_errors(
    items: Seq<JsonView>,
    schemas: Seq<JsonView>,
    path: Seq<char>,
) -> Seq<Seq<char>>
    decreases schemas, 0nat,
{
    if schemas.len() == 0 {
        seq![]
    } else {
        proof {
            lemma_last_decreases(schemas);
        }
        let front = pairwise_errors(items, schemas.drop_last(), path);
        let index = (schemas.len() - 1) as nat;
        if index < items.len() {
            front + errors_of(items[index as int], schemas.last(), item_path(path, index))
        } else {
            front
        }
    }
}

/// The errors of items, all under one schema.
pub open spec fn each_errors(items: Seq<JsonView>, schema: JsonView, path: Seq<char>) -> Seq<
    Seq<char>,
>
    decreases schema, items.len() + 3,
{
    if items.len() == 0 {
        seq![]
    } else {
        each_errors(items.drop_last(), schema, path) + errors_of(
            items.last(),
            schema,
            item_path(path, (items.len() - 1) as nat),
        )
    }
}

// ---------------------------------------------------------------------------
// Validation
// ---------------------------------------------------------------------------

fn push_error(errors: &mut Vec<String>, path: &str, text: &str, rest: &str)
    ensures
        final(errors).deep_view() == old(errors).deep_view() + seq![path@ + text@ + rest@],
{
    let ghost before = errors.deep_view();
    let mut error: String = path.to_owned();
    error.push_str(text);
    error.push_str(rest);
    errors.push(error);
    assert(errors.deep_view() =~= before + seq![path@ + text@ + rest@]);
}

fn push_plain_error(errors: &mut Vec<String>, path: &str, text: &str)
    ensures
        final(errors).deep_view() == old(errors).deep_view() + seq![path@ + text@],
{
    let ghost before = errors.deep_view();
    let mut error: String = path.to_owned();
    error.push_str(text);
    errors.push(error);
    assert(errors.deep_view() =~= before + seq![path@ + text@]);
}

fn path_of_member(path: &str, name: &str) -> (r: String)
    ensures
        r@ == member_path(path@, name@),
{
    if same_text(path, "root") {
        name.to_owned()
    } else {
        let mut r: String = path.to_owned();
        r.push_str(".");
        r.push_str(name);
        r
    }
}

fn path_of_item(path: &str, index: usize) -> (r: String)
    ensures
        r@ == item_path(path@, index as nat),
{
    let mut r: String = path.to_owned();
    r.push_str(".");
    r.push_str(&decimal_text(index as u64));
    r
}

fn check_required(members: &Vec<(String, Json)>, required: &Vec<Json>, path: &str, errors: &mut Vec<
    String,
>)
    ensures
        final(errors).deep_view() == old(errors).deep_view() + required_errors(
            members.deep_view(),
            texts_of(required.deep_view()),
            path@,
        ),
{
    let ghost before = errors.deep_view();
    let ghost all = required.deep_view();
    let mut i: usize = 0;
    assert(all.take(0) =~= seq![]);
    assert(before + Seq::<Seq<char>>::empty() =~= before);
    while i < required.len()
        invariant
            all == required.deep_view(),
            i <= required@.len(),
            errors.deep_view() == before + required_errors(
                members.deep_view(),
                texts_of(all.take(i as int)),
                path@,
            ),
        decreases required@.len() - i,
    {
        assert(all.take(i + 1).drop_last() =~= all.take(i as int));
        assert(all.take(i + 1).last() == required@[i as int].deep_view());
        let ghost front = texts_of(all.take(i as int));
        let ghost so_far = errors.deep_view();
        if let Json::Text(name) = &required[i] {
            assert(front.push(name@).drop_last() =~= front);
            if find_member(members, name).is_none() {
                let at: String = path_of_member(path, name);
                push_plain_error(errors, &at, ": required");
                assert(errors.deep_view() =~= before + required_errors(
                    members.deep_view(),
                    front.push(name@),
                    path@,
                ));
            }
        }
        i = i + 1;
    }
    assert(all.take(all.len() as int) =~= all);
}

fn check_unexpected(
    members: &Vec<(String, Json)>,
    properties: &Vec<(String, Json)>,
    path: &str,
    errors: &mut Vec<String>,
)
    ensures
        final(errors).deep_view() == old(errors).deep_view() + unexpected_errors(
            members.deep_view(),
            properties.deep_view(),
            path@,
        ),
{
    let ghost before = errors.deep_view();
    let ghost all = members.deep_view();
    let mut i: usize = 0;
    assert(all.take(0) =~= seq![]);
    assert(before + Seq::<Seq<char>>::empty() =~= before);
    while i < members.len()
        invariant
            all == members.deep_view(),
            i <= members@.len(),
            errors.deep_view() == before + unexpected_errors(
                all.take(i as int),
                properties.deep_view(),
                path@,
            ),
        decreases members@.len() - i,
    {
        assert(all.take(i + 1).drop_last() =~= all.take(i as int));
        assert(all.take(i + 1).last() == members@[i as int].deep_view());
        if find_member(properties, &members[i].0).is_none() {
            let at: String = path_of_member(path, &members[i].0);
            push_plain_error(errors, &at, ": unexpected property");
            assert(errors.deep_view() =~= before + unexpected_errors(
                all.take(i + 1),
                properties.deep_view(),
                path@,
            ));
        }
        i = i + 1;
    }
    assert(all.take(all.len() as int) =~= all);
}

fn check_length(
    len: usize,
    min: Option<u64>,
    max: Option<u64>,
    path: &str,
    short: &str,
    long: &str,
    errors: &mut Vec<String>,
)
    ensures
        final(errors).deep_view() == old(errors).deep_view() + length_errors(
            len as nat,
            min,
            max,
            path@,
            short@,
            long@,
        ),
{
    let ghost before = errors.deep_view();
    if let Some(n) = min {
        if (len as u64) < n {
            push_error(errors, path, short, &decimal_text(n));
        }
    }
    if let Some(n) = max {
        if (len as u64) > n {
            push_error(errors, path, long, &decimal_text(n));
        }
    }
    assert(errors.deep_view() =~= before + length_errors(len as nat, min, max, path@, short@, long@));
}

fn optional_u64(value: Option<&Json>) -> (r: Option<u64>)
    ensures
        r == unsigned_of(value.deep_view()),
{
    match value {
        Some(value) => value.as_u64(),
        None => None,
    }
}

fn optional_real(value: Option<&Json>) -> (r: Option<(u64, String)>)
    ensures
        match r {
            Some((bits, text)) => {
                &&& real_of(value.deep_view()) == Some(bits)
                &&& text@ == real_text_of(value.deep_view())
            },
            None => real_of(value.deep_view()) is None,
        },
{
    match value {
        Some(Json::Number(n)) => match (as_real(n), show_real(n)) {
            (Some(bits), Some(text)) => Some((bits, text)),
            _ => None,
        },
        _ => None,
    }
}

fn check_number(
    value: &Json,
    min: Option<&Json>,
    max: Option<&Json>,
    path: &str,
    errors: &mut Vec<String>,
)
    ensures
        final(errors).deep_view() == old(errors).deep_view() + number_errors(
            value.deep_view(),
            min.deep_view(),
            max.deep_view(),
            path@,
        ),
{
    let ghost before = errors.deep_view();
    if let Some((bits, _)) = optional_real(Some(value)) {
        if let Some((bound, text)) = optional_real(min) {
            if real_below(bits, bound) {
                push_error(errors, path, ": number below minimum ", &text);
            }
        }
        if let Some((bound, text)) = optional_real(max) {
            if real_below(bound, bits) {
                push_error(errors, path, ": number above maximum ", &text);
            }
        }
    }
    assert(errors.deep_view() =~= before + number_errors(
        value.deep_view(),
        min.deep_view(),
        max.deep_view(),
        path@,
    ));
}

fn among(value: &Json, allowed: &Vec<Json>) -> (r: bool)
    ensures
        r == is_among(value.deep_view(), allowed.deep_view()),
{
    let ghost all = allowed.deep_view();
    let mut i: usize = 0;
    while i < allowed.len()
        invariant
            all == allowed.deep_view(),
            i <= allowed@.len(),
            forall|j: int| 0 <= j < i ==> !same_json(#[trigger] all[j], value.deep_view()),
        decreases allowed@.len() - i,
    {
        assert(all[i as int] == allowed@[i as int].deep_view());
        if allowed[i].same(value) {
            return true;
        }
        i = i + 1;
    }
    false
}

/// The items that a schema holds under a name.
fn nested_schemas<'a>(schema: &'a Json, name: &str) -> (r: Option<&'a Vec<Json>>)
    ensures
        r.deep_view() == items_of(field(schema.deep_view(), name@)),
        r is Some ==> decreases_to!(*schema => *r->0),
{
    match schema.get(name) {
        Some(found) => {
            match found {
                Json::Array(items) => {
                    assert(decreases_to!(*found => found->Array_0));
                    Some(items)
                },
                _ => None,
            }
        },
        None => None,
    }
}

/// The members that a schema holds under a name.
fn nested_members<'a>(schema: &'a Json, name: &str) -> (r: Option<&'a Vec<(String, Json)>>)
    ensures
        r.deep_view() == members_of(field(schema.deep_view(), name@)),
        r is Some ==> decreases_to!(*schema => *r->0),
{
    match schema.get(name) {
        Some(found) => {
            match found {
                Json::Object(members) => {
                    assert(decreases_to!(*found => found->Object_0));
                    Some(members)
                },
                _ => None,
            }
        },
        None => None,
    }
}

/// Add the errors of a value under a schema to those that are there.
pub fn validate_value(value: &Json, schema: &Json, path: &str, errors: &mut Vec<String>)
    ensures
        final(errors).deep_view() == old(errors).deep_view() + errors_of(
            value.deep_view(),
            schema.deep_view(),
            path@,
        ),
    decreases *schema, 2nat,
{
    let ghost before = errors.deep_view();
    assert(before + Seq::<Seq<char>>::empty() =~= before);
    let types: Vec<String> = schema_types(schema);
    if types.len() > 0 && !matches_any_type(value, &types) {
        push_error(errors, path, ": expected ", &join_text(&types, " or "));
        return ;
    }
    if let Some(expected) = schema.get("const") {
        if !value.same(expected) {
            push_plain_error(errors, path, ": const mismatch");
            return ;
        }
    }
    if let Some(allowed) = nested_schemas(schema, "enum") {
        if !among(value, allowed) {
            push_plain_error(errors, path, ": value not in enum");
            return ;
        }
    }
    if let Some(schemas) = nested_schemas(schema, "anyOf") {
        if count_matches(value, schemas, path) == 0 {
            push_plain_error(errors, path, ": did not match any anyOf schema");
        }
        return ;
    }
    if let Some(schemas) = nested_schemas(schema, "oneOf") {
        let count: usize = count_matches(value, schemas, path);
        if count == 0 {
            push_plain_error(errors, path, ": did not match any oneOf schema");
            return ;
        }
        if count > 1 {
            push_plain_error(errors, path, ": matched multiple oneOf schemas");
            return ;
        }
    }
    validate_content(value, schema, path, errors);
}

fn count_matches(value: &Json, schemas: &Vec<Json>, path: &str) -> (r: usize)
    ensures
        r == match_count(value.deep_view(), schemas.deep_view(), path@),
    decreases *schemas, 0nat,
{
    let ghost all = schemas.deep_view();
    let mut count: usize = 0;
    let mut i: usize = 0;
    assert(all.take(0) =~= seq![]);
    while i < schemas.len()
        invariant
            all == schemas.deep_view(),
            i <= schemas@.len(),
            count <= i,
            count == match_count(value.deep_view(), all.take(i as int), path@),
        decreases schemas@.len() - i,
    {
        assert(all.take(i + 1).drop_last() =~= all.take(i as int));
        assert(all.take(i + 1).last() == schemas@[i as int].deep_view());
        let mut nested: Vec<String> = Vec::new();
        assert(nested.deep_view() =~= seq![]);
        assert(decreases_to!(*schemas => schemas@));
        assert(decreases_to!(schemas@ => schemas@[i as int]));
        validate_value(value, &schemas[i], path, &mut nested);
        assert(nested.deep_view() =~= errors_of(
            value.deep_view(),
            schemas@[i as int].deep_view(),
            path@,
        ));
        if nested.len() == 0 {
            count = count + 1;
        }
        i = i + 1;
    }
    assert(all.take(all.len() as int) =~= all);
    count
}

fn validate_all(value: &Json, schemas: &Vec<Json>, path: &str, errors: &mut Vec<String>)
    ensures
        final(errors).deep_view() == old(errors).deep_view() + all_errors(
            value.deep_view(),
            schemas.deep_view(),
            path@,
        ),
    decreases *schemas, 0nat,
{
    let ghost before = errors.deep_view();
    let ghost all = schemas.deep_view();
    let mut i: usize = 0;
    assert(all.take(0) =~= seq![]);
    assert(before + Seq::<Seq<char>>::empty() =~= before);
    while i < schemas.len()
        invariant
            all == schemas.deep_view(),
            i <= schemas@.len(),
            errors.deep_view() == before + all_errors(
                value.deep_view(),
                all.take(i as int),
                path@,
            ),
        decreases schemas@.len() - i,
    {
        assert(all.take(i + 1).drop_last() =~= all.take(i as int));
        assert(all.take(i + 1).last() == schemas@[i as int].deep_view());
        assert(decreases_to!(*schemas => schemas@));
        assert(decreases_to!(schemas@ => schemas@[i as int]));
        validate_value(value, &schemas[i], path, errors);
        assert(errors.deep_view() =~= before + all_errors(value.deep_view(), all.take(i + 1), path@));
        i = i + 1;
    }
    assert(all.take(all.len() as int) =~= all);
}

fn validate_content(value: &Json, schema: &Json, path: &str, errors: &mut Vec<String>)
    ensures
        final(errors).deep_view() == old(errors).deep_view() + content_errors(
            value.deep_view(),
            schema.deep_view(),
            path@,
        ),
    decreases *schema, 1nat,
{
    let ghost before = errors.deep_view();
    if let Some(schemas) = nested_schemas(schema, "allOf") {
        validate_all(value, schemas, path, errors);
    }
    let ghost combined = match items_of(field(schema.deep_view(), "allOf"@)) {
        Some(schemas) => all_errors(value.deep_view(), schemas, path@),
        None => seq![],
    };
    assert(errors.deep_view() =~= before + combined);
    assert((before + combined) + Seq::<Seq<char>>::empty() =~= before + (combined + Seq::<
        Seq<char>,
    >::empty()));
    match value {
        Json::Object(members) => {
            validate_object(members, schema, path, errors);
            assert(errors.deep_view() =~= before + (combined + object_errors(
                members.deep_view(),
                schema.deep_view(),
                path@,
            )));
        },
        Json::Array(items) => {
            validate_array(items, schema, path, errors);
            assert(errors.deep_view() =~= before + (combined + array_errors(
                items.deep_view(),
                schema.deep_view(),
                path@,
            )));
        },
        Json::Text(text) => {
            let min: Option<u64> = optional_u64(schema.get("minLength"));
            let max: Option<u64> = optional_u64(schema.get("maxLength"));
            check_length(
                char_count(text),
                min,
                max,
                path,
                ": string shorter than minLength ",
                ": string longer than maxLength ",
                errors,
            );
            assert(errors.deep_view() =~= before + (combined + length_errors(
                text@.len(),
                min,
                max,
                path@,
                ": string shorter than minLength "@,
                ": string longer than maxLength "@,
            )));
        },
        Json::Number(_) => {
            let min: Option<&Json> = schema.get("minimum");
            let max: Option<&Json> = schema.get("maximum");
            check_number(value, min, max, path, errors);
            assert(errors.deep_view() =~= before + (combined + number_errors(
                value.deep_view(),
                min.deep_view(),
                max.deep_view(),
                path@,
            )));
        },
        _ => {},
    }
}

fn validate_object(
    members: &Vec<(String, Json)>,
    schema: &Json,
    path: &str,
    errors: &mut Vec<String>,
)
    ensures
        final(errors).deep_view() == old(errors).deep_view() + object_errors(
            members.deep_view(),
            schema.deep_view(),
            path@,
        ),
    decreases *schema, 0nat,
{
    let ghost before = errors.deep_view();
    if let Some(required) = nested_schemas(schema, "required") {
        check_required(members, required, path, errors);
    }
    let ghost missing = match items_of(field(schema.deep_view(), "required"@)) {
        Some(required) => required_errors(members.deep_view(), texts_of(required), path@),
        None => seq![],
    };
    assert(errors.deep_view() =~= before + missing);
    if let Some(properties) = nested_members(schema, "properties") {
        validate_properties(members, properties, path, errors);
        let ghost wrong = property_errors(members.deep_view(), properties.deep_view(), path@);
        assert(errors.deep_view() =~= before + (missing + (wrong + Seq::<Seq<char>>::empty())));
        if let Some(Json::Bool(false)) = schema.get("additionalProperties") {
            check_unexpected(members, properties, path, errors);
            assert(errors.deep_view() =~= before + (missing + (wrong + unexpected_errors(
                members.deep_view(),
                properties.deep_view(),
                path@,
            ))));
        }
    } else {
        assert(errors.deep_view() =~= before + (missing + Seq::<Seq<char>>::empty()));
    }
}

fn validate_array(items: &Vec<Json>, schema: &Json, path: &str, errors: &mut Vec<String>)
    ensures
        final(errors).deep_view() == old(errors).deep_view() + array_errors(
            items.deep_view(),
            schema.deep_view(),
            path@,
        ),
    decreases *schema, 0nat,
{
    let ghost before = errors.deep_view();
    let min: Option<u64> = optional_u64(schema.get("minItems"));
    let max: Option<u64> = optional_u64(schema.get("maxItems"));
    check_length(
        items.len(),
        min,
        max,
        path,
        ": array shorter than minItems ",
        ": array longer than maxItems ",
        errors,
    );
    let ghost length = length_errors(
        items@.len(),
        min,
        max,
        path@,
        ": array shorter than minItems "@,
        ": array longer than maxItems "@,
    );
    assert(errors.deep_view() =~= before + (length + Seq::<Seq<char>>::empty()));
    if let Some(found) = schema.get("items") {
        match found {
            Json::Array(schemas) => {
                assert(decreases_to!(*found => found->Array_0));
                validate_pairwise(items, schemas, path, errors);
                assert(errors.deep_view() =~= before + (length + pairwise_errors(
                    items.deep_view(),
                    schemas.deep_view(),
                    path@,
                )));
            },
            Json::Object(_) => {
                validate_each(items, found, path, errors);
                assert(errors.deep_view() =~= before + (length + each_errors(
                    items.deep_view(),
                    found.deep_view(),
                    path@,
                )));
            },
            _ => {},
        }
    }
}

fn validate_properties(
    members: &Vec<(String, Json)>,
    properties: &Vec<(String, Json)>,
    path: &str,
    errors: &mut Vec<String>,
)
    ensures
        final(errors).deep_view() == old(errors).deep_view() + property_errors(
            members.deep_view(),
            properties.deep_view(),
            path@,
        ),
    decreases *properties, 0nat,
{
    let ghost before = errors.deep_view();
    let ghost all = properties.deep_view();
    let mut i: usize = 0;
    assert(all.take(0) =~= seq![]);
    assert(before + Seq::<Seq<char>>::empty() =~= before);
    while i < properties.len()
        invariant
            all == properties.deep_view(),
            i <= properties@.len(),
            errors.deep_view() == before + property_errors(
                members.deep_view(),
                all.take(i as int),
                path@,
            ),
        decreases properties@.len() - i,
    {
        assert(all.take(i + 1).drop_last() =~= all.take(i as int));
        assert(all.take(i + 1).last() == properties@[i as int].deep_view());
        if let Some(at) = find_member(members, &properties[i].0) {
            let member: String = path_of_member(path, &properties[i].0);
            assert(decreases_to!(*properties => properties@));
            assert(decreases_to!(properties@ => properties@[i as int]));
            assert(decreases_to!(properties@[i as int] => properties@[i as int].1));
            validate_value(&members[at].1, &properties[i].1, &member, errors);
            assert(errors.deep_view() =~= before + property_errors(
                members.deep_view(),
                all.take(i + 1),
                path@,
            ));
        }
        i = i + 1;
    }
    assert(all.take(all.len() as int) =~= all);
}

fn validate_pairwise(items: &Vec<Json>, schemas: &Vec<Json>, path: &str, errors: &mut Vec<String>)
    ensures
        final(errors).deep_view() == old(errors).deep_view() + pairwise_errors(
            items.deep_view(),
            schemas.deep_view(),
            path@,
        ),
    decreases *schemas, 0nat,
{
    let ghost before = errors.deep_view();
    let ghost all = schemas.deep_view();
    let mut i: usize = 0;
    assert(all.take(0) =~= seq![]);
    assert(before + Seq::<Seq<char>>::empty() =~= before);
    while i < schemas.len()
        invariant
            all == schemas.deep_view(),
            i <= schemas@.len(),
            errors.deep_view() == before + pairwise_errors(
                items.deep_view(),
                all.take(i as int),
                path@,
            ),
        decreases schemas@.len() - i,
    {
        assert(all.take(i + 1).drop_last() =~= all.take(i as int));
        assert(all.take(i + 1).last() == schemas@[i as int].deep_view());
        if i < items.len() {
            let item: String = path_of_item(path, i);
            assert(decreases_to!(*schemas => schemas@));
            assert(decreases_to!(schemas@ => schemas@[i as int]));
            validate_value(&items[i], &schemas[i], &item, errors);
            assert(errors.deep_view() =~= before + pairwise_errors(
                items.deep_view(),
                all.take(i + 1),
                path@,
            ));
        }
        i = i + 1;
    }
    assert(all.take(all.len() as int) =~= all);
}

fn validate_each(items: &Vec<Json>, schema: &Json, path: &str, errors: &mut Vec<String>)
    ensures
        final(errors).deep_view() == old(errors).deep_view() + each_errors(
            items.deep_view(),
            schema.deep_view(),
            path@,
        ),
    decreases *schema, 3nat,
{
    let ghost before = errors.deep_view();
    let ghost all = items.deep_view();
    let mut i: usize = 0;
    assert(all.take(0) =~= seq![]);
    assert(before + Seq::<Seq<char>>::empty() =~= before);
    while i < items.len()
        invariant
            all == items.deep_view(),
            i <= items@.len(),
            errors.deep_view() == before + each_errors(
                all.take(i as int),
                schema.deep_view(),
                path@,
            ),
        decreases items@.len() - i,
    {
        assert(all.take(i + 1).drop_last() =~= all.take(i as int));
        assert(all.take(i + 1).last() == items@[i as int].deep_view());
        let item: String = path_of_item(path, i);
        validate_value(&items[i], schema, &item, errors);
        assert(errors.deep_view() =~= before + each_errors(
            all.take(i + 1),
            schema.deep_view(),
            path@,
        ));
        i = i + 1;
    }
    assert(all.take(all.len() as int) =~= all);
}

// ---------------------------------------------------------------------------
// Coercion
// ---------------------------------------------------------------------------

/// A value coerced by a schema.
pub open spec fn coerced(value: JsonView, schema: JsonView) -> JsonView
    decreases schema, 1nat,
{
    proof {
        lemma_field_decreases(schema, "allOf"@);
        lemma_field_decreases(schema, "anyOf"@);
        lemma_field_decreases(schema, "oneOf"@);
    }
    let by_all = match items_of(field(schema, "allOf"@)) {
        Some(schemas) => coerced_by_all(value, schemas),
        None => value,
    };
    let by_any = match items_of(field(schema, "anyOf"@)) {
        Some(schemas) => coerced_by_union(by_all, schemas),
        None => by_all,
    };
    let by_one = match items_of(field(schema, "oneOf"@)) {
        Some(schemas) => coerced_by_union(by_any, schemas),
        None => by_any,
    };
    let types = types_of(schema);
    match as_one_of(by_one, types) {
        JsonView::Object(members) => if types.contains("object"@) {
            JsonView::Object(coerced_members(members, schema))
        } else {
            JsonView::Object(members)
        },
        JsonView::Array(items) => if types.contains("array"@) {
            JsonView::Array(coerced_items(items, schema))
        } else {
            JsonView::Array(items)
        },
        primitive => primitive,
    }
}

/// A value coerced by each of some schemas in turn.
pub open spec fn coerced_by_all(value: JsonView, schemas: Seq<JsonView>) -> JsonView
    decreases schemas, 0nat,
{
    if schemas.len() == 0 {
        value
    } else {
        proof {
            lemma_last_decreases(schemas);
        }
        coerced(coerced_by_all(value, schemas.drop_last()), schemas.last())
    }
}

/// A value coerced by the first of some schemas that it meets once it is coerced
/// by it; the value itself where there is none.
pub open spec fn coerced_by_union(value: JsonView, schemas: Seq<JsonView>) -> JsonView
    decreases schemas, 0nat,
{
    if schemas.len() == 0 {
        value
    } else {
        proof {
            lemma_last_decreases(schemas);
        }
        let candidate = coerced(value, schemas[0]);
        if errors_of(candidate, schemas[0], "root"@).len() == 0 {
            candidate
        } else {
            coerced_by_union(value, schemas.skip(1))
        }
    }
}

/// Members coerced by what a schema says of them.
pub open spec fn coerced_members(members: Members, schema: JsonView) -> Members
    decreases schema, 0nat,
{
    proof {
        lemma_field_decreases(schema, "properties"@);
        lemma_field_decreases(schema, "additionalProperties"@);
    }
    let properties = match members_of(field(schema, "properties"@)) {
        Some(properties) => properties,
        None => seq![],
    };
    let named = match members_of(field(schema, "properties"@)) {
        Some(properties) => coerced_properties(members, properties),
        None => members,
    };
    match field(schema, "additionalProperties"@) {
        Some(JsonView::Object(entries)) => coerced_others(
            named,
            properties,
            field(schema, "additionalProperties"@)->0,
        ),
        _ => named,
    }
}

/// Members of which those that have a property are coerced by it.
pub open spec fn coerced_properties(members: Members, properties: Members) -> Members
    decreases properties, 0nat,
{
    if properties.len() == 0 {
        members
    } else {
        proof {
            lemma_last_member_decreases(properties);
        }
        let front = coerced_properties(members, properties.drop_last());
        match lookup(front, properties.last().0) {
            Some(value) => with_member(
                front,
                properties.last().0,
                coerced(value, properties.last().1),
            ),
            None => front,
        }
    }
}

/// Members of which those that have no property are coerced by a schema.
pub open spec fn coerced_others(
    members: Members,
    properties: Members,
    schema: JsonView,
) -> Members
    decreases schema, members.len() + 2,
{
    if members.len() == 0 {
        seq![]
    } else {
        let front = coerced_others(members.drop_last(), properties, schema);
        let (name, value) = members.last();
        front.push(
            if lookup(properties, name) is Some {
                (name, value)
            } else {
                (name, coerced(value, schema))
            },
        )
    }
}

/// Items coerced by what a schema says of them.
pub open spec fn coerced_items(items: Seq<JsonView>, schema: JsonView) -> Seq<JsonView>
    decreases schema, 0nat,
{
    proof {
        lemma_field_decreases(schema, "items"@);
    }
    match field(schema, "items"@) {
        Some(JsonView::Array(schemas)) => coerced_pairwise(items, schemas),
        Some(JsonView::Object(entries)) => coerced_each(items, field(schema, "items"@)->0),
        _ => items,
    }
}

/// Items coerced, each by the schema at its place.
pub open spec fn coerced_pairwise(items: Seq<JsonView>, schemas: Seq<JsonView>) -> Seq<JsonView>
    decreases schemas, 0nat,
{
    if schemas.len() == 0 {
        items
    } else {
        proof {
            lemma_last_decreases(schemas);
        }
        let front = coerced_pairwise(items, schemas.drop_last());
        let index = schemas.len() - 1;
        if index < items.len() {
            front.update(index, coerced(items[index], schemas.last()))
        } else {
            front
        }
    }
}

/// Items coerced, all by one schema.
pub open spec fn coerced_each(items: Seq<JsonView>, schema: JsonView) -> Seq<JsonView>
    decreases schema, items.len() + 2,
{
    if items.len() == 0 {
        seq![]
    } else {
        coerced_each(items.drop_last(), schema).push(coerced(items.last(), schema))
    }
}

/// Coerce a value by a schema.
pub fn coerce_with_json_schema(value: Json, schema: &Json) -> (r: Json)
    ensures
        json_view(r) == coerced(value.deep_view(), schema.deep_view()),
    decreases *schema, 1nat,
{
    let mut next: Json = value;
    if let Some(schemas) = nested_schemas(schema, "allOf") {
        next = coerce_by_all(next, schemas);
    }
    if let Some(schemas) = nested_schemas(schema, "anyOf") {
        next = coerce_with_union_schema(next, schemas);
    }
    if let Some(schemas) = nested_schemas(schema, "oneOf") {
        next = coerce_with_union_schema(next, schemas);
    }
    let types: Vec<String> = schema_types(schema);
    match coerce_to_types(next, &types) {
        Json::Object(members) => if list_contains(&types, "object") {
            Json::Object(coerce_object_properties(members, schema))
        } else {
            Json::Object(members)
        },
        Json::Array(items) => if list_contains(&types, "array") {
            Json::Array(coerce_array_items(items, schema))
        } else {
            Json::Array(items)
        },
        primitive => primitive,
    }
}

fn coerce_by_all(value: Json, schemas: &Vec<Json>) -> (r: Json)
    ensures
        json_view(r) == coerced_by_all(value.deep_view(), schemas.deep_view()),
    decreases *schemas, 0nat,
{
    let ghost all = schemas.deep_view();
    let ghost start = value.deep_view();
    let mut next: Json = value;
    let mut i: usize = 0;
    assert(all.take(0) =~= seq![]);
    while i < schemas.len()
        invariant
            all == schemas.deep_view(),
            i <= schemas@.len(),
            next.deep_view() == coerced_by_all(start, all.take(i as int)),
        decreases schemas@.len() - i,
    {
        assert(all.take(i + 1).drop_last() =~= all.take(i as int));
        assert(all.take(i + 1).last() == schemas@[i as int].deep_view());
        assert(decreases_to!(*schemas => schemas@));
        assert(decreases_to!(schemas@ => schemas@[i as int]));
        next = coerce_with_json_schema(next, &schemas[i]);
        i = i + 1;
    }
    assert(all.take(all.len() as int) =~= all);
    next
}

fn coerce_with_union_schema(value: Json, schemas: &Vec<Json>) -> (r: Json)
    ensures
        json_view(r) == coerced_by_union(value.deep_view(), schemas.deep_view()),
    decreases *schemas, 0nat,
{
    let ghost all = schemas.deep_view();
    let ghost whole = coerced_by_union(value.deep_view(), all);
    let mut i: usize = 0;
    assert(all.skip(0) =~= all);
    while i < schemas.len()
        invariant
            all == schemas.deep_view(),
            whole == coerced_by_union(value.deep_view(), all),
            i <= schemas@.len(),
            whole == coerced_by_union(value.deep_view(), all.skip(i as int)),
        decreases schemas@.len() - i,
    {
        assert(all.skip(i as int)[0] == schemas@[i as int].deep_view());
        assert(all.skip(i as int).skip(1) =~= all.skip(i + 1));
        assert(decreases_to!(*schemas => schemas@));
        assert(decreases_to!(schemas@ => schemas@[i as int]));
        let candidate: Json = coerce_with_json_schema(value.clone(), &schemas[i]);
        let mut errors: Vec<String> = Vec::new();
        assert(errors.deep_view() =~= seq![]);
        validate_value(&candidate, &schemas[i], "root", &mut errors);
        assert(errors.deep_view() =~= errors_of(
            candidate.deep_view(),
            schemas@[i as int].deep_view(),
            "root"@,
        ));
        if errors.len() == 0 {
            return candidate;
        }
        i = i + 1;
    }
    value
}

fn coerce_object_properties(members: Vec<(String, Json)>, schema: &Json) -> (r: Vec<
    (String, Json),
>)
    ensures
        r.deep_view() == coerced_members(members.deep_view(), schema.deep_view()),
    decreases *schema, 0nat,
{
    let properties: Option<&Vec<(String, Json)>> = nested_members(schema, "properties");
    let named: Vec<(String, Json)> = match properties {
        Some(properties) => coerce_properties(members, properties),
        None => members,
    };
    let additional: Option<&Json> = schema.get("additionalProperties");
    match additional {
        Some(Json::Object(_)) => {
            match properties {
                Some(properties) => coerce_others(named, properties, additional.unwrap()),
                None => {
                    let none: Vec<(String, Json)> = Vec::new();
                    assert(none.deep_view() =~= seq![]);
                    coerce_others(named, &none, additional.unwrap())
                },
            }
        },
        _ => named,
    }
}

fn coerce_properties(
    members: Vec<(String, Json)>,
    properties: &Vec<(String, Json)>,
) -> (r: Vec<(String, Json)>)
    ensures
        r.deep_view() == coerced_properties(members.deep_view(), properties.deep_view()),
    decreases *properties, 0nat,
{
    let ghost all = properties.deep_view();
    let ghost start = members.deep_view();
    let mut next: Vec<(String, Json)> = members;
    let mut i: usize = 0;
    assert(all.take(0) =~= seq![]);
    while i < properties.len()
        invariant
            all == properties.deep_view(),
            i <= properties@.len(),
            next.deep_view() == coerced_properties(start, all.take(i as int)),
        decreases properties@.len() - i,
    {
        assert(all.take(i + 1).drop_last() =~= all.take(i as int));
        assert(all.take(i + 1).last() == properties@[i as int].deep_view());
        if let Some(at) = find_member(&next, &properties[i].0) {
            assert(decreases_to!(*properties => properties@));
            assert(decreases_to!(properties@ => properties@[i as int]));
            assert(decreases_to!(properties@[i as int] => properties@[i as int].1));
            let value: Json = coerce_with_json_schema(next[at].1.clone(), &properties[i].1);
            set_member(&mut next, properties[i].0.clone(), value);
        }
        i = i + 1;
    }
    assert(all.take(all.len() as int) =~= all);
    next
}

fn coerce_others(
    members: Vec<(String, Json)>,
    properties: &Vec<(String, Json)>,
    schema: &Json,
) -> (r: Vec<(String, Json)>)
    ensures
        r.deep_view() == coerced_others(
            members.deep_view(),
            properties.deep_view(),
            schema.deep_view(),
        ),
    decreases *schema, 2nat,
{
    let ghost all = members.deep_view();
    let mut r: Vec<(String, Json)> = Vec::new();
    let mut i: usize = 0;
    assert(all.take(0) =~= seq![]);
    assert(r.deep_view() =~= seq![]);
    while i < members.len()
        invariant
            all == members.deep_view(),
            i <= members@.len(),
            r.deep_view() == coerced_others(
                all.take(i as int),
                properties.deep_view(),
                schema.deep_view(),
            ),
        decreases members@.len() - i,
    {
        assert(all.take(i + 1).drop_last() =~= all.take(i as int));
        assert(all.take(i + 1).last() == members@[i as int].deep_view());
        let ghost before = r.deep_view();
        let name: String = members[i].0.clone();
        let value: Json = if find_member(properties, &name).is_some() {
            members[i].1.clone()
        } else {
            coerce_with_json_schema(members[i].1.clone(), schema)
        };
        let ghost pair = (name@, json_view(value));
        r.push((name, value));
        assert(r.deep_view() =~= before.push(pair));
        i = i + 1;
    }
    assert(all.take(all.len() as int) =~= all);
    r
}

fn coerce_array_items(items: Vec<Json>, schema: &Json) -> (r: Vec<Json>)
    ensures
        r.deep_view() == coerced_items(items.deep_view(), schema.deep_view()),
    decreases *schema, 0nat,
{
    match schema.get("items") {
        Some(found) => match found {
            Json::Array(schemas) => {
                assert(decreases_to!(*found => found->Array_0));
                coerce_pairwise(items, schemas)
            },
            Json::Object(_) => coerce_each(items, found),
            _ => items,
        },
        None => items,
    }
}

fn coerce_pairwise(items: Vec<Json>, schemas: &Vec<Json>) -> (r: Vec<Json>)
    ensures
        r.deep_view() == coerced_pairwise(items.deep_view(), schemas.deep_view()),
    decreases *schemas, 0nat,
{
    let ghost all = schemas.deep_view();
    let ghost start = items.deep_view();
    let mut next: Vec<Json> = items;
    let mut i: usize = 0;
    assert(all.take(0) =~= seq![]);
    while i < schemas.len() && i < next.len()
        invariant
            all == schemas.deep_view(),
            next@.len() == start.len(),
            i <= schemas@.len(),
            i <= next@.len(),
            next.deep_view() == coerced_pairwise(start, all.take(i as int)),
            forall|j: int| i <= j < start.len() ==> (#[trigger] next@[j]).deep_view() == start[j],
        decreases schemas@.len() - i,
    {
        assert(all.take(i + 1).drop_last() =~= all.take(i as int));
        assert(all.take(i + 1).last() == schemas@[i as int].deep_view());
        assert(decreases_to!(*schemas => schemas@));
        assert(decreases_to!(schemas@ => schemas@[i as int]));
        let ghost before = next.deep_view();
        let value: Json = coerce_with_json_schema(next[i].clone(), &schemas[i]);
        let ghost v = json_view(value);
        next.set(i, value);
        assert(next.deep_view() =~= before.update(i as int, v));
        i = i + 1;
    }
    proof {
        lemma_pairwise_stops(start, all, i as int);
        assert(all.take(all.len() as int) =~= all);
    }
    next
}

proof fn lemma_pairwise_stops(items: Seq<JsonView>, schemas: Seq<JsonView>, n: int)
    requires
        0 <= n <= schemas.len(),
        n == schemas.len() || n >= items.len(),
    ensures
        coerced_pairwise(items, schemas) == coerced_pairwise(items, schemas.take(n)),
    decreases schemas.len() - n,
{
    if n < schemas.len() {
        assert(schemas.take(n + 1).drop_last() =~= schemas.take(n));
        lemma_pairwise_stops(items, schemas, n + 1);
    } else {
        assert(schemas.take(n) =~= schemas);
    }
}

fn coerce_each(items: Vec<Json>, schema: &Json) -> (r: Vec<Json>)
    ensures
        r.deep_view() == coerced_each(items.deep_view(), schema.deep_view()),
    decreases *schema, 2nat,
{
    let ghost all = items.deep_view();
    let mut r: Vec<Json> = Vec::new();
    let mut i: usize = 0;
    assert(all.take(0) =~= seq![]);
    assert(r.deep_view() =~= seq![]);
    while i < items.len()
        invariant
            all == items.deep_view(),
            i <= items@.len(),
            r.deep_view() == coerced_each(all.take(i as int), schema.deep_view()),
        decreases items@.len() - i,
    {
        assert(all.take(i + 1).drop_last() =~= all.take(i as int));
        assert(all.take(i + 1).last() == items@[i as int].deep_view());
        let ghost before = r.deep_view();
        let value: Json = coerce_with_json_schema(items[i].clone(), schema);
        let ghost v = json_view(value);
        r.push(value);
        assert(r.deep_view() =~= before.push(v));
        i = i + 1;
    }
    assert(all.take(all.len() as int) =~= all);
    r
}

// ---------------------------------------------------------------------------
// Tool calls
// ---------------------------------------------------------------------------

/// Errors as a list.
pub open spec fn listed_errors(errors: Seq<Seq<char>>) -> Seq<Seq<char>> {
    errors.map_values(|error: Seq<char>| "  - "@ + error)
}

/// The error on arguments that a tool does not take.
pub open spec fn rejection(
    tool: Seq<char>,
    errors: Seq<Seq<char>>,
    arguments: JsonView,
) -> ErrorView {
    ErrorView::Tool {
        tool,
        message: "Validation failed for tool \""@ + tool + "\":\n"@ + join(
            listed_errors(errors),
            "\n"@,
        ) + "\n\nReceived arguments:\n"@ + pretty_json(arguments),
    }
}

/// The arguments that a tool takes in place of those given, or the error.
pub open spec fn arguments_for(tool: ToolDefinitionView, arguments: JsonView) -> Result<
    JsonView,
    ErrorView,
> {
    let value = coerced(arguments, tool.parameters);
    let errors = errors_of(value, tool.parameters, "root"@);
    if errors.len() == 0 {
        Ok(value)
    } else {
        Err(rejection(tool.name, errors, arguments))
    }
}

/// What a validation gives.
pub open spec fn validation_view(r: Result<Json, PiError>) -> Result<JsonView, ErrorView> {
    match r {
        Ok(value) => Ok(json_view(value)),
        Err(e) => Err(e.deep_view()),
    }
}

/// Validate tool arguments against the tool's JSON schema parameters.
///
/// Primitive values are coerced before validation where the coercion is
/// unambiguous.
pub fn validate_tool_arguments(tool: &ToolDefinition, arguments: &Json) -> (r: Result<
    Json,
    PiError,
>)
    ensures
        validation_view(r) == arguments_for(tool.deep_view(), arguments.deep_view()),
        r is Ok ==> errors_of(
            json_view(r->Ok_0),
            tool.parameters.deep_view(),
            "root"@,
        ).len() == 0,
{
    let value: Json = coerce_with_json_schema(arguments.clone(), &tool.parameters);
    let mut errors: Vec<String> = Vec::new();
    assert(errors.deep_view() =~= seq![]);
    validate_value(&value, &tool.parameters, "root", &mut errors);
    let ghost found = errors_of(value.deep_view(), tool.parameters.deep_view(), "root"@);
    assert(errors.deep_view() =~= found);
    if errors.len() == 0 {
        return Ok(value);
    }
    let mut list: Vec<String> = Vec::new();
    let mut i: usize = 0;
    assert(list.deep_view() =~= listed_errors(found).take(0));
    while i < errors.len()
        invariant
            found == errors.deep_view(),
            i <= errors@.len(),
            list.deep_view() == listed_errors(found).take(i as int),
        decreases errors@.len() - i,
    {
        let ghost before = list.deep_view();
        let mut line: String = "  - ".to_owned();
        line.push_str(&errors[i]);
        assert(line@ == listed_errors(found)[i as int]);
        list.push(line);
        assert(list.deep_view() =~= before.push(listed_errors(found)[i as int]));
        i = i + 1;
        assert(list.deep_view() =~= listed_errors(found).take(i as int));
    }
    assert(list.deep_view() =~= listed_errors(found));
    let mut message: String = "Validation failed for tool \"".to_owned();
    message.push_str(&tool.name);
    message.push_str("\":\n");
    message.push_str(&join_text(&list, "\n"));
    message.push_str("\n\nReceived arguments:\n");
    message.push_str(&print_pretty_json(arguments));
    Err(PiError::Tool { tool: tool.name.clone(), message })
}

/// The first of some tools with a name.
pub open spec fn tool_named(tools: Seq<ToolDefinitionView>, name: Seq<char>) -> Option<
    ToolDefinitionView,
>
    decreases tools.len(),
{
    if tools.len() == 0 {
        None
    } else if tools[0].name == name {
        Some(tools[0])
    } else {
        tool_named(tools.skip(1), name)
    }
}

fn find_tool<'a>(tools: &'a Vec<ToolDefinition>, name: &str) -> (r: Option<&'a ToolDefinition>)
    ensures
        r.deep_view() == tool_named(tools.deep_view(), name@),
{
    let ghost all = tools.deep_view();
    let mut i: usize = 0;
    assert(all.skip(0) =~= all);
    while i < tools.len()
        invariant
            all == tools.deep_view(),
            i <= tools@.len(),
            tool_named(all, name@) == tool_named(all.skip(i as int), name@),
        decreases tools@.len() - i,
    {
        assert(all.skip(i as int)[0] == tools@[i as int].deep_view());
        assert(all.skip(i as int).skip(1) =~= all.skip(i + 1));
        if same_text(&tools[i].name, name) {
            return Some(&tools[i]);
        }
        i = i + 1;
    }
    None
}

/// The arguments that a tool takes for a call, given what the text of the call's
/// arguments was read as, or the error.
pub open spec fn arguments_for_call(
    tool: Option<ToolDefinitionView>,
    name: Seq<char>,
    read: Result<JsonView, Seq<char>>,
) -> Result<JsonView, ErrorView> {
    match tool {
        None => Err(
            ErrorView::Tool { tool: name, message: "Tool \""@ + name + "\" not found"@ },
        ),
        Some(tool) => match read {
            Ok(arguments) => arguments_for(tool, arguments),
            Err(message) => Err(ErrorView::Serialization(message)),
        },
    }
}

/// Validate what the text of a call's arguments was read as.
pub fn validate_read_arguments(
    tools: &Vec<ToolDefinition>,
    name: &str,
    read: Result<Json, String>,
) -> (r: Result<Json, PiError>)
    ensures
        validation_view(r) == arguments_for_call(
            tool_named(tools.deep_view(), name@),
            name@,
            crate::json::json_result_view(read),
        ),
{
    match find_tool(tools, name) {
        None => {
            let mut message: String = "Tool \"".to_owned();
            message.push_str(name);
            message.push_str("\" not found");
            Err(PiError::Tool { tool: name.to_owned(), message })
        },
        Some(tool) => match read {
            Ok(arguments) => validate_tool_arguments(tool, &arguments),
            Err(message) => Err(PiError::Serialization(message)),
        },
    }
}

/// Find a tool by name and validate a tool call's JSON arguments.
pub fn validate_tool_call(tools: &Vec<ToolDefinition>, tool_call: &ToolCall) -> (r: Result<
    Json,
    PiError,
>)
    ensures
        validation_view(r) == arguments_for_call(
            tool_named(tools.deep_view(), tool_call.deep_view().name),
            tool_call.deep_view().name,
            parsed_json(tool_call.deep_view().arguments),
        ),
{
    validate_read_arguments(
        tools,
        &tool_call.function.name,
        parse_json(&tool_call.function.arguments),
    )
}

// ---------------------------------------------------------------------------
// Laws
// ---------------------------------------------------------------------------

/// A schema that says nothing accepts every value and leaves it as it is.
pub proof fn law_empty_schema_accepts(value: JsonView, path: Seq<char>)
    ensures
        errors_of(value, JsonView::Object(seq![]), path).len() == 0,
        coerced(value, JsonView::Object(seq![])) == value,
{
    let schema = JsonView::Object(seq![]);
    match value {
        JsonView::Object(members) => {
            assert(object_errors(members, schema, path).len() == 0);
        },
        JsonView::Array(items) => {
            assert(array_errors(items, schema, path).len() == 0);
        },
        _ => {},
    }
    assert(content_errors(value, schema, path).len() == 0);
}

/// Whether a value meets a schema does not depend on the path under which its
/// errors are told.
pub proof fn law_validity_ignores_path(
    value: JsonView,
    schema: JsonView,
    path: Seq<char>,
    other: Seq<char>,
)
    ensures
        (errors_of(value, schema, path).len() == 0) == (errors_of(value, schema, other).len() == 0),
    decreases schema, 2nat,
{
    lemma_field_decreases(schema, "anyOf"@);
    lemma_field_decreases(schema, "oneOf"@);
    if let Some(schemas) = items_of(field(schema, "anyOf"@)) {
        lemma_match_count_ignores_path(value, schemas, path, other);
    }
    if let Some(schemas) = items_of(field(schema, "oneOf"@)) {
        lemma_match_count_ignores_path(value, schemas, path, other);
    }
    lemma_content_ignores_path(value, schema, path, other);
}

proof fn lemma_match_count_ignores_path(
    value: JsonView,
    schemas: Seq<JsonView>,
    path: Seq<char>,
    other: Seq<char>,
)
    ensures
        match_count(value, schemas, path) == match_count(value, schemas, other),
    decreases schemas, 0nat,
{
    if schemas.len() > 0 {
        lemma_last_decreases(schemas);
        lemma_match_count_ignores_path(value, schemas.drop_last(), path, other);
        law_validity_ignores_path(value, schemas.last(), path, other);
    }
}

proof fn lemma_content_ignores_path(
    value: JsonView,
    schema: JsonView,
    path: Seq<char>,
    other: Seq<char>,
)
    ensures
        (content_errors(value, schema, path).len() == 0) == (content_errors(
            value,
            schema,
            other,
        ).len() == 0),
    decreases schema, 1nat,
{
    lemma_field_decreases(schema, "allOf"@);
    if let Some(schemas) = items_of(field(schema, "allOf"@)) {
        lemma_all_ignores_path(value, schemas, path, other);
    }
    match value {
        JsonView::Object(members) => {
            lemma_object_ignores_path(members, schema, path, other);
        },
        JsonView::Array(items) => {
            lemma_array_ignores_path(items, schema, path, other);
        },
        _ => {},
    }
}

proof fn lemma_all_ignores_path(
    value: JsonView,
    schemas: Seq<JsonView>,
    path: Seq<char>,
    other: Seq<char>,
)
    ensures
        (all_errors(value, schemas, path).len() == 0) == (all_errors(
            value,
            schemas,
            other,
        ).len() == 0),
    decreases schemas, 0nat,
{
    if schemas.len() > 0 {
        lemma_last_decreases(schemas);
        lemma_all_ignores_path(value, schemas.drop_last(), path, other);
        law_validity_ignores_path(value, schemas.last(), path, other);
    }
}

proof fn lemma_required_ignores_path(
    members: Members,
    required: Seq<Seq<char>>,
    path: Seq<char>,
    other: Seq<char>,
)
    ensures
        (required_errors(members, required, path).len() == 0) == (required_errors(
            members,
            required,
            other,
        ).len() == 0),
    decreases required.len(),
{
    if required.len() > 0 {
        lemma_required_ignores_path(members, required.drop_last(), path, other);
    }
}

proof fn lemma_unexpected_ignores_path(
    members: Members,
    properties: Members,
    path: Seq<char>,
    other: Seq<char>,
)
    ensures
        (unexpected_errors(members, properties, path).len() == 0) == (unexpected_errors(
            members,
            properties,
            other,
        ).len() == 0),
    decreases members.len(),
{
    if members.len() > 0 {
        lemma_unexpected_ignores_path(members.drop_last(), properties, path, other);
    }
}

proof fn lemma_object_ignores_path(
    members: Members,
    schema: JsonView,
    path: Seq<char>,
    other: Seq<char>,
)
    ensures
        (object_errors(members, schema, path).len() == 0) == (object_errors(
            members,
            schema,
            other,
        ).len() == 0),
    decreases schema, 0nat,
{
    lemma_field_decreases(schema, "properties"@);
    if let Some(required) = items_of(field(schema, "required"@)) {
        lemma_required_ignores_path(members, texts_of(required), path, other);
    }
    if let Some(properties) = members_of(field(schema, "properties"@)) {
        lemma_properties_ignore_path(members, properties, path, other);
        lemma_unexpected_ignores_path(members, properties, path, other);
    }
}

proof fn lemma_properties_ignore_path(
    members: Members,
    properties: Members,
    path: Seq<char>,
    other: Seq<char>,
)
    ensures
        (property_errors(members, properties, path).len() == 0) == (property_errors(
            members,
            properties,
            other,
        ).len() == 0),
    decreases properties, 0nat,
{
    if properties.len() > 0 {
        lemma_last_member_decreases(properties);
        lemma_properties_ignore_path(members, properties.drop_last(), path, other);
        let (name, schema) = properties.last();
        if let Some(value) = lookup(members, name) {
            law_validity_ignores_path(
                value,
                properties.last().1,
                member_path(path, name),
                member_path(other, name),
            );
        }
    }
}

proof fn lemma_array_ignores_path(
    items: Seq<JsonView>,
    schema: JsonView,
    path: Seq<char>,
    other: Seq<char>,
)
    ensures
        (array_errors(items, schema, path).len() == 0) == (array_errors(
            items,
            schema,
            other,
        ).len() == 0),
    decreases schema, 0nat,
{
    lemma_field_decreases(schema, "items"@);
    match field(schema, "items"@) {
        Some(JsonView::Array(schemas)) => {
            lemma_pairwise_ignores_path(items, schemas, path, other);
        },
        Some(JsonView::Object(members)) => {
            lemma_each_ignores_path(items, field(schema, "items"@)->0, path, other);
        },
        _ => {},
    }
}

proof fn lemma_pairwise_ignores_path(
    items: Seq<JsonView>,
    schemas: Seq<JsonView>,
    path: Seq<char>,
    other: Seq<char>,
)
    ensures
        (pairwise_errors(items, schemas, path).len() == 0) == (pairwise_errors(
            items,
            schemas,
            other,
        ).len() == 0),
    decreases schemas, 0nat,
{
    if schemas.len() > 0 {
        lemma_last_decreases(schemas);
        lemma_pairwise_ignores_path(items, schemas.drop_last(), path, other);
        let index = (schemas.len() - 1) as nat;
        if index < items.len() {
            law_validity_ignores_path(
                items[index as int],
                schemas.last(),
                item_path(path, index),
                item_path(other, index),
            );
        }
    }
}

proof fn lemma_each_ignores_path(
    items: Seq<JsonView>,
    schema: JsonView,
    path: Seq<char>,
    other: Seq<char>,
)
    ensures
        (each_errors(items, schema, path).len() == 0) == (each_errors(
            items,
            schema,
            other,
        ).len() == 0),
    decreases schema, items.len() + 3,
{
    if items.len() > 0 {
        lemma_each_ignores_path(items.drop_last(), schema, path, other);
        let index = (items.len() - 1) as nat;
        law_validity_ignores_path(
            items.last(),
            schema,
            item_path(path, index),
            item_path(other, index),
        );
    }
}

} // verus!
