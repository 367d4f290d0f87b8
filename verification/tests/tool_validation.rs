use rpi::error::PiError;
use rpi::json::{Json, JsonNumber};
use rpi::json_stream::parse_json_with_repair;
use rpi::tool_validation::{
    coerce_primitive_by_type, coerce_with_json_schema, number_value, validate_read_arguments,
    validate_tool_arguments, validate_tool_call, validate_value,
};
use rpi::types::{FunctionCall, ToolCall, ToolDefinition};

fn json(text: &str) -> Json {
    parse_json_with_repair(text).unwrap()
}


fn make_tool(schema: Json) -> ToolDefinition {
    ToolDefinition {
        name: "test_tool".to_string(),
        description: "Test tool".to_string(),
        parameters: schema,
    }
}

fn make_tool_call(name: &str, args: &str) -> ToolCall {
    ToolCall {
        id: "call_1".to_string(),
        function: FunctionCall {
            name: name.to_string(),
            arguments: args.to_string(),
        },
    }
}

#[test]
fn validate_tool_call_finds_matching_tool() {
    let tools = vec![make_tool(json(r#"{
        "type": "object",
        "properties": {"name": {"type": "string"}},
        "required": ["name"]
    }"#))];
    let call = make_tool_call("test_tool", r#"{"name": "alice"}"#);
    let result = validate_tool_call(&tools, &call).unwrap();
    assert_eq!(result, json(r#"{"name": "alice"}"#));
}

#[test]
fn validate_tool_call_rejects_unknown_tool() {
    let tools = vec![make_tool(json(r#"{"type": "object"}"#))];
    let call = make_tool_call("nonexistent", r#"{}"#);
    let err = validate_tool_call(&tools, &call).unwrap_err();
    assert!(err.to_text().contains("not found"), "unexpected error: {err:?}");
}

#[test]
fn validate_tool_call_rejects_malformed_arguments_json() {
    let tools = vec![make_tool(json(r#"{"type": "object"}"#))];
    let call = ToolCall {
        id: "call_1".to_string(),
        function: FunctionCall {
            name: "test_tool".to_string(),
            arguments: "not valid json".to_string(),
        },
    };
    let err = validate_tool_call(&tools, &call).unwrap_err();
    assert!(err.to_text().contains("serialization error"), "unexpected error: {err:?}");
}

#[test]
fn valid_object_with_required_fields_passes() {
    let tool = make_tool(json(r#"{
        "type": "object",
        "properties": {
            "name": {"type": "string"},
            "age": {"type": "number"}
        },
        "required": ["name", "age"]
    }"#));
    let args = json(r#"{"name": "alice", "age": 30}"#);
    let result = validate_tool_arguments(&tool, &args).unwrap();
    assert_eq!(result, args);
}

#[test]
fn missing_required_field_fails() {
    let tool = make_tool(json(r#"{
        "type": "object",
        "properties": {
            "name": {"type": "string"},
            "age": {"type": "number"}
        },
        "required": ["name", "age"]
    }"#));
    let args = json(r#"{"age": 30}"#);
    let err = validate_tool_arguments(&tool, &args).unwrap_err();
    let msg = err.to_text();
    assert!(msg.contains("required"), "unexpected error: {msg}");
    assert!(msg.contains("name"), "should mention the missing field: {msg}");
}

#[test]
fn coercion_string_to_number() {
    let tool = make_tool(json(r#"{
        "type": "object",
        "properties": {"value": {"type": "number"}},
        "required": ["value"]
    }"#));
    let args = json(r#"{"value": "42"}"#);
    let result = validate_tool_arguments(&tool, &args).unwrap();
    assert_eq!(result.get("value").unwrap().clone(), json(r#"42"#));
}

#[test]
fn coercion_number_to_string() {
    let tool = make_tool(json(r#"{
        "type": "object",
        "properties": {"value": {"type": "string"}},
        "required": ["value"]
    }"#));
    let args = json(r#"{"value": 42}"#);
    let result = validate_tool_arguments(&tool, &args).unwrap();
    assert_eq!(result.get("value").unwrap().clone(), json(r#""42""#));
}

#[test]
fn coercion_null_to_number() {
    let tool = make_tool(json(r#"{
        "type": "object",
        "properties": {"value": {"type": "number"}},
        "required": ["value"]
    }"#));
    let args = json(r#"{"value": null}"#);
    let result = validate_tool_arguments(&tool, &args).unwrap();
    assert_eq!(result.get("value").unwrap().clone(), json(r#"0"#));
}

#[test]
fn coercion_bool_to_number() {
    let tool = make_tool(json(r#"{
        "type": "object",
        "properties": {"value": {"type": "number"}},
        "required": ["value"]
    }"#));
    assert_eq!(
        validate_tool_arguments(&tool, &json(r#"{"value": true}"#)).unwrap().get("value").unwrap().clone(),
        json(r#"1"#)
    );
    assert_eq!(
        validate_tool_arguments(&tool, &json(r#"{"value": false}"#)).unwrap().get("value").unwrap().clone(),
        json(r#"0"#)
    );
}

#[test]
fn coercion_null_to_string() {
    let tool = make_tool(json(r#"{
        "type": "object",
        "properties": {"value": {"type": "string"}},
        "required": ["value"]
    }"#));
    let result = validate_tool_arguments(&tool, &json(r#"{"value": null}"#)).unwrap();
    assert_eq!(result.get("value").unwrap().clone(), json(r#""""#));
}

#[test]
fn coercion_null_to_boolean() {
    let tool = make_tool(json(r#"{
        "type": "object",
        "properties": {"value": {"type": "boolean"}},
        "required": ["value"]
    }"#));
    let result = validate_tool_arguments(&tool, &json(r#"{"value": null}"#)).unwrap();
    assert_eq!(result.get("value").unwrap().clone(), json(r#"false"#));
}

#[test]
fn coercion_non_numeric_string_to_number_preserves_original() {
    let tool = make_tool(json(r#"{
        "type": "object",
        "properties": {"value": {"type": "number"}},
        "required": ["value"]
    }"#));
    let err = validate_tool_arguments(&tool, &json(r#"{"value": "abc"}"#)).unwrap_err();
    assert!(err.to_text().contains("expected number"), "unexpected error: {err:?}");
}

#[test]
fn union_type_string_or_number_accepts_string() {
    let tool = make_tool(json(r#"{
        "type": "object",
        "properties": {
            "value": {"type": ["string", "number"]}
        },
        "required": ["value"]
    }"#));
    let result = validate_tool_arguments(&tool, &json(r#"{"value": "hello"}"#)).unwrap();
    assert_eq!(result.get("value").unwrap().clone(), json(r#""hello""#));
}

#[test]
fn union_type_string_or_number_accepts_number() {
    let tool = make_tool(json(r#"{
        "type": "object",
        "properties": {
            "value": {"type": ["string", "number"]}
        },
        "required": ["value"]
    }"#));
    let result = validate_tool_arguments(&tool, &json(r#"{"value": 42}"#)).unwrap();
    assert_eq!(result.get("value").unwrap().clone(), json(r#"42"#));
}

#[test]
fn anyof_schema_accepts_matching_branch() {
    let tool = make_tool(json(r#"{
        "type": "object",
        "properties": {
            "value": {
                "anyOf": [
                    {"type": "string"},
                    {"type": "number"}
                ]
            }
        },
        "required": ["value"]
    }"#));
    assert_eq!(
        validate_tool_arguments(&tool, &json(r#"{"value": "hi"}"#)).unwrap().get("value").unwrap().clone(),
        json(r#""hi""#)
    );
    assert_eq!(
        validate_tool_arguments(&tool, &json(r#"{"value": 99}"#)).unwrap().get("value").unwrap().clone(),
        json(r#""99""#)
    );
}

#[test]
fn anyof_schema_rejects_non_matching() {
    let tool = make_tool(json(r#"{
        "type": "object",
        "properties": {
            "value": {
                "anyOf": [
                    {"type": "string"},
                    {"type": "number"}
                ]
            }
        },
        "required": ["value"]
    }"#));
    let err = validate_tool_arguments(&tool, &json(r#"{"value": [1, 2]}"#)).unwrap_err();
    assert!(err.to_text().contains("anyOf"), "unexpected error: {err:?}");
}

#[test]
fn additional_properties_allowed_by_default() {
    let tool = make_tool(json(r#"{
        "type": "object",
        "properties": {"name": {"type": "string"}},
        "required": ["name"]
    }"#));
    let args = json(r#"{"name": "alice", "extra": 42}"#);
    let result = validate_tool_arguments(&tool, &args).unwrap();
    assert_eq!(result.get("name").unwrap().clone(), json(r#""alice""#));
    assert_eq!(result.get("extra").unwrap().clone(), json(r#"42"#));
}

#[test]
fn additional_properties_rejected_when_false() {
    let tool = make_tool(json(r#"{
        "type": "object",
        "properties": {"name": {"type": "string"}},
        "required": ["name"],
        "additionalProperties": false
    }"#));
    let args = json(r#"{"name": "alice", "extra": 42}"#);
    let err = validate_tool_arguments(&tool, &args).unwrap_err();
    let msg = err.to_text();
    assert!(msg.contains("unexpected property"), "unexpected error: {msg}");
    assert!(msg.contains("extra"), "should mention the extra field: {msg}");
}

#[test]
fn nested_object_validation_passes() {
    let tool = make_tool(json(r#"{
        "type": "object",
        "properties": {
            "user": {
                "type": "object",
                "properties": {
                    "name": {"type": "string"},
                    "age": {"type": "number"}
                },
                "required": ["name"]
            }
        },
        "required": ["user"]
    }"#));
    let args = json(r#"{"user": {"name": "bob", "age": 25}}"#);
    let result = validate_tool_arguments(&tool, &args).unwrap();
    assert_eq!(result, args);
}

#[test]
fn nested_object_validation_fails_on_missing_nested_required() {
    let tool = make_tool(json(r#"{
        "type": "object",
        "properties": {
            "user": {
                "type": "object",
                "properties": {
                    "name": {"type": "string"},
                    "age": {"type": "number"}
                },
                "required": ["name"]
            }
        },
        "required": ["user"]
    }"#));
    let args = json(r#"{"user": {"age": 25}}"#);
    let err = validate_tool_arguments(&tool, &args).unwrap_err();
    let msg = err.to_text();
    assert!(msg.contains("required"), "unexpected error: {msg}");
    assert!(msg.contains("user.name"), "should mention nested path: {msg}");
}

#[test]
fn array_type_validates() {
    let tool = make_tool(json(r#"{
        "type": "object",
        "properties": {
            "tags": {
                "type": "array",
                "items": {"type": "string"}
            }
        },
        "required": ["tags"]
    }"#));
    let args = json(r#"{"tags": ["a", "b", "c"]}"#);
    let result = validate_tool_arguments(&tool, &args).unwrap();
    assert_eq!(result, args);
}

#[test]
fn array_type_fails_on_wrong_item_type() {
    let tool = make_tool(json(r#"{
        "type": "object",
        "properties": {
            "tags": {
                "type": "array",
                "items": {"type": "string"}
            }
        },
        "required": ["tags"]
    }"#));
    let args = json(r#"{"tags": [{"nested": true}]}"#);
    let err = validate_tool_arguments(&tool, &args).unwrap_err();
    assert!(err.to_text().contains("expected string"), "unexpected error: {err:?}");
}

#[test]
fn array_type_fails_on_non_array_input() {
    let tool = make_tool(json(r#"{
        "type": "object",
        "properties": {
            "tags": {"type": "array", "items": {"type": "string"}}
        },
        "required": ["tags"]
    }"#));
    let args = json(r#"{"tags": "not an array"}"#);
    let err = validate_tool_arguments(&tool, &args).unwrap_err();
    assert!(err.to_text().contains("expected array"), "unexpected error: {err:?}");
}

#[test]
fn empty_object_validates_with_no_required_fields() {
    let tool = make_tool(json(r#"{
        "type": "object",
        "properties": {
            "optional": {"type": "string"}
        }
    }"#));
    let args = json(r#"{}"#);
    let result = validate_tool_arguments(&tool, &args).unwrap();
    assert_eq!(result, json(r#"{}"#));
}

#[test]
fn empty_object_with_no_properties_schema_passes() {
    let tool = make_tool(json(r#"{"type": "object"}"#));
    let args = json(r#"{}"#);
    let result = validate_tool_arguments(&tool, &args).unwrap();
    assert_eq!(result, json(r#"{}"#));
}

#[test]
fn type_mismatch_object_given_array_fails() {
    let tool = make_tool(json(r#"{
        "type": "object",
        "properties": {"data": {"type": "object"}}
    }"#));
    let args = json(r#"{"data": [1, 2, 3]}"#);
    let err = validate_tool_arguments(&tool, &args).unwrap_err();
    assert!(err.to_text().contains("expected object"), "unexpected error: {err:?}");
}

#[test]
fn type_mismatch_string_given_object_fails() {
    let tool = make_tool(json(r#"{
        "type": "object",
        "properties": {"value": {"type": "string"}}
    }"#));
    let args = json(r#"{"value": {"nested": true}}"#);
    let err = validate_tool_arguments(&tool, &args).unwrap_err();
    assert!(err.to_text().contains("expected string"), "unexpected error: {err:?}");
}

#[test]
fn allof_schema_combines_constraints() {
    let tool = make_tool(json(r#"{
        "type": "object",
        "properties": {
            "value": {
                "allOf": [
                    {"type": "object"},
                    {
                        "type": "object",
                        "properties": {"x": {"type": "number"}},
                        "required": ["x"]
                    }
                ]
            }
        },
        "required": ["value"]
    }"#));
    let args_ok = json(r#"{"value": {"x": 1}}"#);
    assert!(validate_tool_arguments(&tool, &args_ok).is_ok());

    let args_bad = json(r#"{"value": {}}"#);
    let err = validate_tool_arguments(&tool, &args_bad).unwrap_err();
    assert!(err.to_text().contains("required"), "unexpected error: {err:?}");
}

#[test]
fn integer_coercion_from_string() {
    let tool = make_tool(json(r#"{
        "type": "object",
        "properties": {"n": {"type": "integer"}},
        "required": ["n"]
    }"#));
    let result = validate_tool_arguments(&tool, &json(r#"{"n": "42"}"#)).unwrap();
    assert_eq!(result.get("n").unwrap().clone(), json(r#"42"#));
}

#[test]
fn integer_rejects_non_integer_string() {
    let tool = make_tool(json(r#"{
        "type": "object",
        "properties": {"n": {"type": "integer"}},
        "required": ["n"]
    }"#));
    let err = validate_tool_arguments(&tool, &json(r#"{"n": "3.14"}"#)).unwrap_err();
    assert!(err.to_text().contains("expected integer"), "unexpected error: {err:?}");
}

#[test]
fn boolean_coercion_from_string_true_false() {
    let tool = make_tool(json(r#"{
        "type": "object",
        "properties": {"v": {"type": "boolean"}},
        "required": ["v"]
    }"#));
    assert_eq!(
        validate_tool_arguments(&tool, &json(r#"{"v": "true"}"#)).unwrap().get("v").unwrap().clone(),
        json(r#"true"#)
    );
    assert_eq!(
        validate_tool_arguments(&tool, &json(r#"{"v": "false"}"#)).unwrap().get("v").unwrap().clone(),
        json(r#"false"#)
    );
}

#[test]
fn boolean_rejects_arbitrary_string() {
    let tool = make_tool(json(r#"{
        "type": "object",
        "properties": {"v": {"type": "boolean"}},
        "required": ["v"]
    }"#));
    let err = validate_tool_arguments(&tool, &json(r#"{"v": "yes"}"#)).unwrap_err();
    assert!(err.to_text().contains("expected boolean"), "unexpected error: {err:?}");
}

#[test]
fn null_coercion_to_string_gives_empty() {
    let tool = make_tool(json(r#"{
        "type": "object",
        "properties": {"name": {"type": "string"}},
        "required": ["name"]
    }"#));
    let result = validate_tool_arguments(&tool, &json(r#"{"name": null}"#)).unwrap();
    assert_eq!(result.get("name").unwrap().clone(), json(r#""""#));
}

#[test]
fn string_number_coercion_preserves_float() {
    let tool = make_tool(json(r#"{
        "type": "object",
        "properties": {"v": {"type": "number"}},
        "required": ["v"]
    }"#));
    let result = validate_tool_arguments(&tool, &json(r#"{"v": "1.23"}"#)).unwrap();
    assert_eq!(result.get("v").unwrap().clone(), json(r#"1.23"#));
}

#[test]
fn string_number_coercion_rejects_empty_string() {
    let tool = make_tool(json(r#"{
        "type": "object",
        "properties": {"v": {"type": "number"}},
        "required": ["v"]
    }"#));
    let err = validate_tool_arguments(&tool, &json(r#"{"v": ""}"#)).unwrap_err();
    assert!(err.to_text().contains("expected number"), "unexpected error: {err:?}");
}

#[test]
fn additional_properties_are_coerced_when_schema_is_object() {
    let tool = make_tool(json(r#"{
        "type": "object",
        "properties": {"name": {"type": "string"}},
        "additionalProperties": {"type": "number"}
    }"#));
    let args = json(r#"{"name": "alice", "extra": "42"}"#);
    let result = validate_tool_arguments(&tool, &args).unwrap();
    assert_eq!(result.get("name").unwrap().clone(), json(r#""alice""#));
    assert_eq!(result.get("extra").unwrap().clone(), json(r#"42"#));
}

#[test]
fn failure_text_is_exact() {
    let tool = make_tool(json(r#"{"type": "object", "required": ["a", "b"]}"#));
    let err = validate_tool_arguments(&tool, &json(r#"{"c": 1}"#)).unwrap_err();
    match err {
        PiError::Tool { tool, message } => {
            assert_eq!(tool, "test_tool");
            assert_eq!(
                message,
                "Validation failed for tool \"test_tool\":\n  - a: required\n  \
                 - b: required\n\nReceived arguments:\n{\n  \"c\": 1\n}"
            );
        }
        other => panic!("unexpected error: {other:?}"),
    }
}

#[test]
fn numbers_that_are_whole_are_kept_whole() {
    assert_eq!(coerce_primitive_by_type(&json(r#""42""#), "number"), json("42"));
    assert_eq!(coerce_primitive_by_type(&json(r#""-3""#), "integer"), json("-3"));
    assert_eq!(coerce_primitive_by_type(&json(r#""2.0""#), "number"), json("2"));
    assert_eq!(coerce_primitive_by_type(&json("1.5"), "string"), json(r#""1.5""#));
    assert_eq!(coerce_primitive_by_type(&json("-7"), "string"), json(r#""-7""#));
    assert_eq!(coerce_primitive_by_type(&json("1"), "boolean"), json("true"));
    assert_eq!(coerce_primitive_by_type(&json("2"), "boolean"), json("2"));
    assert_eq!(coerce_primitive_by_type(&json(r#""""#), "null"), json("null"));
    assert_eq!(coerce_primitive_by_type(&json("[1]"), "string"), json("[1]"));
    assert_eq!(coerce_primitive_by_type(&json("1"), "colour"), json("1"));
}

#[test]
fn numbers_come_from_what_was_read() {
    assert_eq!(number_value(None), None);
    assert_eq!(number_value(Some(None)), None);
    assert_eq!(
        number_value(Some(Some((2.0f64.to_bits(), "2.0".to_string())))),
        Some(json("2"))
    );
    assert_eq!(
        number_value(Some(Some((0.5f64.to_bits(), "0.5".to_string())))),
        Some(Json::Number(JsonNumber::Real("0.5".to_string())))
    );
    assert_eq!(
        number_value(Some(Some(((-4.0f64).to_bits(), "-4.0".to_string())))),
        Some(json("-4"))
    );
}

#[test]
fn coerced_values_are_coerced_no_further() {
    let schema = json(r#"{"type": "object", "properties": {"a": {"type": "number"}}}"#);
    let once = coerce_with_json_schema(json(r#"{"a": "1", "b": "1"}"#), &schema);
    assert_eq!(once, json(r#"{"a": 1, "b": "1"}"#));
    assert_eq!(coerce_with_json_schema(once.clone(), &schema), once);
}

#[test]
fn empty_schema_accepts_everything() {
    for text in ["1", "null", "[1, {\"a\": 2}]", "{\"a\": []}"] {
        let mut errors = Vec::new();
        validate_value(&json(text), &json("{}"), "root", &mut errors);
        assert!(errors.is_empty());
        assert_eq!(coerce_with_json_schema(json(text), &json("{}")), json(text));
    }
}

#[test]
fn unread_arguments_are_an_error() {
    let tools = vec![make_tool(json("{}"))];
    match validate_read_arguments(&tools, "test_tool", Err("bad".to_string())) {
        Err(PiError::Serialization(message)) => assert_eq!(message, "bad"),
        other => panic!("unexpected outcome: {other:?}"),
    }
    match validate_read_arguments(&tools, "other", Ok(json("1"))) {
        Err(PiError::Tool { message, .. }) => assert_eq!(message, "Tool \"other\" not found"),
        other => panic!("unexpected outcome: {other:?}"),
    }
}
