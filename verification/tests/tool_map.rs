//! Encoded names, and tool definitions on the chat wire.

use chat_completions::error::ApiError;
use chat_completions::json::Json;
use chat_completions::tool_map::{
    decode_name, encode_name, translate_tools, ToolKind, ToolReverseMap,
};

/// Reads a JSON text.
fn json(text: &str) -> Json {
    Json::parse(text).expect("valid JSON")
}

/// The member of a function definition.
fn function_member<'a>(tool: &'a Json, name: &str) -> Option<&'a Json> {
    tool.get("function").and_then(|function| function.get(name))
}

/// The text of a member of a function definition.
fn function_text<'a>(tool: &'a Json, name: &str) -> Option<&'a str> {
    function_member(tool, name).and_then(|member| member.as_str())
}

/// The message of a refusal.
fn refusal<T>(result: Result<T, ApiError>) -> String {
    match result {
        Err(ApiError::InvalidRequest { message }) => message,
        Err(ApiError::Stream(_)) => panic!("expected InvalidRequest error"),
        Ok(_) => panic!("expected InvalidRequest error"),
    }
}

#[test]
fn encode_decode_no_namespace() {
    let encoded = encode_name(None, "my_tool");
    assert_eq!(encoded, "my_tool");
    let (ns, name) = decode_name(&encoded);
    assert!(ns.is_none());
    assert_eq!(name, "my_tool");
}

#[test]
fn encode_decode_with_namespace() {
    let encoded = encode_name(Some("myns"), "my_tool");
    assert_eq!(encoded, "myns__NS__my_tool");
    let (ns, name) = decode_name(&encoded);
    assert_eq!(ns.as_deref(), Some("myns"));
    assert_eq!(name, "my_tool");
}

#[test]
fn translate_function_tool() {
    let tools = vec![json(
        r#"{
            "type": "function",
            "name": "calc",
            "description": "A calculator",
            "parameters": { "type": "object", "properties": {} }
        }"#,
    )];
    let mut map = ToolReverseMap::new();
    let out = translate_tools(&tools, &mut map).expect("should succeed");
    assert_eq!(out.len(), 1);
    let fname = function_text(&out[0], "name").unwrap();
    assert_eq!(fname, "calc");
    assert!(matches!(map.get("calc"), Some(ToolKind::Function { namespace: None })));
}

#[test]
fn translate_function_tool_with_namespace() {
    let tools = vec![json(
        r#"{
            "type": "function",
            "name": "search",
            "namespace": "web",
            "description": "Web search",
            "parameters": { "type": "object", "properties": {} }
        }"#,
    )];
    let mut map = ToolReverseMap::new();
    let out = translate_tools(&tools, &mut map).expect("should succeed");
    assert_eq!(out.len(), 1);
    let fname = function_text(&out[0], "name").unwrap();
    assert_eq!(fname, "web__NS__search");
    assert!(matches!(
        map.get("web__NS__search"),
        Some(ToolKind::Function { namespace: Some(ns) }) if ns == "web"
    ));
}

#[test]
fn translate_custom_tool() {
    let tools = vec![json(
        r#"{
            "type": "custom",
            "name": "my_custom",
            "description": "Does something",
            "format": {
                "definition": "{\"schema\": \"v1\"}"
            }
        }"#,
    )];
    let mut map = ToolReverseMap::new();
    let out = translate_tools(&tools, &mut map).expect("should succeed");
    assert_eq!(out.len(), 1);
    let fname = function_text(&out[0], "name").unwrap();
    assert_eq!(fname, "my_custom");
    let desc = function_text(&out[0], "description").unwrap();
    assert!(desc.contains("Does something"));
    assert!(desc.contains("{\"schema\": \"v1\"}"));
    assert!(matches!(map.get("my_custom"), Some(ToolKind::Custom)));
}

#[test]
fn collision_returns_error() {
    let tools = vec![
        json(r#"{ "type": "function", "name": "dup", "parameters": {} }"#),
        json(r#"{ "type": "function", "name": "dup", "parameters": {} }"#),
    ];
    let mut map = ToolReverseMap::new();
    let result = translate_tools(&tools, &mut map);
    assert!(result.is_err());
    if let Err(ApiError::InvalidRequest { message }) = result {
        assert!(message.contains("collision"));
    } else {
        panic!("expected InvalidRequest error");
    }
}

#[test]
fn skip_unsupported_tool_types() {
    let tools = vec![
        json(r#"{ "type": "namespace" }"#),
        json(r#"{ "type": "tool_search" }"#),
        json(r#"{ "type": "image_generation" }"#),
        json(r#"{ "type": "web_search" }"#),
    ];
    let mut map = ToolReverseMap::new();
    let out = translate_tools(&tools, &mut map).expect("should succeed");
    assert!(out.is_empty());
}

#[test]
fn an_empty_namespace_is_none() {
    assert_eq!(encode_name(Some(""), "tool"), "tool");
}

#[test]
fn names_are_cut_at_the_first_separator() {
    assert_eq!(
        decode_name("a__NS__b__NS__c"),
        (Some("a".to_owned()), "b__NS__c".to_owned())
    );
    assert_eq!(decode_name("__NS__b"), (Some(String::new()), "b".to_owned()));
    // A namespace that runs into the separator does not come back: there is one earlier.
    assert_eq!(encode_name(Some("a__NS"), "__b"), "a__NS__NS____b");
    assert_eq!(
        decode_name("a__NS__NS____b"),
        (Some("a".to_owned()), "NS____b".to_owned())
    );
}

#[test]
fn tools_keep_their_order_and_what_they_carry() {
    let tools = vec![
        json(r#"{ "type": "web_search" }"#),
        json(r#"{ "type": "function", "name": "b", "parameters": { "n": [1, 2.5, null, true] } }"#),
        json(r#"{ "name": "untyped" }"#),
        json(r#"{ "type": "custom", "name": "a" }"#),
        json(r#"{ "type": "function", "name": "c", "namespace": "", "description": "third" }"#),
    ];
    let mut map = ToolReverseMap::new();
    let out = translate_tools(&tools, &mut map).expect("should succeed");
    let texts: Vec<String> = out.iter().map(|tool| tool.to_text()).collect();
    assert_eq!(
        texts,
        vec![
            r#"{"function":{"name":"b","parameters":{"n":[1,2.5,null,true]}},"type":"function"}"#,
            r#"{"function":{"description":"","name":"a","parameters":{"properties":{"input":{"type":"string"}},"required":["input"],"type":"object"}},"type":"function"}"#,
            r#"{"function":{"description":"third","name":"c"},"type":"function"}"#,
        ]
    );
    assert!(matches!(map.get("b"), Some(ToolKind::Function { namespace: None })));
    assert!(matches!(map.get("a"), Some(ToolKind::Custom)));
    assert!(matches!(map.get("c"), Some(ToolKind::Function { namespace: None })));
    assert!(map.get("untyped").is_none());
    assert!(map.get("").is_none());
}

#[test]
fn a_custom_tool_describes_its_format() {
    let described = |text: &str| {
        let mut map = ToolReverseMap::new();
        let out = translate_tools(&[json(text)], &mut map).expect("should succeed");
        function_text(&out[0], "description").unwrap().to_owned()
    };
    assert_eq!(
        described(
            r#"{"type":"custom","name":"t","description":"Own.","format":{"definition":"start: x"}}"#
        ),
        "Own.\n\nstart: x"
    );
    assert_eq!(
        described(r#"{"type":"custom","name":"t","format":{"definition":{"b": 1, "a": "x"}}}"#),
        "\n\n{\"a\":\"x\",\"b\":1}"
    );
    assert_eq!(
        described(r#"{"type":"custom","name":"t","description":"Own.","format":{}}"#),
        "Own."
    );
    assert_eq!(described(r#"{"type":"custom","name":"t","description":7}"#), "");
}

#[test]
fn malformed_tools_are_refused() {
    let mut map = ToolReverseMap::new();
    assert_eq!(
        refusal(translate_tools(&[json(r#"{"type":"function"}"#)], &mut map)),
        "function tool missing 'name'"
    );
    assert_eq!(
        refusal(translate_tools(&[json(r#"{"type":"function","name":5}"#)], &mut map)),
        "function tool missing 'name'"
    );
    assert_eq!(
        refusal(translate_tools(&[json(r#"{"type":"custom"}"#)], &mut map)),
        "custom tool missing 'name' field"
    );
}

#[test]
fn what_was_registered_before_a_fault_stays() {
    let tools = vec![
        json(r#"{"type":"function","name":"search","namespace":"web"}"#),
        json(r#"{"type":"custom","name":"web__NS__search"}"#),
        json(r#"{"type":"function","name":"later"}"#),
    ];
    let mut map = ToolReverseMap::default();
    assert_eq!(
        refusal(translate_tools(&tools, &mut map)),
        "tool name collision: encoded name 'web__NS__search' is already registered"
    );
    assert!(matches!(
        map.get("web__NS__search"),
        Some(ToolKind::Function { namespace: Some(ns) }) if ns == "web"
    ));
    assert!(map.get("later").is_none());
}

#[test]
fn names_that_are_taken_are_refused() {
    let tools = vec![json(r#"{"type":"function","name":"calc"}"#)];
    let mut map = ToolReverseMap::new();
    assert!(translate_tools(&tools, &mut map).is_ok());
    assert!(translate_tools(&tools, &mut map).is_err());
}
