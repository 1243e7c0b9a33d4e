//! Chat request bodies.

use chat_completions::build_chat_request;
use chat_completions::error::ApiError;
use chat_completions::json::Json;
use chat_completions::protocol::{
    ContentItem, FunctionCallOutputBody, FunctionCallOutputPayload, ResponseItem, ResponseItemId,
};
use chat_completions::request::{
    build_chat_request_with, wrap_custom_input, ResponsesApiRequest, ResponsesApiTools,
    TextControls,
};
use chat_completions::response::{extract_custom_input, make_call_item};
use chat_completions::tool_map::{translate_tools, ToolKind, ToolReverseMap};
use chat_completions::turn::ToolCallBuilder;

fn minimal_req(input: Vec<ResponseItem>) -> ResponsesApiRequest {
    ResponsesApiRequest {
        model: "gpt-4o".into(),
        instructions: String::new(),
        input,
        tools: None,
        tool_choice: String::new(),
        service_tier: None,
        text: None,
    }
}

fn message(role: &str, content: Vec<ContentItem>) -> ResponseItem {
    ResponseItem::Message {
        id: None,
        role: role.into(),
        content,
        phase: None,
        internal_chat_message_metadata_passthrough: None,
    }
}

fn input_text(text: &str) -> ContentItem {
    ContentItem::InputText { text: text.into() }
}

fn function_output(call_id: Option<&str>, body: FunctionCallOutputBody) -> ResponseItem {
    ResponseItem::FunctionCallOutput {
        id: None,
        call_id: call_id.map(|id| id.to_owned()),
        name: None,
        namespace: None,
        output: FunctionCallOutputPayload { body, success: None },
        internal_chat_message_metadata_passthrough: None,
    }
}

/// The text of a member.
fn text<'a>(value: &'a Json, name: &str) -> Option<&'a str> {
    value.get(name).and_then(|member| member.as_str())
}

/// The messages of a body.
fn messages(body: &Json) -> &Vec<Json> {
    body.get("messages").and_then(|member| member.as_array()).unwrap()
}

/// The body of a request, as text.
fn body_of(req: &ResponsesApiRequest) -> String {
    let mut map = ToolReverseMap::new();
    build_chat_request(req, &mut map).expect("should succeed").to_text()
}

/// The message of a refusal.
fn refusal(result: Result<Json, ApiError>) -> String {
    match result {
        Err(ApiError::InvalidRequest { message }) => message,
        other => panic!("expected InvalidRequest error, got {other:?}"),
    }
}

#[test]
fn builds_minimal_request() {
    let req = minimal_req(vec![message("user", vec![input_text("Hello")])]);
    let mut map = ToolReverseMap::new();
    let body = build_chat_request(&req, &mut map).expect("should succeed");
    assert_eq!(text(&body, "model"), Some("gpt-4o"));
    assert_eq!(body.get("stream").and_then(|stream| stream.as_bool()), Some(true));
    let msgs = messages(&body);
    assert_eq!(msgs.len(), 1);
    assert_eq!(text(&msgs[0], "role"), Some("user"));
    assert_eq!(text(&msgs[0], "content"), Some("Hello"));
}

#[test]
fn prepends_system_message() {
    let mut req = minimal_req(vec![]);
    req.instructions = "You are helpful.".into();
    let mut map = ToolReverseMap::new();
    let body = build_chat_request(&req, &mut map).expect("should succeed");
    let msgs = messages(&body);
    assert_eq!(text(&msgs[0], "role"), Some("system"));
    assert_eq!(text(&msgs[0], "content"), Some("You are helpful."));
}

#[test]
fn no_text_format_does_not_fail() {
    let mut req = minimal_req(vec![]);
    req.text = Some(TextControls { verbosity: None, format: None });
    let mut map = ToolReverseMap::new();
    let result = build_chat_request(&req, &mut map);
    assert!(result.is_ok());
}

#[test]
fn translates_function_call_output() {
    let item = function_output(
        Some("call_1"),
        FunctionCallOutputBody::Text("result text".into()),
    );
    let req = minimal_req(vec![item]);
    let mut map = ToolReverseMap::new();
    let body = build_chat_request(&req, &mut map).expect("should succeed");
    let msgs = messages(&body);
    assert_eq!(text(&msgs[0], "role"), Some("tool"));
    assert_eq!(text(&msgs[0], "tool_call_id"), Some("call_1"));
    assert_eq!(text(&msgs[0], "content"), Some("result text"));
}

#[test]
fn translates_function_call_with_namespace() {
    let item = ResponseItem::FunctionCall {
        id: None,
        name: "my_fn".into(),
        namespace: Some("myns".into()),
        arguments: "{}".into(),
        encrypted_function_args: None,
        call_id: "call_ns_1".into(),
        internal_chat_message_metadata_passthrough: None,
    };
    let req = minimal_req(vec![item]);
    let mut map = ToolReverseMap::new();
    let body = build_chat_request(&req, &mut map).expect("should succeed");
    let msgs = messages(&body);
    let tc = &msgs[0].get("tool_calls").and_then(|calls| calls.as_array()).unwrap()[0];
    assert_eq!(text(tc.get("function").unwrap(), "name"), Some("myns__NS__my_fn"));
}

#[test]
fn service_tier_is_included_when_set() {
    let mut req = minimal_req(vec![]);
    req.service_tier = Some("auto".into());
    let mut map = ToolReverseMap::new();
    let body = build_chat_request(&req, &mut map).expect("should succeed");
    assert_eq!(text(&body, "service_tier"), Some("auto"));
}

#[test]
fn service_tier_absent_when_none() {
    let req = minimal_req(vec![]);
    let mut map = ToolReverseMap::new();
    let body = build_chat_request(&req, &mut map).expect("should succeed");
    assert!(body.get("service_tier").is_none());
}

#[test]
fn chat_function_call_output_in_history_sends_role_tool_message() {
    let req = minimal_req(vec![
        message("user", vec![input_text("list files")]),
        ResponseItem::FunctionCall {
            id: Some(ResponseItemId::from_server("item-fc-1".to_string())),
            name: "shell".to_string(),
            namespace: None,
            arguments: "{\"cmd\":\"ls\"}".to_string(),
            encrypted_function_args: None,
            call_id: "call-hist-001".to_string(),
            internal_chat_message_metadata_passthrough: None,
        },
        function_output(
            Some("call-hist-001"),
            FunctionCallOutputBody::Text("file1.txt\nfile2.txt".to_string()),
        ),
        message("user", vec![input_text("what did ls return?")]),
    ]);
    let mut map = ToolReverseMap::new();
    let body = build_chat_request(&req, &mut map).expect("should succeed");
    let messages = body
        .get("messages")
        .and_then(|messages| messages.as_array())
        .expect("Chat request must have a 'messages' array");

    let tool_msg = messages.iter().find(|m| text(m, "role") == Some("tool"));
    assert!(
        tool_msg.is_some(),
        "expected a message with role='tool' for the FunctionCallOutput; messages: {messages:?}"
    );
    let tool_msg = tool_msg.unwrap();
    assert_eq!(
        text(tool_msg, "tool_call_id"),
        Some("call-hist-001"),
        "tool_call_id should match the FunctionCallOutput call_id"
    );
    assert!(
        text(tool_msg, "content").unwrap_or_default().contains("file1.txt"),
        "tool message content should include the output text; got: {tool_msg:?}"
    );
    assert!(
        body.get("input").is_none(),
        "Chat request must NOT have an 'input' key (that is Responses-API format)"
    );
}

#[test]
fn the_smallest_body_is_exact() {
    assert_eq!(
        body_of(&minimal_req(vec![])),
        r#"{"messages":[],"model":"gpt-4o","stream":true}"#
    );
}

#[test]
fn the_fullest_body_is_exact() {
    let mut req = minimal_req(vec![message("user", vec![input_text("Hi")])]);
    req.instructions = "Be kind.".into();
    req.tools = Some(ResponsesApiTools {
        raw: r#"[{"type":"function","name":"calc","namespace":"math"}]"#.into(),
    });
    req.tool_choice = "auto".into();
    req.service_tier = Some("flex".into());
    let mut map = ToolReverseMap::new();
    let body = build_chat_request(&req, &mut map).expect("should succeed");
    assert_eq!(
        body.to_text(),
        concat_lines(&[
            r#"{"messages":[{"content":"Be kind.","role":"system"},{"content":"Hi","role":"user"}],"#,
            r#""model":"gpt-4o","service_tier":"flex","stream":true,"tool_choice":"auto","#,
            r#""tools":[{"function":{"name":"math__NS__calc"},"type":"function"}]}"#,
        ])
    );
    assert!(matches!(
        map.get("math__NS__calc"),
        Some(ToolKind::Function { namespace: Some(ns) }) if ns == "math"
    ));
}

/// Pieces of a text, put together.
fn concat_lines(pieces: &[&str]) -> String {
    pieces.concat()
}

#[test]
fn tools_that_have_no_counterpart_make_no_list() {
    let mut req = minimal_req(vec![]);
    req.tools = Some(ResponsesApiTools { raw: r#"[{"type":"web_search"}]"#.into() });
    assert_eq!(body_of(&req), r#"{"messages":[],"model":"gpt-4o","stream":true}"#);
}

#[test]
fn structured_output_is_refused() {
    let mut req = minimal_req(vec![]);
    req.tools = Some(ResponsesApiTools { raw: r#"[{"type":"function","name":"f"}]"#.into() });
    req.text = Some(TextControls {
        verbosity: Some("low".into()),
        format: Some(Json::parse(r#"{"type":"json_schema"}"#).unwrap()),
    });
    let mut map = ToolReverseMap::new();
    assert_eq!(
        refusal(build_chat_request(&req, &mut map)),
        "structured output (text.format) is not supported for wire_api = chat"
    );
    assert!(map.get("f").is_none());
}

#[test]
fn tools_must_be_an_array() {
    let mut req = minimal_req(vec![]);
    req.tools = Some(ResponsesApiTools { raw: r#" { "b" : [ ] , "a" : "x" } "#.into() });
    let mut map = ToolReverseMap::new();
    assert_eq!(
        refusal(build_chat_request(&req, &mut map)),
        r#"expected tools to serialize to a JSON array, got {"a":"x","b":[]}"#
    );
}

#[test]
fn tools_must_be_json() {
    let mut req = minimal_req(vec![]);
    req.tools = Some(ResponsesApiTools { raw: "[".into() });
    let mut map = ToolReverseMap::new();
    assert_eq!(
        refusal(build_chat_request(&req, &mut map)),
        "failed to serialize tools: EOF while parsing a list at line 1 column 1"
    );
}

#[test]
fn what_was_read_of_the_tools_decides() {
    let req = minimal_req(vec![]);
    let mut map = ToolReverseMap::new();
    let parsed = Some(Ok(Json::parse(r#"[{"type":"custom","name":"c"}]"#).unwrap()));
    let body = build_chat_request_with(&req, parsed, &mut map).expect("should succeed");
    assert!(body.get("tools").is_some());
    assert!(matches!(map.get("c"), Some(ToolKind::Custom)));
    assert_eq!(
        refusal(build_chat_request_with(&req, Some(Err("why".into())), &mut map)),
        "failed to serialize tools: why"
    );
}

#[test]
fn a_faulty_tool_refuses_the_request() {
    let mut req = minimal_req(vec![]);
    req.tools = Some(ResponsesApiTools {
        raw: r#"[{"type":"function","name":"f"},{"type":"function"}]"#.into(),
    });
    let mut map = ToolReverseMap::new();
    assert_eq!(
        refusal(build_chat_request(&req, &mut map)),
        "function tool missing 'name'"
    );
    assert!(map.get("f").is_some());
}

#[test]
fn the_text_parts_of_a_message_are_joined() {
    let req = minimal_req(vec![message(
        "user",
        vec![
            input_text("a"),
            ContentItem::InputImage { image_url: "data:image/png".into() },
            ContentItem::OutputText { text: "b".into() },
            ContentItem::InputAudio { audio_url: "data:audio/wav".into() },
            input_text("c"),
        ],
    )]);
    assert_eq!(
        body_of(&req),
        r#"{"messages":[{"content":"abc","role":"user"}],"model":"gpt-4o","stream":true}"#
    );
}

#[test]
fn calls_and_outputs_are_exact() {
    let req = minimal_req(vec![
        ResponseItem::FunctionCall {
            id: None,
            name: "f".into(),
            namespace: Some(String::new()),
            arguments: "{\"x\":1}".into(),
            encrypted_function_args: None,
            call_id: "c1".into(),
            internal_chat_message_metadata_passthrough: None,
        },
        function_output(None, FunctionCallOutputBody::ContentItems { text: None }),
        ResponseItem::CustomToolCall {
            id: None,
            status: None,
            call_id: "c2".into(),
            name: "patch".into(),
            namespace: Some("ignored".into()),
            input: "say \"hi\"\n\u{e9}".into(),
            internal_chat_message_metadata_passthrough: None,
        },
        ResponseItem::CustomToolCallOutput {
            id: None,
            call_id: Some("c2".into()),
            output: FunctionCallOutputPayload {
                body: FunctionCallOutputBody::ContentItems { text: Some("done".into()) },
                success: Some(true),
            },
            internal_chat_message_metadata_passthrough: None,
        },
    ]);
    let body = build_chat_request(&req, &mut ToolReverseMap::new()).expect("should succeed");
    let texts: Vec<String> = messages(&body).iter().map(|message| message.to_text()).collect();
    assert_eq!(
        texts,
        vec![
            r#"{"role":"assistant","tool_calls":[{"function":{"arguments":"{\"x\":1}","name":"f"},"id":"c1","type":"function"}]}"#,
            r#"{"content":"","role":"tool","tool_call_id":null}"#,
            r#"{"role":"assistant","tool_calls":[{"function":{"arguments":"{\"input\":\"say \\\"hi\\\"\\né\"}","name":"patch"},"id":"c2","type":"function"}]}"#,
            r#"{"content":"done","role":"tool","tool_call_id":"c2"}"#,
        ]
    );
}

#[test]
fn reasoning_leaves_no_trace() {
    let spoken = || message("user", vec![input_text("Hi")]);
    let silent = minimal_req(vec![
        ResponseItem::Reasoning {
            id: Some(ResponseItemId::from_server("r1".into())),
            encrypted_content: Some("not for other eyes".into()),
        },
        spoken(),
        ResponseItem::LocalShellCall,
        ResponseItem::ToolSearchCall,
        ResponseItem::ToolSearchOutput,
        ResponseItem::WebSearchCall,
        ResponseItem::ImageGenerationCall,
        ResponseItem::Compaction,
        ResponseItem::CompactionTrigger,
        ResponseItem::ContextCompaction,
        ResponseItem::AgentMessage,
        ResponseItem::AdditionalTools,
        ResponseItem::ConfigurationUpdate,
        ResponseItem::Other,
    ]);
    assert_eq!(body_of(&silent), body_of(&minimal_req(vec![spoken()])));
}

#[test]
fn custom_input_comes_back() {
    for input in ["", "plain", "say \"hi\"", "two\nlines", "\u{1f980} \\ \u{0}", "{\"input\":1}"] {
        let wrapped = wrap_custom_input(input);
        assert_ne!(wrapped, input);
        assert_eq!(extract_custom_input(&wrapped), input);
    }
    assert_eq!(wrap_custom_input("a\"b"), "{\"input\":\"a\\\"b\"}");
}

#[test]
fn arguments_without_input_are_taken_as_they_are() {
    for arguments in ["", "not json", "{\"other\":\"x\"}", "{\"input\":7}", "[1]", "{\"input\":\"x\""] {
        assert_eq!(extract_custom_input(arguments), arguments);
    }
    assert_eq!(extract_custom_input("{\"a\":[], \"input\" : \"x\"}"), "x");
}

#[test]
fn the_history_repeats_calls_as_they_were() {
    let tools = [
        Json::parse(r#"{"type":"function","name":"search","namespace":"web"}"#).unwrap(),
        Json::parse(r#"{"type":"custom","name":"patch"}"#).unwrap(),
    ];
    let mut map = ToolReverseMap::new();
    translate_tools(&tools, &mut map).expect("should succeed");
    let came_back = |name: &str, arguments: &str| {
        let call = ToolCallBuilder {
            id: "c1".to_owned(),
            name: name.to_owned(),
            arguments: arguments.to_owned(),
        };
        make_call_item(map.get(name), &Json::parse(arguments), call, "i1".to_owned())
    };
    let req = minimal_req(vec![
        came_back("web__NS__search", "{\"q\": 1}"),
        came_back("patch", "{ \"input\" : \"p\" }"),
        came_back("unknown__NS__tool", "?"),
    ]);
    let body = build_chat_request(&req, &mut ToolReverseMap::new()).expect("should succeed");
    let sent: Vec<(String, String)> = messages(&body)
        .iter()
        .map(|message| {
            let calls = message.get("tool_calls").and_then(|calls| calls.as_array()).unwrap();
            let function = calls[0].get("function").unwrap();
            assert_eq!(text(&calls[0], "id"), Some("c1"));
            (
                text(function, "name").unwrap().to_owned(),
                text(function, "arguments").unwrap().to_owned(),
            )
        })
        .collect();
    let expected = [
        ("web__NS__search", "{\"q\": 1}"),
        ("patch", "{\"input\":\"p\"}"),
        ("unknown__NS__tool", "?"),
    ];
    for (sent, expected) in sent.iter().zip(expected) {
        assert_eq!((sent.0.as_str(), sent.1.as_str()), expected);
    }
    assert_eq!(sent.len(), 3);
}
