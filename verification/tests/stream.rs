//! Reading chat responses.

use chat_completions::chunk::{ChatChoice, ChatChunk, ChatDelta, FunctionDelta, ToolCallDelta};
use chat_completions::error::ApiError;
use chat_completions::json::Json;
use chat_completions::protocol::{ContentItem, ResponseEvent, ResponseItem};
use chat_completions::stream::{ChatStream, Next, StreamInput};
use chat_completions::tool_map::{translate_tools, ToolReverseMap};
use serde_json::Value;

type Told = Result<ResponseEvent, ApiError>;

/// The text member of an object, if it has one; `None` outside where it is no text.
fn text_member(value: &Value, name: &str) -> Option<Option<String>> {
    match value.get(name) {
        None | Some(Value::Null) => Some(None),
        Some(Value::String(text)) => Some(Some(text.clone())),
        Some(_) => None,
    }
}

fn function_delta(value: &Value) -> Option<FunctionDelta> {
    value.as_object()?;
    Some(FunctionDelta {
        name: text_member(value, "name")?,
        arguments: text_member(value, "arguments")?,
    })
}

fn call_delta(value: &Value) -> Option<ToolCallDelta> {
    value.as_object()?;
    let index = match value.get("index") {
        None | Some(Value::Null) => None,
        Some(index) => Some(index.as_u64()? as usize),
    };
    let function = match value.get("function") {
        None | Some(Value::Null) => None,
        Some(function) => Some(function_delta(function)?),
    };
    Some(ToolCallDelta { index, id: text_member(value, "id")?, function })
}

fn chat_delta(value: &Value) -> Option<ChatDelta> {
    value.as_object()?;
    let tool_calls = match value.get("tool_calls") {
        None | Some(Value::Null) => None,
        Some(calls) => Some(calls.as_array()?.iter().map(call_delta).collect::<Option<Vec<_>>>()?),
    };
    Some(ChatDelta { content: text_member(value, "content")?, tool_calls })
}

fn chat_choice(value: &Value) -> Option<ChatChoice> {
    value.as_object()?;
    let delta = match value.get("delta") {
        None | Some(Value::Null) => None,
        Some(delta) => Some(chat_delta(delta)?),
    };
    Some(ChatChoice { delta, finish_reason: text_member(value, "finish_reason")? })
}

/// Decodes the data of a block as a chunk.
fn decode(data: &str) -> Option<ChatChunk> {
    let value: Value = serde_json::from_str(data).ok()?;
    value.as_object()?;
    let choices = match value.get("choices") {
        None | Some(Value::Null) => None,
        Some(choices) => {
            Some(choices.as_array()?.iter().map(chat_choice).collect::<Option<Vec<_>>>()?)
        }
    };
    Some(ChatChunk { id: text_member(&value, "id")?, choices })
}

/// Reads a response from chunks of bytes, the last of which may be a fault; also says how many of
/// them were read.
fn read_counting(chunks: Vec<Result<Vec<u8>, String>>, map: ToolReverseMap) -> (Vec<Told>, usize) {
    let (mut stream, mut reaction) = ChatStream::begin(map);
    let mut told = Vec::new();
    let mut source = chunks.into_iter();
    let mut count = 0;
    loop {
        told.extend(reaction.told);
        let input = match reaction.next {
            Next::Stop => return (told, count),
            Next::Decode(data) => StreamInput::Decoded(decode(&data)),
            Next::Read => match source.next() {
                Some(Ok(bytes)) => {
                    count += 1;
                    StreamInput::Bytes(bytes)
                }
                Some(Err(fault)) => {
                    count += 1;
                    StreamInput::Broken(fault)
                }
                None => StreamInput::Closed,
            },
        };
        reaction = stream.step(input);
    }
}

/// Reads a response that comes in one piece.
fn read(body: &str, map: ToolReverseMap) -> Vec<Told> {
    read_counting(vec![Ok(body.as_bytes().to_vec())], map).0
}

fn build_sse(lines: &[&str]) -> String {
    let mut body = String::new();
    for line in lines {
        body.push_str(line);
        body.push('\n');
    }
    body
}

/// One event for each piece of data, and then the end.
fn sse(data: &[&str]) -> String {
    let mut body = String::new();
    for piece in data {
        body.push_str(&format!("data: {piece}\n\n"));
    }
    body.push_str("data: [DONE]\n\n");
    body
}

fn tool_map(tools: &[&str]) -> ToolReverseMap {
    let tools: Vec<Json> = tools.iter().map(|tool| Json::parse(tool).unwrap()).collect();
    let mut map = ToolReverseMap::new();
    translate_tools(&tools, &mut map).unwrap();
    map
}

fn chunk_json(id: &str, content: Option<&str>, finish: Option<&str>) -> String {
    let content_val = match content {
        Some(c) => format!("\"{}\"", c.replace('"', "\\\"")),
        None => "null".into(),
    };
    let finish_val = match finish {
        Some(f) => format!("\"{f}\""),
        None => "null".into(),
    };
    format!(
        r#"{{"id":"{id}","choices":[{{"index":0,"delta":{{"role":"assistant","content":{content_val}}},"finish_reason":{finish_val}}}]}}"#
    )
}

/// The function calls that were told, as names and arguments.
fn added_calls(events: &[Told]) -> Vec<(&str, &str)> {
    events
        .iter()
        .filter_map(|e| match e {
            Ok(ResponseEvent::OutputItemAdded(ResponseItem::FunctionCall {
                name,
                arguments,
                ..
            })) => Some((name.as_str(), arguments.as_str())),
            _ => None,
        })
        .collect()
}

/// What was told, in short.
fn outline(events: &[Told]) -> Vec<String> {
    let item = |item: &ResponseItem| match item {
        ResponseItem::Message { content, .. } => {
            let text: Vec<String> = content
                .iter()
                .map(|part| match part {
                    ContentItem::OutputText { text } => text.clone(),
                    other => format!("{other:?}"),
                })
                .collect();
            format!("message {text:?}")
        }
        ResponseItem::FunctionCall { name, namespace, arguments, call_id, .. } => {
            format!("function {namespace:?} {name} {arguments} {call_id}")
        }
        ResponseItem::CustomToolCall { name, namespace, input, call_id, .. } => {
            format!("custom {namespace:?} {name} {input} {call_id}")
        }
        other => format!("{other:?}"),
    };
    events
        .iter()
        .map(|event| match event {
            Ok(ResponseEvent::Created { response_id }) => format!("created {response_id:?}"),
            Ok(ResponseEvent::OutputItemAdded(added)) => format!("added {}", item(added)),
            Ok(ResponseEvent::OutputTextDelta(text)) => format!("delta {text}"),
            Ok(ResponseEvent::OutputItemDone(done)) => format!("done {}", item(done)),
            Ok(ResponseEvent::Completed { response_id, end_turn, .. }) => {
                format!("completed {response_id} {end_turn:?}")
            }
            Err(ApiError::Stream(message)) => format!("stream error: {message}"),
            Err(ApiError::InvalidRequest { message }) => format!("invalid: {message}"),
        })
        .collect()
}

/// Whether a text is that of a random UUID.
fn is_uuid(text: &str) -> bool {
    let groups: Vec<&str> = text.split('-').collect();
    let lengths: Vec<usize> = groups.iter().map(|group| group.len()).collect();
    lengths == vec![8, 4, 4, 4, 12]
        && text.chars().all(|c| c == '-' || c.is_ascii_digit() || ('a'..='f').contains(&c))
        && groups[2].starts_with('4')
        && groups[3].starts_with(['8', '9', 'a', 'b'])
}

#[test]
fn plain_text_stream() {
    let c1 = chunk_json("stream-1", Some("Hello"), None);
    let c2 = chunk_json("stream-1", Some(" world"), None);
    let c3 = chunk_json("stream-1", None, Some("stop"));

    let body = build_sse(&[
        &format!("data: {c1}"),
        "",
        &format!("data: {c2}"),
        "",
        &format!("data: {c3}"),
        "",
        "data: [DONE]",
        "",
    ]);
    let events = read(&body, ToolReverseMap::new());
    let mut it = events.iter();

    assert!(matches!(it.next(), Some(Ok(ResponseEvent::Created { .. }))));
    assert!(matches!(
        it.next(),
        Some(Ok(ResponseEvent::OutputItemAdded(ResponseItem::Message { .. })))
    ));
    assert!(matches!(
        it.next(),
        Some(Ok(ResponseEvent::OutputTextDelta(s))) if s == "Hello"
    ));
    assert!(matches!(
        it.next(),
        Some(Ok(ResponseEvent::OutputTextDelta(s))) if s == " world"
    ));
    match it.next() {
        Some(Ok(ResponseEvent::OutputItemDone(ResponseItem::Message { content, .. }))) => {
            assert_eq!(content.len(), 1);
            assert!(matches!(
                &content[0],
                ContentItem::OutputText { text } if text == "Hello world"
            ));
        }
        other => panic!("expected OutputItemDone(Message), got {other:?}"),
    }
    let completed = it.next().unwrap();
    assert!(matches!(completed, Ok(ResponseEvent::Completed { end_turn: Some(true), .. })));
}

#[test]
fn function_tool_call_finish_reason_tool_calls() {
    let map = tool_map(&[r#"{"type": "function", "name": "my_func", "parameters": {}}"#]);

    let chunk1 = r#"{"id":"s1","choices":[{"index":0,"delta":{"tool_calls":[{"index":0,"id":"tc_1","type":"function","function":{"name":"my_func","arguments":""}}]},"finish_reason":null}]}"#;
    let chunk2 = r#"{"id":"s1","choices":[{"index":0,"delta":{"tool_calls":[{"index":0,"function":{"arguments":"{\"x\":1}"}}]},"finish_reason":null}]}"#;
    let chunk3 = r#"{"id":"s1","choices":[{"index":0,"delta":{},"finish_reason":"tool_calls"}]}"#;

    let body = build_sse(&[
        &format!("data: {chunk1}"),
        "",
        &format!("data: {chunk2}"),
        "",
        &format!("data: {chunk3}"),
        "",
        "data: [DONE]",
        "",
    ]);
    let events = read(&body, map);

    let mut it = events.iter();
    assert!(matches!(it.next(), Some(Ok(ResponseEvent::Created { .. }))));
    assert!(matches!(
        it.next(),
        Some(Ok(ResponseEvent::OutputItemAdded(ResponseItem::FunctionCall { name, .. })))
            if name == "my_func"
    ));
    assert!(matches!(
        it.next(),
        Some(Ok(ResponseEvent::OutputItemDone(ResponseItem::FunctionCall { .. })))
    ));
    assert!(matches!(
        it.next(),
        Some(Ok(ResponseEvent::Completed { end_turn: Some(false), .. }))
    ));
}

#[test]
fn function_tool_call_finish_reason_stop_ollama() {
    let map = tool_map(&[r#"{"type": "function", "name": "ollamatool", "parameters": {}}"#]);

    let chunk1 = r#"{"id":"o1","choices":[{"index":0,"delta":{"tool_calls":[{"index":0,"id":"tc_o1","type":"function","function":{"name":"ollamatool","arguments":""}}]},"finish_reason":null}]}"#;
    let chunk2 = r#"{"id":"o1","choices":[{"index":0,"delta":{"tool_calls":[{"index":0,"function":{"arguments":"{}"}}]},"finish_reason":null}]}"#;
    let chunk3 = r#"{"id":"o1","choices":[{"index":0,"delta":{},"finish_reason":"stop"}]}"#;

    let body = build_sse(&[
        &format!("data: {chunk1}"),
        "",
        &format!("data: {chunk2}"),
        "",
        &format!("data: {chunk3}"),
        "",
        "data: [DONE]",
        "",
    ]);
    let events = read(&body, map);

    let has_added = events.iter().any(|e| {
        matches!(e, Ok(ResponseEvent::OutputItemAdded(ResponseItem::FunctionCall { .. })))
    });
    assert!(has_added, "expected OutputItemAdded for tool call");
}

#[test]
fn custom_tool_call() {
    let map = tool_map(&[
        r#"{"type": "custom", "name": "my_custom", "description": "A custom tool"}"#,
    ]);

    let chunk1 = r#"{"id":"c1","choices":[{"index":0,"delta":{"tool_calls":[{"index":0,"id":"tc_c1","type":"function","function":{"name":"my_custom","arguments":""}}]},"finish_reason":null}]}"#;
    let chunk2 = r#"{"id":"c1","choices":[{"index":0,"delta":{"tool_calls":[{"index":0,"function":{"arguments":"{\"input\":\"hello world\"}"}}]},"finish_reason":null}]}"#;
    let chunk3 = r#"{"id":"c1","choices":[{"index":0,"delta":{},"finish_reason":"tool_calls"}]}"#;

    let body = build_sse(&[
        &format!("data: {chunk1}"),
        "",
        &format!("data: {chunk2}"),
        "",
        &format!("data: {chunk3}"),
        "",
        "data: [DONE]",
        "",
    ]);
    let events = read(&body, map);

    let added = events.iter().find(|e| {
        matches!(e, Ok(ResponseEvent::OutputItemAdded(ResponseItem::CustomToolCall { .. })))
    });
    assert!(added.is_some(), "expected OutputItemAdded for custom tool call");

    if let Some(Ok(ResponseEvent::OutputItemAdded(ResponseItem::CustomToolCall {
        input,
        name,
        ..
    }))) = added
    {
        assert_eq!(name, "my_custom");
        assert_eq!(input, "hello world");
    }
}

#[test]
fn ollama_parallel_same_index_distinct_ids() {
    let map = tool_map(&[
        r#"{"type":"function","name":"get_goal","parameters":{}}"#,
        r#"{"type":"function","name":"apply_patch","parameters":{}}"#,
    ]);

    let chunk1 = r#"{"id":"o1","choices":[{"index":0,"delta":{"tool_calls":[{"index":0,"id":"call_meu10l5v","type":"function","function":{"name":"get_goal","arguments":"{}"}},{"index":0,"id":"call_jw1pnw92","type":"function","function":{"name":"apply_patch","arguments":"{\"input\":\"patch\"}"}}]},"finish_reason":null}]}"#;
    let chunk2 = r#"{"id":"o1","choices":[{"index":0,"delta":{},"finish_reason":"tool_calls"}]}"#;

    let body = build_sse(&[
        &format!("data: {chunk1}"),
        "",
        &format!("data: {chunk2}"),
        "",
        "data: [DONE]",
        "",
    ]);
    let events = read(&body, map);

    let names: Vec<&str> = added_calls(&events).iter().map(|call| call.0).collect();
    assert_eq!(
        names,
        vec!["get_goal", "apply_patch"],
        "expected two separate function calls, got: {names:?}"
    );
}

#[test]
fn openai_streaming_single_call_argument_continuation() {
    let map = tool_map(&[r#"{"type":"function","name":"my_func","parameters":{}}"#]);

    let chunk0 = r#"{"id":"s1","choices":[{"index":0,"delta":{"tool_calls":[{"index":0,"id":"tc_1","type":"function","function":{"name":"my_func","arguments":""}}]},"finish_reason":null}]}"#;
    let chunk1 = r#"{"id":"s1","choices":[{"index":0,"delta":{"tool_calls":[{"index":0,"function":{"arguments":"{\"x\":"}}]},"finish_reason":null}]}"#;
    let chunk2 = r#"{"id":"s1","choices":[{"index":0,"delta":{"tool_calls":[{"index":0,"function":{"arguments":"1}"}}]},"finish_reason":null}]}"#;
    let chunk3 = r#"{"id":"s1","choices":[{"index":0,"delta":{},"finish_reason":"tool_calls"}]}"#;

    let body = build_sse(&[
        &format!("data: {chunk0}"),
        "",
        &format!("data: {chunk1}"),
        "",
        &format!("data: {chunk2}"),
        "",
        &format!("data: {chunk3}"),
        "",
        "data: [DONE]",
        "",
    ]);
    let events = read(&body, map);
    let added_calls = added_calls(&events);

    assert_eq!(
        added_calls.len(),
        1,
        "expected exactly one function call, got {added_calls:?}"
    );
    assert_eq!(added_calls[0].0, "my_func", "name must not be duplicated");
    assert_eq!(
        added_calls[0].1, "{\"x\":1}",
        "arguments must be fully concatenated"
    );
}

#[test]
fn openai_parallel_distinct_indices() {
    let map = tool_map(&[
        r#"{"type":"function","name":"func_a","parameters":{}}"#,
        r#"{"type":"function","name":"func_b","parameters":{}}"#,
    ]);

    let chunk0 = r#"{"id":"p1","choices":[{"index":0,"delta":{"tool_calls":[{"index":0,"id":"tc_a","type":"function","function":{"name":"func_a","arguments":""}},{"index":1,"id":"tc_b","type":"function","function":{"name":"func_b","arguments":""}}]},"finish_reason":null}]}"#;
    let chunk1 = r#"{"id":"p1","choices":[{"index":0,"delta":{"tool_calls":[{"index":0,"function":{"arguments":"{\"a\":1}"}}]},"finish_reason":null}]}"#;
    let chunk2 = r#"{"id":"p1","choices":[{"index":0,"delta":{"tool_calls":[{"index":1,"function":{"arguments":"{\"b\":2}"}}]},"finish_reason":null}]}"#;
    let chunk3 = r#"{"id":"p1","choices":[{"index":0,"delta":{},"finish_reason":"tool_calls"}]}"#;

    let body = build_sse(&[
        &format!("data: {chunk0}"),
        "",
        &format!("data: {chunk1}"),
        "",
        &format!("data: {chunk2}"),
        "",
        &format!("data: {chunk3}"),
        "",
        "data: [DONE]",
        "",
    ]);
    let events = read(&body, map);
    let added_calls = added_calls(&events);

    assert_eq!(
        added_calls.len(),
        2,
        "expected two function calls, got {added_calls:?}"
    );
    assert_eq!(added_calls[0], ("func_a", "{\"a\":1}"));
    assert_eq!(added_calls[1], ("func_b", "{\"b\":2}"));
}

#[test]
fn xml_fallback_synthesizes_function_call() {
    let map = tool_map(&[r#"{"type": "function", "name": "apply_patch", "parameters": {}}"#]);

    let xml_content = "<function=apply_patch><parameter=input>\
                       *** Begin Patch\n*** Add File: hello.txt\n+hello world\n*** End Patch\
                       </parameter></function></tool_call>";
    let chunk1 = format!(
        r#"{{"id":"x1","choices":[{{"index":0,"delta":{{"content":"{}"}},"finish_reason":null}}]}}"#,
        xml_content.replace('\\', "\\\\").replace('"', "\\\"").replace('\n', "\\n")
    );
    let chunk2 = r#"{"id":"x1","choices":[{"index":0,"delta":{},"finish_reason":"stop"}]}"#;

    let body = build_sse(&[
        &format!("data: {chunk1}"),
        "",
        &format!("data: {chunk2}"),
        "",
        "data: [DONE]",
        "",
    ]);
    let events = read(&body, map);

    let function_calls = added_calls(&events);
    assert_eq!(
        function_calls.len(),
        1,
        "expected exactly one synthesized FunctionCall, got: {events:?}"
    );
    assert_eq!(function_calls[0].0, "apply_patch");

    let args: Value =
        serde_json::from_str(function_calls[0].1).expect("arguments must be valid JSON");
    let input = args["input"].as_str().expect("input must be a string");
    assert!(input.contains("*** Begin Patch"), "patch envelope must be in input");
    assert!(input.contains("+hello world"), "patch content must be in input");

    let xml_in_message = events.iter().any(|e| match e {
        Ok(ResponseEvent::OutputItemDone(ResponseItem::Message { content, .. })) => {
            content.iter().any(|c| match c {
                ContentItem::OutputText { text } => text.contains("<function="),
                _ => false,
            })
        }
        _ => false,
    });
    assert!(!xml_in_message, "raw XML must not be emitted as a message item");
}

#[test]
fn structured_tool_call_suppresses_xml_fallback() {
    let map = tool_map(&[r#"{"type": "function", "name": "my_func", "parameters": {}}"#]);

    let chunk_text = r#"{"id":"s1","choices":[{"index":0,"delta":{"content":"<function=my_func><parameter=x>v</parameter></function>"},"finish_reason":null}]}"#;
    let chunk_tc = r#"{"id":"s1","choices":[{"index":0,"delta":{"tool_calls":[{"index":0,"id":"tc_real","type":"function","function":{"name":"my_func","arguments":"{\"x\":1}"}}]},"finish_reason":null}]}"#;
    let chunk_done =
        r#"{"id":"s1","choices":[{"index":0,"delta":{},"finish_reason":"tool_calls"}]}"#;

    let body = build_sse(&[
        &format!("data: {chunk_text}"),
        "",
        &format!("data: {chunk_tc}"),
        "",
        &format!("data: {chunk_done}"),
        "",
        "data: [DONE]",
        "",
    ]);
    let events = read(&body, map);

    let function_calls: Vec<(&str, &str)> = events
        .iter()
        .filter_map(|e| match e {
            Ok(ResponseEvent::OutputItemAdded(ResponseItem::FunctionCall {
                name,
                call_id,
                ..
            })) => Some((name.as_str(), call_id.as_str())),
            _ => None,
        })
        .collect();
    assert_eq!(
        function_calls.len(),
        1,
        "expected exactly one function call, got: {events:?}"
    );
    assert_eq!(
        function_calls[0].1, "tc_real",
        "expected structured call id, not XML fallback id"
    );
}

fn chat_sse_text(response_id: &str, content_chunks: &[&str]) -> String {
    let mut body = String::new();
    for chunk in content_chunks {
        let escaped = chunk.replace('\\', "\\\\").replace('"', "\\\"");
        body.push_str(&format!(
            "data: {{\"id\":\"{response_id}\",\"object\":\"chat.completion.chunk\",\"choices\":[{{\"index\":0,\"delta\":{{\"role\":\"assistant\",\"content\":\"{escaped}\"}},\"finish_reason\":null}}]}}\n\n"
        ));
    }
    body.push_str(&format!(
        "data: {{\"id\":\"{response_id}\",\"choices\":[{{\"index\":0,\"delta\":{{\"content\":\"\"}},\"finish_reason\":\"stop\"}}]}}\n\n"
    ));
    body.push_str("data: [DONE]\n\n");
    body
}

fn chat_sse_tool_call(
    response_id: &str,
    call_id: &str,
    fn_name: &str,
    arguments: &str,
    finish_reason: &str,
) -> String {
    let args_escaped = arguments.replace('\\', "\\\\").replace('"', "\\\"");
    let mut body = String::new();
    body.push_str(&format!(
        "data: {{\"id\":\"{response_id}\",\"choices\":[{{\"index\":0,\"delta\":{{\"role\":\"assistant\",\"content\":null,\"tool_calls\":[{{\"id\":\"{call_id}\",\"index\":0,\"type\":\"function\",\"function\":{{\"name\":\"{fn_name}\",\"arguments\":\"\"}}}}]}},\"finish_reason\":null}}]}}\n\n"
    ));
    body.push_str(&format!(
        "data: {{\"id\":\"{response_id}\",\"choices\":[{{\"index\":0,\"delta\":{{\"tool_calls\":[{{\"index\":0,\"function\":{{\"arguments\":\"{args_escaped}\"}}}}]}},\"finish_reason\":null}}]}}\n\n"
    ));
    body.push_str(&format!(
        "data: {{\"id\":\"{response_id}\",\"choices\":[{{\"index\":0,\"delta\":{{}},\"finish_reason\":\"{finish_reason}\"}}]}}\n\n"
    ));
    body.push_str("data: [DONE]\n\n");
    body
}

/// The events of a response that ends as it should.
fn collect_events(body: String) -> Vec<ResponseEvent> {
    read(&body, ToolReverseMap::new())
        .into_iter()
        .map(|event| match event {
            Ok(event) => event,
            Err(fault) => panic!("stream error: {fault:?}"),
        })
        .collect()
}

#[test]
fn chat_plain_text_output_item_added_before_delta() {
    let events = collect_events(chat_sse_text("chatcmpl-text-1", &["Hello", " world"]));

    let added_pos = events.iter().position(|ev| {
        matches!(ev, ResponseEvent::OutputItemAdded(ResponseItem::Message { .. }))
    });
    let delta_pos =
        events.iter().position(|ev| matches!(ev, ResponseEvent::OutputTextDelta(_)));
    let completed_pos =
        events.iter().position(|ev| matches!(ev, ResponseEvent::Completed { .. }));

    assert!(
        added_pos.is_some(),
        "expected OutputItemAdded(Message) event; got: {events:?}"
    );
    assert!(
        delta_pos.is_some(),
        "expected OutputTextDelta event; got: {events:?}"
    );
    assert!(
        completed_pos.is_some(),
        "expected Completed event; got: {events:?}"
    );
    assert!(
        added_pos.unwrap() < delta_pos.unwrap(),
        "OutputItemAdded must precede first OutputTextDelta"
    );

    let added_id = events.iter().find_map(|ev| match ev {
        ResponseEvent::OutputItemAdded(ResponseItem::Message { id, .. }) => id.clone(),
        _ => None,
    });
    let done_id = events.iter().find_map(|ev| match ev {
        ResponseEvent::OutputItemDone(ResponseItem::Message { id, .. }) => id.clone(),
        _ => None,
    });
    assert!(added_id.is_some() && done_id.is_some());
    if let (Some(a), Some(d)) = (added_id, done_id) {
        assert_eq!(
            a.as_str(),
            d.as_str(),
            "OutputItemAdded and OutputItemDone must share the same Message id"
        );
    }
}

#[test]
fn chat_tool_call_finish_reason_tool_calls_produces_function_call_item() {
    let events = collect_events(chat_sse_tool_call(
        "chatcmpl-fc-1",
        "call-001",
        "shell",
        r#"{"cmd":"echo hi"}"#,
        "tool_calls",
    ));

    let fn_call = events.iter().find_map(|ev| match ev {
        ResponseEvent::OutputItemAdded(ResponseItem::FunctionCall { name, arguments, .. }) => {
            Some((name.clone(), arguments.clone()))
        }
        _ => None,
    });
    assert!(
        fn_call.is_some(),
        "expected OutputItemAdded(FunctionCall); got: {events:?}"
    );
    let (name, args) = fn_call.unwrap();
    assert_eq!(name, "shell");
    assert!(
        args.contains("echo hi"),
        "arguments should contain 'echo hi', got: {args}"
    );
}

#[test]
fn chat_tool_call_finish_reason_stop_still_flushes_tool_call() {
    let events = collect_events(chat_sse_tool_call(
        "chatcmpl-fc-2",
        "call-002",
        "shell",
        r#"{"cmd":"ls"}"#,
        "stop",
    ));

    let fn_call = events.iter().find_map(|ev| match ev {
        ResponseEvent::OutputItemAdded(ResponseItem::FunctionCall { name, arguments, .. }) => {
            Some((name.clone(), arguments.clone()))
        }
        _ => None,
    });
    assert!(
        fn_call.is_some(),
        "tool call should be flushed even with finish_reason='stop'; got: {events:?}"
    );
    let (name, args) = fn_call.unwrap();
    assert_eq!(name, "shell");
    assert!(
        args.contains("ls"),
        "arguments should contain 'ls', got: {args}"
    );
}

#[test]
fn a_whole_response_is_told_in_order() {
    let map = tool_map(&[
        r#"{"type":"function","name":"search","namespace":"web"}"#,
        r#"{"type":"custom","name":"patch"}"#,
    ]);
    let body = sse(&[
        r#"{"id":"r1","choices":[{"delta":{"content":"Let me "}}]}"#,
        r#"{"id":"r2","choices":[{"delta":{"content":"see.","tool_calls":[{"id":"a","function":{"name":"web__NS__","arguments":"{"}}]}}]}"#,
        r#"{"choices":[{"delta":{"tool_calls":[{"index":1,"id":"b","function":{"name":"patch","arguments":"{\"input\":\"p\"}"}}]}}]}"#,
        r#"{"choices":[{"delta":{"tool_calls":[{"index":0,"id":"a","function":{"name":"search","arguments":"}"}}]}}]}"#,
        r#"{"choices":[{"delta":{"tool_calls":[{"index":2,"id":"c","function":{"name":"who__NS__knows"}}]},"finish_reason":"tool_calls"}]}"#,
    ]);
    assert_eq!(
        outline(&read(&body, map)),
        vec![
            "created None",
            "added message []",
            "delta Let me ",
            "delta see.",
            "done message [\"Let me see.\"]",
            "added function Some(\"web\") search {} a",
            "done function Some(\"web\") search {} a",
            "added custom None patch p b",
            "done custom None patch p b",
            "added function None who__NS__knows  c",
            "done function None who__NS__knows  c",
            "completed r1 Some(false)",
        ]
    );
}

#[test]
fn what_comes_without_an_identifier_gets_a_random_one() {
    let map = tool_map(&[r#"{"type":"custom","name":"t"}"#]);
    let body = sse(&[
        r#"{"choices":[{"delta":{"content":"x","tool_calls":[{"id":"a","function":{"name":"f"}},{"id":"b","function":{"name":"t"}}]}}]}"#,
    ]);
    let events = read(&body, map);
    let mut ids: Vec<String> = Vec::new();
    for event in &events {
        match event {
            Ok(ResponseEvent::OutputItemDone(ResponseItem::Message { id: Some(id), .. }))
            | Ok(ResponseEvent::OutputItemDone(ResponseItem::FunctionCall {
                id: Some(id), ..
            }))
            | Ok(ResponseEvent::OutputItemDone(ResponseItem::CustomToolCall {
                id: Some(id),
                ..
            })) => ids.push(id.as_str().to_owned()),
            Ok(ResponseEvent::Completed { response_id, .. }) => ids.push(response_id.clone()),
            _ => {}
        }
    }
    assert_eq!(ids.len(), 4);
    assert!(ids.iter().all(|id| is_uuid(id)), "{ids:?}");
    ids.sort();
    ids.dedup();
    assert_eq!(ids.len(), 4);
}

#[test]
fn calls_in_the_text_stand_in_for_the_message() {
    let map = tool_map(&[
        r#"{"type":"function","name":"search","namespace":"web"}"#,
        r#"{"type":"custom","name":"patch"}"#,
    ]);
    let body = sse(&[
        r#"{"id":"x","choices":[{"delta":{"content":"Sure. <function=web__NS__search><parameter=q>cats</parame"}}]}"#,
        r#"{"id":"x","choices":[{"delta":{"content":"ter></function> and <function=patch><parameter=input>\nA\nB\n</parameter></function>"}}]}"#,
        r#"{"id":"x","choices":[{"delta":{"content":"<function=shell></function>"},"finish_reason":"stop"}]}"#,
    ]);
    let events = read(&body, map);
    assert_eq!(
        outline(&events)[5..],
        [
            "added function Some(\"web\") search {\"q\":\"cats\"} xmlcall_0",
            "done function Some(\"web\") search {\"q\":\"cats\"} xmlcall_0",
            "added custom None patch A\nB xmlcall_1",
            "done custom None patch A\nB xmlcall_1",
            "added function None shell {} xmlcall_2",
            "done function None shell {} xmlcall_2",
            "completed x Some(false)",
        ]
    );
    match &events[5] {
        Ok(ResponseEvent::OutputItemAdded(ResponseItem::FunctionCall { id: Some(id), .. })) => {
            assert_eq!(id.as_str(), "xmlcall_0");
        }
        other => panic!("expected a call, got {other:?}"),
    }
}

#[test]
fn an_empty_response_is_complete() {
    assert_eq!(
        outline(&read_counting(vec![], ToolReverseMap::new()).0[..1]),
        vec!["created None"]
    );
    let (events, _) = read_counting(vec![], ToolReverseMap::new());
    assert_eq!(events.len(), 2);
    assert!(matches!(
        &events[1],
        Ok(ResponseEvent::Completed {
            response_id,
            token_usage: None,
            usage_metadata: None,
            end_turn: Some(true),
        }) if is_uuid(response_id)
    ));
}

#[test]
fn a_fault_of_the_stream_ends_the_response() {
    let first = "data: {\"id\":\"i\",\"choices\":[{\"delta\":{\"content\":\"x\"}}]}\n\n";
    let (events, count) = read_counting(
        vec![
            Ok(first.as_bytes().to_vec()),
            Err("connection reset".to_owned()),
            Ok(first.as_bytes().to_vec()),
        ],
        ToolReverseMap::new(),
    );
    assert_eq!(
        outline(&events),
        vec![
            "created None",
            "added message []",
            "delta x",
            "stream error: byte stream error: connection reset",
        ]
    );
    assert_eq!(count, 2);
}

#[test]
fn bytes_that_are_not_text_end_the_response() {
    let (events, _) = read_counting(vec![Ok(b"data: \xff\n\n".to_vec())], ToolReverseMap::new());
    assert_eq!(
        outline(&events),
        vec![
            "created None",
            "stream error: UTF-8 error: invalid utf-8 sequence of 1 bytes from index 6",
        ]
    );
}

#[test]
fn data_that_cannot_be_decoded_is_passed_over() {
    let body = sse(&[
        "not json",
        r#"{"id":7}"#,
        r#"{"choices":[{"delta":{"content":5}}]}"#,
        r#"{"id":"i","choices":[{"delta":{"content":"ok"}}]}"#,
    ]);
    assert_eq!(
        outline(&read(&body, ToolReverseMap::new())),
        vec![
            "created None",
            "added message []",
            "delta ok",
            "done message [\"ok\"]",
            "completed i Some(true)",
        ]
    );
}

#[test]
fn the_end_of_the_stream_ends_the_last_block() {
    // No blank line ends the second block, but a newline ends its line.
    let body = "data: {\"id\":\"i\",\"choices\":[{\"delta\":{\"content\":\"a\"}}]}\n\n\
                data: {\"choices\":[{\"delta\":{\"content\":\"b\"}}]}\n";
    assert_eq!(
        outline(&read(body, ToolReverseMap::new())),
        vec![
            "created None",
            "added message []",
            "delta a",
            "delta b",
            "done message [\"ab\"]",
            "completed i Some(true)",
        ]
    );
    // A line that no newline ends is lost.
    let body = "data: {\"id\":\"i\"}\n\ndata: {\"choices\":[{\"delta\":{\"content\":\"b\"}}]}";
    assert_eq!(
        outline(&read(body, ToolReverseMap::new())),
        vec!["created None", "completed i Some(true)"]
    );
    // The end of the data is no data.
    assert_eq!(
        outline(&read("data: {\"id\":\"i\"}\n\ndata: [DONE]\n", ToolReverseMap::new())),
        vec!["created None", "completed i Some(true)"]
    );
}

#[test]
fn nothing_is_read_once_the_model_has_stopped() {
    let stopped = "data: {\"id\":\"i\",\"choices\":[{\"finish_reason\":\"stop\"}]}\n\n";
    let late = "data: {\"choices\":[{\"delta\":{\"content\":\"late\"}}]}\n\n";
    let (events, count) = read_counting(
        vec![Ok(stopped.as_bytes().to_vec()), Ok(late.as_bytes().to_vec())],
        ToolReverseMap::new(),
    );
    assert_eq!(outline(&events), vec!["created None", "completed i Some(true)"]);
    assert_eq!(count, 1);
    // While a line is left, more is read.
    let (events, count) = read_counting(
        vec![Ok(format!("{stopped}data").into_bytes()), Ok(late[4..].as_bytes().to_vec())],
        ToolReverseMap::new(),
    );
    assert_eq!(outline(&events)[2..3], ["delta late"]);
    assert_eq!(count, 2);
    // An empty reason is none.
    let open = "data: {\"id\":\"i\",\"choices\":[{\"finish_reason\":\"\"}]}\n\n";
    let (events, count) = read_counting(
        vec![Ok(open.as_bytes().to_vec()), Ok(late.as_bytes().to_vec())],
        ToolReverseMap::new(),
    );
    assert_eq!(outline(&events)[2..3], ["delta late"]);
    assert_eq!(count, 2);
}

#[test]
fn the_end_of_the_data_ends_the_response() {
    let late = "data: {\"id\":\"r\",\"choices\":[{\"delta\":{\"content\":\"late\"}}]}\n\n";
    let (events, count) = read_counting(
        vec![Ok(b"data: [DONE]\n\n".to_vec()), Ok(late.as_bytes().to_vec())],
        ToolReverseMap::new(),
    );
    assert_eq!(count, 1);
    assert_eq!(events.len(), 2);
    assert!(matches!(&events[0], Ok(ResponseEvent::Created { response_id: None })));
    assert!(matches!(&events[1], Ok(ResponseEvent::Completed { end_turn: Some(true), .. })));
    // What came before it is still told, and a line behind it makes no difference.
    let early = "data: {\"id\":\"r\",\"choices\":[{\"delta\":{\"content\":\"early\"}}]}\n\n";
    let (events, count) = read_counting(
        vec![
            Ok(format!("{early}data: [DONE]\n\n{late}data: more").into_bytes()),
            Ok(late.as_bytes().to_vec()),
        ],
        ToolReverseMap::new(),
    );
    assert_eq!(count, 1);
    assert_eq!(
        outline(&events),
        vec![
            "created None",
            "added message []",
            "delta early",
            "done message [\"early\"]",
            "completed r Some(true)",
        ]
    );
}

#[test]
fn a_response_that_says_why_it_stops_may_be_cut_into_bytes() {
    let body = sse(&[
        r#"{"id":"i","choices":[{"delta":{"content":"a"}}]}"#,
        r#"{"choices":[{"delta":{"content":"b"},"finish_reason":"stop"}]}"#,
    ]);
    let whole = outline(&read(&body, ToolReverseMap::new()));
    let bytes = body.bytes().map(|byte| Ok(vec![byte])).collect();
    assert_eq!(outline(&read_counting(bytes, ToolReverseMap::new()).0), whole);
}

#[test]
fn a_response_may_be_cut_anywhere() {
    let body = sse(&[
        r#"{"id":"i","choices":[{"delta":{"content":"café é"}}]}"#,
        r#"{"choices":[{"delta":{"tool_calls":[{"id":"a","function":{"name":"f","arguments":"{}"}}]}}]}"#,
    ]);
    let whole = outline(&read(&body, ToolReverseMap::new()));
    for at in (0..=body.len()).filter(|at| body.is_char_boundary(*at)) {
        let (first, second) = body.split_at(at);
        let (events, _) = read_counting(
            vec![Ok(first.as_bytes().to_vec()), Ok(second.as_bytes().to_vec())],
            ToolReverseMap::new(),
        );
        assert_eq!(outline(&events), whole, "cut at {at}");
    }
}
