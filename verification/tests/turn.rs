//! Gathering a response, and ending it.

use chat_completions::chunk::{ChatChoice, ChatChunk, ChatDelta, FunctionDelta, ToolCallDelta};
use chat_completions::json::Json;
use chat_completions::protocol::{ContentItem, ResponseEvent, ResponseItem};
use chat_completions::response::{extract_custom_input_from, finish_with, make_call_item};
use chat_completions::tool_map::{translate_tools, ToolKind, ToolReverseMap};
use chat_completions::turn::{ChatTurn, ToolCallBuilder};

fn some(text: &str) -> Option<String> {
    Some(text.to_owned())
}

fn delta(
    index: Option<usize>,
    id: Option<&str>,
    name: Option<&str>,
    arguments: Option<&str>,
) -> ToolCallDelta {
    ToolCallDelta {
        index,
        id: id.map(|id| id.to_owned()),
        function: Some(FunctionDelta {
            name: name.map(|name| name.to_owned()),
            arguments: arguments.map(|arguments| arguments.to_owned()),
        }),
    }
}

fn choice(content: Option<&str>, tool_calls: Option<Vec<ToolCallDelta>>) -> ChatChoice {
    ChatChoice {
        delta: Some(ChatDelta { content: content.map(|text| text.to_owned()), tool_calls }),
        finish_reason: None,
    }
}

fn chunk(id: Option<&str>, choices: Vec<ChatChoice>) -> ChatChunk {
    ChatChunk { id: id.map(|id| id.to_owned()), choices: Some(choices) }
}

/// The calls that come of a list of deltas, as identifiers, names and arguments.
fn calls(deltas: Vec<ToolCallDelta>) -> Vec<(String, String, String)> {
    let mut turn = ChatTurn::new();
    let told = turn.process_chunk_with(chunk(None, vec![choice(None, Some(deltas))]), "m");
    assert!(told.is_empty());
    turn.into_parts().calls.into_iter().map(|call| (call.id, call.name, call.arguments)).collect()
}

fn call(id: &str, name: &str, arguments: &str) -> (String, String, String) {
    (id.to_owned(), name.to_owned(), arguments.to_owned())
}

#[test]
fn the_first_text_opens_the_message() {
    let mut turn = ChatTurn::new();
    let told = turn.process_chunk_with(
        chunk(some("r").as_deref(), vec![choice(Some(""), None), choice(Some("a"), None), choice(Some("b"), None)]),
        "m1",
    );
    assert_eq!(told.len(), 3);
    assert!(matches!(
        &told[0],
        ResponseEvent::OutputItemAdded(ResponseItem::Message {
            id: Some(id),
            role,
            content,
            phase: None,
            internal_chat_message_metadata_passthrough: None,
        }) if id.as_str() == "m1" && role == "assistant" && content.is_empty()
    ));
    assert!(matches!(&told[1], ResponseEvent::OutputTextDelta(text) if text == "a"));
    assert!(matches!(&told[2], ResponseEvent::OutputTextDelta(text) if text == "b"));
    let told = turn.process_chunk_with(chunk(Some("other"), vec![choice(Some("c"), None)]), "m2");
    assert_eq!(told.len(), 1);
    let parts = turn.into_parts();
    assert_eq!(parts.text_id, some("m1"));
    assert_eq!(parts.text, "abc");
    assert_eq!(parts.stream_id, some("r"));
}

#[test]
fn the_message_goes_by_one_random_identifier() {
    let mut turn = ChatTurn::new();
    turn.process_chunk(chunk(None, vec![choice(Some("a"), None)]));
    let told = turn.process_chunk(chunk(None, vec![choice(Some("b"), None)]));
    assert_eq!(told.len(), 1);
    assert_eq!(turn.into_parts().text_id.map(|id| id.len()), Some(36));
}

#[test]
fn why_the_model_stopped_is_not_taken_back() {
    let mut turn = ChatTurn::new();
    let stop = |reason: Option<&str>| ChatChoice {
        delta: None,
        finish_reason: reason.map(|reason| reason.to_owned()),
    };
    turn.process_chunk_with(chunk(None, vec![stop(None), stop(Some(""))]), "m");
    assert!(!turn.is_finished());
    turn.process_chunk_with(chunk(None, vec![stop(Some("length"))]), "m");
    assert!(turn.is_finished());
    turn.process_chunk_with(chunk(None, vec![stop(None), stop(Some(""))]), "m");
    turn.process_chunk_with(ChatChunk { id: None, choices: None }, "m");
    assert!(turn.is_finished());
}

#[test]
fn pieces_of_a_call_are_joined() {
    assert_eq!(
        calls(vec![
            delta(None, Some("a"), Some("get_"), Some("{")),
            delta(Some(0), None, None, Some("\"x\"")),
            delta(Some(0), Some(""), Some("goal"), None),
            delta(Some(0), Some("a"), None, Some(":1}")),
            ToolCallDelta { index: Some(0), id: None, function: None },
        ]),
        vec![call("a", "get_goal", "{\"x\":1}")]
    );
}

#[test]
fn another_identifier_at_the_same_index_is_another_call() {
    assert_eq!(
        calls(vec![
            delta(Some(0), Some("a"), Some("f"), Some("1")),
            delta(Some(0), Some("b"), Some("g"), Some("2")),
            delta(Some(0), None, None, Some("3")),
            delta(Some(0), Some("a"), Some("h"), Some("4")),
        ]),
        vec![call("a", "f", "1"), call("b", "g", "23"), call("a", "h", "4")]
    );
}

#[test]
fn calls_at_other_indices_do_not_mix() {
    assert_eq!(
        calls(vec![
            delta(Some(5), Some("a"), Some("f"), None),
            delta(Some(2), Some("a"), Some("g"), None),
            delta(Some(5), None, None, Some("1")),
            delta(Some(2), None, None, Some("2")),
        ]),
        vec![call("a", "f", "1"), call("a", "g", "2")]
    );
}

#[test]
fn stray_pieces_are_passed_over() {
    assert_eq!(
        calls(vec![
            delta(Some(0), None, Some("f"), Some("1")),
            delta(Some(1), Some("a"), Some("g"), None),
            delta(Some(0), Some(""), Some("h"), None),
        ]),
        vec![call("a", "g", "")]
    );
}

#[test]
fn the_end_is_exact() {
    let mut turn = ChatTurn::new();
    turn.process_chunk_with(
        chunk(
            None,
            vec![choice(
                Some("text"),
                Some(vec![delta(None, Some("c1"), Some("f"), Some("{}"))]),
            )],
        ),
        "m1",
    );
    assert_eq!(turn.call_count(), 1);
    let told = finish_with(
        turn,
        &ToolReverseMap::new(),
        vec!["i1".to_owned()],
        "r1".to_owned(),
    );
    assert_eq!(told.len(), 4);
    assert!(matches!(
        &told[0],
        ResponseEvent::OutputItemDone(ResponseItem::Message { id: Some(id), content, .. })
            if id.as_str() == "m1" && matches!(
                &content[..],
                [ContentItem::OutputText { text }] if text == "text"
            )
    ));
    assert!(matches!(
        &told[1],
        ResponseEvent::OutputItemAdded(ResponseItem::FunctionCall { id: Some(id), .. })
            if id.as_str() == "i1"
    ));
    assert!(matches!(
        &told[2],
        ResponseEvent::OutputItemDone(ResponseItem::FunctionCall {
            id: Some(id),
            name,
            namespace: None,
            arguments,
            encrypted_function_args: None,
            call_id,
            internal_chat_message_metadata_passthrough: None,
        }) if id.as_str() == "i1" && name == "f" && arguments == "{}" && call_id == "c1"
    ));
    assert!(matches!(
        &told[3],
        ResponseEvent::Completed {
            response_id,
            token_usage: None,
            usage_metadata: None,
            end_turn: Some(false),
        } if response_id == "r1"
    ));
}

#[test]
fn a_call_leads_back_to_its_tool() {
    let tools = [
        Json::parse(r#"{"type":"function","name":"search","namespace":"web"}"#).unwrap(),
        Json::parse(r#"{"type":"function","name":"a__NS__b"}"#).unwrap(),
    ];
    let mut map = ToolReverseMap::new();
    translate_tools(&tools, &mut map).unwrap();
    let led_back = |name: &str| {
        let call = ToolCallBuilder {
            id: "c".to_owned(),
            name: name.to_owned(),
            arguments: String::new(),
        };
        match make_call_item(map.get(name), &Err(String::new()), call, "i".to_owned()) {
            ResponseItem::FunctionCall { name, namespace, .. } => (namespace, name),
            other => panic!("expected a function call, got {other:?}"),
        }
    };
    assert_eq!(led_back("web__NS__search"), (some("web"), "search".to_owned()));
    // A name that holds the separator is taken apart there, though it has no namespace.
    assert_eq!(led_back("a__NS__b"), (some("a"), "b".to_owned()));
    // A name that nobody registered is taken as it is.
    assert_eq!(led_back("x__NS__y"), (None, "x__NS__y".to_owned()));
}

#[test]
fn a_custom_call_takes_its_input_from_what_was_read() {
    let parsed = Ok(Json::parse(r#"{"input":"deep"}"#).unwrap());
    assert_eq!(extract_custom_input_from(&parsed, "raw"), "deep");
    assert_eq!(extract_custom_input_from(&Err("why".to_owned()), "raw"), "raw");
    let call = ToolCallBuilder {
        id: "c".to_owned(),
        name: "t".to_owned(),
        arguments: "raw".to_owned(),
    };
    match make_call_item(Some(&ToolKind::Custom), &parsed, call, "i".to_owned()) {
        ResponseItem::CustomToolCall { id: Some(id), status, call_id, name, namespace, input, .. } => {
            assert_eq!(id.as_str(), "i");
            assert_eq!(status, None);
            assert_eq!(call_id, "c");
            assert_eq!(name, "t");
            assert_eq!(namespace, None);
            assert_eq!(input, "deep");
        }
        other => panic!("expected a custom call, got {other:?}"),
    }
}
