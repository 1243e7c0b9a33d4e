//! Calls that a model wrote into its text.

use chat_completions::xml_calls::{parse_xml_parameters, parse_xml_tool_calls};

/// The calls in a text, as names and arguments.
fn calls(text: &str) -> Vec<(String, String)> {
    parse_xml_tool_calls(text).into_iter().map(|call| (call.name, call.arguments)).collect()
}

/// One call.
fn call(name: &str, arguments: &str) -> (String, String) {
    (name.to_owned(), arguments.to_owned())
}

#[test]
fn parse_xml_two_function_blocks() {
    let text = "<function=tool_a>\n<parameter=x>\nvalue_x\n</parameter>\n</function>\n\
                <function=tool_b>\n<parameter=y>\nvalue_y\n</parameter>\n</function>\n";
    let calls = parse_xml_tool_calls(text);
    assert_eq!(calls.len(), 2);
    assert_eq!(calls[0].name, "tool_a");
    assert_eq!(calls[1].name, "tool_b");

    let a: serde_json::Value = serde_json::from_str(&calls[0].arguments).unwrap();
    assert_eq!(a["x"], "value_x");
    let b: serde_json::Value = serde_json::from_str(&calls[1].arguments).unwrap();
    assert_eq!(b["y"], "value_y");
}

#[test]
fn parse_xml_prose_and_stray_tags() {
    let text = "I'll create the file for you.\n<function=apply_patch>\n<parameter=input>\n\
                *** Begin Patch\n*** Add File: hello.txt\n+hello world\n*** End Patch\n\
                </parameter>\n</function>\n</tool_call>\n";
    let calls = parse_xml_tool_calls(text);
    assert_eq!(calls.len(), 1);
    assert_eq!(calls[0].name, "apply_patch");

    let v: serde_json::Value = serde_json::from_str(&calls[0].arguments).unwrap();
    let input = v["input"].as_str().unwrap();
    assert!(input.contains("*** Begin Patch"), "patch envelope must be preserved");
    assert!(input.contains("+hello world"), "patch content must be preserved");
    assert!(input.contains('\n'), "internal newlines must be kept");
}

#[test]
fn plain_text_makes_no_calls() {
    assert_eq!(calls(""), vec![]);
    assert_eq!(calls("a < b, <functional=x>, function=y></function>"), vec![]);
}

#[test]
fn names_and_keys_are_trimmed() {
    assert_eq!(
        calls("<function=\t f \u{3000}>< /x><parameter= k >v</parameter></function>"),
        vec![call("f", "{\"k\":\"v\"}")]
    );
}

#[test]
fn a_call_without_parameters_has_an_empty_object() {
    assert_eq!(calls("<function=f></function>"), vec![call("f", "{}")]);
}

#[test]
fn a_call_without_a_name_is_left_out() {
    assert_eq!(
        calls("<function= ><parameter=a>1</parameter></function><function=g></function>"),
        vec![call("g", "{}")]
    );
    // The name runs to the first `>`, here to that of the next tag.
    assert_eq!(calls("<function=<function=h></function>"), vec![call("<function=h", "{}")]);
}

#[test]
fn a_call_that_is_not_closed_ends_the_list() {
    assert_eq!(
        calls("<function=a></function><function=b><parameter=x>1</parameter>"),
        vec![call("a", "{}")]
    );
    assert_eq!(calls("<function=a></function><function=b"), vec![call("a", "{}")]);
    // The body runs to the next closing tag, and takes the opening of another call with it.
    assert_eq!(
        calls("<function=a><function=b><parameter=x>1</parameter></function>"),
        vec![call("a", "{\"x\":\"1\"}")]
    );
}

#[test]
fn exactly_one_newline_is_stripped_on_each_side() {
    let value = |raw: &str| {
        let found = calls(&format!("<function=f><parameter=v>{raw}</parameter></function>"));
        let arguments: serde_json::Value = serde_json::from_str(&found[0].1).unwrap();
        arguments["v"].as_str().unwrap().to_owned()
    };
    assert_eq!(value("\n\n  a\n b \n\n"), "\n  a\n b \n");
    assert_eq!(value("a"), "a");
    assert_eq!(value("\na"), "a");
    assert_eq!(value("a\n"), "a");
    assert_eq!(value("\n"), "");
    assert_eq!(value("\n\n"), "");
    assert_eq!(value(""), "");
    assert_eq!(value("\r\na\r\n"), "\r\na\r");
    assert_eq!(value("say \"hi\" \\ \u{e9}"), "say \"hi\" \\ \u{e9}");
}

#[test]
fn parameters_are_read_to_the_first_that_is_not_closed() {
    assert_eq!(
        calls(
            "<function=f><parameter=b>1</parameter> and <parameter=a>2</parameter>\
             <parameter=>3</parameter><parameter=b>4</parameter><parameter=c>5</function>"
        ),
        vec![call("f", "{\"a\":\"2\",\"b\":\"4\"}")]
    );
    let found = parse_xml_parameters("<parameter=a>1</parameter><parameter=b");
    assert_eq!(found.get("a").and_then(|value| value.as_str()), Some("1"));
    assert!(found.get("b").is_none());
}
