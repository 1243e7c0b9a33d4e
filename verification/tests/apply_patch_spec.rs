//! The definitions of the `apply_patch` tool.

use chat_completions::apply_patch_spec::{AdditionalProperties, JsonSchema, ToolSpec};
use chat_completions::{create_apply_patch_freeform_tool, create_apply_patch_function_tool};

const GRAMMAR: &str = "start: begin_patch hunk+ end_patch\nbegin_patch: \"*** Begin Patch\" LF\n";

/// The definition of the freeform tool's input.
fn definition(grammar: &str, with_environment: bool) -> String {
    match create_apply_patch_freeform_tool(grammar, with_environment) {
        ToolSpec::Freeform(tool) => {
            assert_eq!(tool.name, "apply_patch");
            assert_eq!(
                tool.description,
                "The `apply_patch` tool can be used to edit files. This is a FREEFORM tool, so do not wrap the patch in JSON."
            );
            assert_eq!(tool.defer_loading, None);
            assert_eq!(tool.format.format_type, "grammar");
            assert_eq!(tool.format.syntax, "lark");
            tool.format.definition
        }
        other => panic!("expected a freeform tool, got {other:?}"),
    }
}

#[test]
fn the_freeform_tool_follows_the_grammar() {
    assert_eq!(definition(GRAMMAR, false), GRAMMAR);
    assert_eq!(definition("", true), "");
}

#[test]
fn with_environments_a_patch_may_name_one() {
    let rule = "start: begin_patch environment_id? hunk+ end_patch\nenvironment_id: \"*** Environment ID: \" filename LF";
    assert_eq!(
        definition(GRAMMAR, true),
        format!("{rule}\nbegin_patch: \"*** Begin Patch\" LF\n")
    );
    assert_eq!(
        definition("start: begin_patch hunk+ end_patchstart: begin_patch hunk+ end_patch", true),
        format!("{rule}{rule}")
    );
    assert_eq!(definition("start: other", true), "start: other");
}

#[test]
fn the_function_tool_takes_one_string() {
    match create_apply_patch_function_tool(false) {
        ToolSpec::Function(tool) => {
            assert_eq!(tool.name, "apply_patch");
            assert!(!tool.strict);
            assert_eq!(tool.defer_loading, None);
            assert!(tool.output_schema.is_none());
            assert!(tool.description.starts_with(
                "Apply one or more file changes using the Codex apply_patch envelope format. Pass the entire patch as a single string in the `input` field.\n\nPatch format:\n  *** Begin Patch\n"
            ));
            assert!(tool.description.ends_with(
                "Example:\n  *** Begin Patch\n  *** Add File: src/hello.rs\n  +fn main() {\n  +    println!(\"Hello, world!\");\n  +}\n  *** End Patch"
            ));
            match tool.parameters {
                JsonSchema::Object { properties, required, additional_properties } => {
                    assert_eq!(properties.len(), 1);
                    assert_eq!(properties[0].0, "input");
                    assert!(matches!(
                        &properties[0].1,
                        JsonSchema::String { description: Some(text) } if text
                            == "The full apply_patch envelope, starting with *** Begin Patch and ending with *** End Patch."
                    ));
                    assert_eq!(required, Some(vec!["input".to_owned()]));
                    assert!(matches!(
                        additional_properties,
                        Some(AdditionalProperties::Boolean(false))
                    ));
                }
                other => panic!("expected an object, got {other:?}"),
            }
        }
        other => panic!("expected a function tool, got {other:?}"),
    }
}

#[test]
fn with_environments_the_function_tool_says_so() {
    let description = |with_environment: bool| match create_apply_patch_function_tool(
        with_environment,
    ) {
        ToolSpec::Function(tool) => tool.description,
        other => panic!("expected a function tool, got {other:?}"),
    };
    assert_eq!(
        description(true),
        format!(
            "{}\n\nWhen working in a multi-environment session, begin the patch with `*** Environment ID: <id>` on the first line after *** Begin Patch.",
            description(false)
        )
    );
}
