//! The definitions of the `apply_patch` tool.

use vstd::prelude::*;
use vstd::string::*;

use crate::json::{Json, JsonView};
use crate::text::{join, replace, replaced};

verus! {

/// The format of a freeform tool's input.
#[derive(Debug)]
pub struct FreeformToolFormat {
    pub format_type: String,
    pub syntax: String,
    pub definition: String,
}

/// A tool whose input is free text.
#[derive(Debug)]
pub struct FreeformTool {
    pub name: String,
    pub description: String,
    pub defer_loading: Option<bool>,
    pub format: FreeformToolFormat,
}

/// Whether an object may have properties that its schema does not name.
#[derive(Debug)]
pub enum AdditionalProperties {
    Boolean(bool),
}

/// The schema of a JSON value.
#[derive(Debug)]
pub enum JsonSchema {
    String { description: Option<String> },
    Object {
        /// The properties, each name once.
        properties: Vec<(String, JsonSchema)>,
        required: Option<Vec<String>>,
        additional_properties: Option<AdditionalProperties>,
    },
}

/// A tool whose input is a JSON object.
#[derive(Debug)]
pub struct ResponsesApiTool {
    pub name: String,
    pub description: String,
    pub strict: bool,
    pub defer_loading: Option<bool>,
    pub parameters: JsonSchema,
    pub output_schema: Option<Json>,
}

/// The definition of a tool.
#[derive(Debug)]
pub enum ToolSpec {
    Freeform(FreeformTool),
    Function(ResponsesApiTool),
}

/// What a [`JsonSchema`] is.
pub enum SchemaView {
    String { description: Option<Seq<char>> },
    Object {
        properties: Map<Seq<char>, SchemaView>,
        required: Option<Seq<Seq<char>>>,
        additional_properties: Option<AdditionalProperties>,
    },
}

/// What a [`ToolSpec`] is.
#[allow(inconsistent_fields)]
pub enum ToolSpecView {
    Freeform {
        name: Seq<char>,
        description: Seq<char>,
        defer_loading: Option<bool>,
        format_type: Seq<char>,
        syntax: Seq<char>,
        definition: Seq<char>,
    },
    Function {
        name: Seq<char>,
        description: Seq<char>,
        strict: bool,
        defer_loading: Option<bool>,
        parameters: SchemaView,
        output_schema: Option<JsonView>,
    },
}

/// The properties that a list of entries makes up.
pub open spec fn properties_of(entries: Seq<(String, JsonSchema)>) -> Map<Seq<char>, SchemaView>
    decreases entries,
{
    if entries.len() == 0 {
        Map::empty()
    } else {
        properties_of(entries.drop_last()).insert(
            entries.last().0@,
            entries.last().1.deep_schema(),
        )
    }
}

impl JsonSchema {
    /// What this schema is.
    pub open spec fn deep_schema(&self) -> SchemaView
        decreases self,
    {
        match self {
            JsonSchema::String { description } => SchemaView::String {
                description: description.deep_view(),
            },
            JsonSchema::Object { properties, required, additional_properties } => {
                SchemaView::Object {
                    properties: properties_of(properties@),
                    required: required.deep_view(),
                    additional_properties: *additional_properties,
                }
            },
        }
    }
}

impl DeepView for ToolSpec {
    type V = ToolSpecView;

    open spec fn deep_view(&self) -> ToolSpecView {
        match self {
            ToolSpec::Freeform(tool) => ToolSpecView::Freeform {
                name: tool.name@,
                description: tool.description@,
                defer_loading: tool.defer_loading,
                format_type: tool.format.format_type@,
                syntax: tool.format.syntax@,
                definition: tool.format.definition@,
            },
            ToolSpec::Function(tool) => ToolSpecView::Function {
                name: tool.name@,
                description: tool.description@,
                strict: tool.strict,
                defer_loading: tool.defer_loading,
                parameters: tool.parameters.deep_schema(),
                output_schema: tool.output_schema.deep_view(),
            },
        }
    }
}

/// The rule of the grammar that a patch as a whole follows.
pub const START_RULE: &'static str = "start: begin_patch hunk+ end_patch";

/// The same rule for a patch that may name its environment, with the rule for that.
pub const START_RULE_WITH_ENVIRONMENT: &'static str =
    "start: begin_patch environment_id? hunk+ end_patch\nenvironment_id: \"*** Environment ID: \" filename LF";

/// What the freeform tool says of itself.
pub const APPLY_PATCH_FREEFORM_DESCRIPTION: &'static str =
    "The `apply_patch` tool can be used to edit files. This is a FREEFORM tool, so do not wrap the patch in JSON.";

/// The grammar of a patch.
pub open spec fn patch_grammar(grammar: Seq<char>, with_environment: bool) -> Seq<char> {
    if with_environment {
        replaced(grammar, START_RULE@, START_RULE_WITH_ENVIRONMENT@)
    } else {
        grammar
    }
}

/// Returns a custom tool that can be used to edit files. Its input follows `grammar`, a Lark grammar
/// of the patch envelope; where a session has several environments, the grammar lets a patch name
/// one.
pub fn create_apply_patch_freeform_tool(grammar: &str, include_environment_id: bool) -> (r: ToolSpec)
    ensures
        r.deep_view() == (ToolSpecView::Freeform {
            name: "apply_patch"@,
            description: APPLY_PATCH_FREEFORM_DESCRIPTION@,
            defer_loading: None,
            format_type: "grammar"@,
            syntax: "lark"@,
            definition: patch_grammar(grammar@, include_environment_id),
        }),
{
    let definition = if include_environment_id {
        proof {
            reveal_strlit("start: begin_patch hunk+ end_patch");
        }
        replace(grammar, START_RULE, START_RULE_WITH_ENVIRONMENT)
    } else {
        grammar.to_owned()
    };
    ToolSpec::Freeform(
        FreeformTool {
            name: "apply_patch".to_owned(),
            description: APPLY_PATCH_FREEFORM_DESCRIPTION.to_owned(),
            defer_loading: None,
            format: FreeformToolFormat {
                format_type: "grammar".to_owned(),
                syntax: "lark".to_owned(),
                definition,
            },
        },
    )
}

/// What the function tool says of itself.
pub const APPLY_PATCH_FUNCTION_DESCRIPTION: &'static str = "\
Apply one or more file changes using the Codex apply_patch envelope format. \
Pass the entire patch as a single string in the `input` field.

Patch format:
  *** Begin Patch
  [one or more hunks]
  *** End Patch

Supported hunk types:

  Add a new file:
    *** Add File: path/to/file.ext
    +line one
    +line two

  Update an existing file:
    *** Update File: path/to/file.ext
    @@ optional context description
    -old line
    +new line

  Delete a file:
    *** Delete File: path/to/file.ext

Lines prefixed with `+` are added; lines prefixed with `-` are removed; \
lines with no prefix are unchanged context lines. \
Multiple hunks of any type may appear between Begin Patch and End Patch.

Example:
  *** Begin Patch
  *** Add File: src/hello.rs
  +fn main() {
  +    println!(\"Hello, world!\");
  +}
  *** End Patch";

/// What it says besides where a session has several environments.
pub const ENVIRONMENT_NOTE: &'static str = "\n\n\
When working in a multi-environment session, begin the patch with \
`*** Environment ID: <id>` on the first line after *** Begin Patch.";

/// What the function tool's one parameter says of itself.
pub const INPUT_DESCRIPTION: &'static str =
    "The full apply_patch envelope, starting with *** Begin Patch and ending with *** End Patch.";

/// The description of the function tool.
pub open spec fn function_description(with_environment: bool) -> Seq<char> {
    if with_environment {
        APPLY_PATCH_FUNCTION_DESCRIPTION@ + ENVIRONMENT_NOTE@
    } else {
        APPLY_PATCH_FUNCTION_DESCRIPTION@
    }
}

/// The schema of the function tool: one required string, `input`, and nothing else.
pub open spec fn patch_schema() -> SchemaView {
    SchemaView::Object {
        properties: map![
            "input"@ => SchemaView::String { description: Some(INPUT_DESCRIPTION@) },
        ],
        required: Some(seq!["input"@]),
        additional_properties: Some(AdditionalProperties::Boolean(false)),
    }
}

/// Returns a standard JSON-schema function tool for apply_patch. Suitable for models that produce
/// OpenAI-style `tool_calls` JSON.
pub fn create_apply_patch_function_tool(include_environment_id: bool) -> (r: ToolSpec)
    ensures
        r.deep_view() == (ToolSpecView::Function {
            name: "apply_patch"@,
            description: function_description(include_environment_id),
            strict: false,
            defer_loading: None,
            parameters: patch_schema(),
            output_schema: None,
        }),
{
    let description = if include_environment_id {
        join(APPLY_PATCH_FUNCTION_DESCRIPTION, ENVIRONMENT_NOTE)
    } else {
        APPLY_PATCH_FUNCTION_DESCRIPTION.to_owned()
    };
    let input = JsonSchema::String { description: Some(INPUT_DESCRIPTION.to_owned()) };
    let mut properties: Vec<(String, JsonSchema)> = Vec::new();
    properties.push(("input".to_owned(), input));
    assert(properties@.drop_last() =~= Seq::<(String, JsonSchema)>::empty());
    let mut required: Vec<String> = Vec::new();
    required.push("input".to_owned());
    assert(required.deep_view() =~= seq!["input"@]);
    let parameters = JsonSchema::Object {
        properties,
        required: Some(required),
        additional_properties: Some(AdditionalProperties::Boolean(false)),
    };
    proof {
        reveal_with_fuel(properties_of, 2);
        reveal_with_fuel(JsonSchema::deep_schema, 2);
        assert(properties_of(properties@) =~= patch_schema()->properties);
    }
    ToolSpec::Function(
        ResponsesApiTool {
            name: "apply_patch".to_owned(),
            description,
            strict: false,
            defer_loading: None,
            parameters,
            output_schema: None,
        },
    )
}

} // verus!
