//! What the definitions of the `apply_patch` tool say.

use vstd::prelude::*;

use crate::apply_patch_spec::{
    function_description, patch_grammar, patch_schema, AdditionalProperties, SchemaView,
};
use crate::laws::text::{law_every_pattern_is_replaced, law_nothing_else_is_replaced, stands_at};

verus! {

/// Without environments the grammar is as it was given.
pub proof fn law_the_grammar_is_as_given(grammar: Seq<char>)
    ensures
        patch_grammar(grammar, false) == grammar,
{
}

/// With environments a grammar without the start rule is still as it was given.
pub proof fn law_other_grammars_are_as_given(grammar: Seq<char>)
    requires
        forall|i: int| !#[trigger] stands_at(grammar, "start: begin_patch hunk+ end_patch"@, i),
    ensures
        patch_grammar(grammar, true) == grammar,
{
    reveal_strlit("start: begin_patch hunk+ end_patch");
    law_nothing_else_is_replaced(
        grammar,
        "start: begin_patch hunk+ end_patch"@,
        "start: begin_patch environment_id? hunk+ end_patch\nenvironment_id: \"*** Environment ID: \" filename LF"@,
    );
}

/// With environments the start rule lets a patch name one, wherever the rule stands; what stands
/// before it is as it was given, and so it goes on behind it.
pub proof fn law_patches_may_name_an_environment(before: Seq<char>, after: Seq<char>)
    requires
        forall|i: int|
            0 <= i < before.len() ==> !#[trigger] stands_at(
                before + "start: begin_patch hunk+ end_patch"@,
                "start: begin_patch hunk+ end_patch"@,
                i,
            ),
    ensures
        patch_grammar(before + "start: begin_patch hunk+ end_patch"@ + after, true) == before
            + "start: begin_patch environment_id? hunk+ end_patch\nenvironment_id: \"*** Environment ID: \" filename LF"@
            + patch_grammar(after, true),
{
    reveal_strlit("start: begin_patch hunk+ end_patch");
    law_every_pattern_is_replaced(
        before,
        "start: begin_patch hunk+ end_patch"@,
        after,
        "start: begin_patch environment_id? hunk+ end_patch\nenvironment_id: \"*** Environment ID: \" filename LF"@,
    );
}

/// The function tool describes the envelope of a patch, every kind of hunk, and an example.
pub proof fn law_the_description_explains_patches()
    ensures
        function_description(false) == "\
Apply one or more file changes using the Codex apply_patch envelope format. \
Pass the entire patch as a single string in the `input` field.

Patch format:
  *** Begin Patch
  [one or more hunks]
  *** End Patch

Supported hunk types:

  Add a new file:
    *** Add File: path/to/file.ext
    +line one
    +line two

  Update an existing file:
    *** Update File: path/to/file.ext
    @@ optional context description
    -old line
    +new line

  Delete a file:
    *** Delete File: path/to/file.ext

Lines prefixed with `+` are added; lines prefixed with `-` are removed; \
lines with no prefix are unchanged context lines. \
Multiple hunks of any type may appear between Begin Patch and End Patch.

Example:
  *** Begin Patch
  *** Add File: src/hello.rs
  +fn main() {
  +    println!(\"Hello, world!\");
  +}
  *** End Patch"@,
{
}

/// With environments the description of the function tool is what it is without them, and behind
/// that how a patch names one.
pub proof fn law_the_description_names_environments()
    ensures
        function_description(true) == function_description(false)
            + "\n\nWhen working in a multi-environment session, begin the patch with `*** Environment ID: <id>` on the first line after *** Begin Patch."@,
{
}

/// The function tool takes an object with one string, `input`, which is required, and nothing else.
pub proof fn law_the_function_tool_takes_one_string()
    ensures
        patch_schema() matches SchemaView::Object { properties, required, additional_properties }
            && ({
            &&& properties.dom() == set!["input"@]
            &&& properties["input"@] == (SchemaView::String {
                description: Some(
                    "The full apply_patch envelope, starting with *** Begin Patch and ending with *** End Patch."@,
                ),
            })
            &&& required == Some(seq!["input"@])
            &&& additional_properties == Some(AdditionalProperties::Boolean(false))
        }),
{
    assert(patch_schema()->properties.dom() =~= set!["input"@]);
}

} // verus!
