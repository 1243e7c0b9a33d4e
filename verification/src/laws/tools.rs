//! Tools go over the wire, and the calls of them come back.

use vstd::prelude::*;

use crate::json::{read, reads_as, JsonView};
use crate::laws::names::{
    law_decoding_undoes_encoding, law_names_are_taken_apart_at_the_first_separator, unambiguous,
};
use crate::protocol::ItemView;
use crate::request::custom_arguments;
use crate::laws::text::{law_texts_are_cut_at_the_first_pattern, stands_at};
use crate::laws::xml::absent;
use crate::response::{call_item, custom_input};
use crate::text::{lemma_position, position};
use crate::tool_map::{
    decoded, encoded, function_namespace, tool_step, translated, KindView, ToolStep, NS_SEP,
};
use crate::turn::CallView;

verus! {

/// A tool that goes over the wire.
pub struct Declaration {
    /// The name that it goes by there.
    pub name: Seq<char>,
    /// What it is.
    pub kind: KindView,
    /// How it is defined there.
    pub definition: JsonView,
}

/// A call of a function tool as an item: by its own identifier, with the call's arguments and
/// identifier as they are, and nothing else.
pub open spec fn call_of_function(
    item_id: Seq<char>,
    name: Seq<char>,
    namespace: Option<Seq<char>>,
    call: CallView,
) -> ItemView {
    ItemView::FunctionCall {
        id: Some(item_id),
        name,
        namespace,
        arguments: call.arguments,
        encrypted_function_args: None,
        call_id: call.id,
        internal_chat_message_metadata_passthrough: None,
    }
}

/// The text of the member `input` where arguments are read as an object that has it, and else the
/// arguments as they are.
pub open spec fn input_in(arguments: Seq<char>) -> Seq<char> {
    match read(arguments) {
        Ok(JsonView::Object(members)) => if members.dom().contains("input"@) {
            match members["input"@] {
                JsonView::String(input) => input,
                _ => arguments,
            }
        } else {
            arguments
        },
        _ => arguments,
    }
}

/// The tools of a list that go over the wire, in their order.
pub open spec fn declarations(tools: Seq<JsonView>) -> Seq<Declaration>
    decreases tools.len(),
{
    if tools.len() == 0 {
        Seq::empty()
    } else {
        let rest = declarations(tools.drop_first());
        match tool_step(tools.first()) {
            ToolStep::Declared { name, kind, definition } => seq![
                Declaration { name, kind, definition },
            ] + rest,
            _ => rest,
        }
    }
}

/// The definitions of tools that go over the wire.
pub open spec fn definitions(declared: Seq<Declaration>) -> Seq<JsonView> {
    Seq::new(declared.len(), |i: int| declared[i].definition)
}

/// None of these tools goes by the name of another, or by one that is taken.
pub open spec fn apart(declared: Seq<Declaration>, taken: Set<Seq<char>>) -> bool {
    &&& forall|i: int|
        0 <= i < declared.len() ==> !taken.contains((#[trigger] declared[i]).name)
    &&& forall|i: int, j: int|
        0 <= i < j < declared.len() ==> (#[trigger] declared[i]).name != (
        #[trigger] declared[j]).name
}

/// No tool of the list is malformed.
pub open spec fn all_sound(tools: Seq<JsonView>) -> bool {
    forall|i: int| 0 <= i < tools.len() ==> tool_step(#[trigger] tools[i]) !is Faulty
}

/// A list of tools is translated exactly if none of them is malformed and all that go over the
/// wire go there by names of their own.
pub proof fn law_only_faults_and_collisions_are_refused(
    tools: Seq<JsonView>,
    map: Map<Seq<char>, KindView>,
)
    ensures
        translated(tools, map).0 is Ok <==> all_sound(tools) && apart(
            declarations(tools),
            map.dom(),
        ),
    decreases tools.len(),
{
    if tools.len() > 0 {
        let rest = tools.drop_first();
        let sound = all_sound(rest);
        assert(all_sound(tools) <==> tool_step(tools[0]) !is Faulty && sound) by {
            if all_sound(tools) {
                assert forall|i: int| 0 <= i < rest.len() implies tool_step(
                    #[trigger] rest[i],
                ) !is Faulty by {
                    assert(rest[i] == tools[i + 1]);
                }
            }
            if tool_step(tools[0]) !is Faulty && sound {
                assert forall|i: int| 0 <= i < tools.len() implies tool_step(
                    #[trigger] tools[i],
                ) !is Faulty by {
                    if i > 0 {
                        assert(tools[i] == rest[i - 1]);
                    }
                }
            }
        }
        match tool_step(tools.first()) {
            ToolStep::Skipped => {
                law_only_faults_and_collisions_are_refused(rest, map);
            },
            ToolStep::Faulty(_) => {},
            ToolStep::Declared { name, kind, definition } => {
                let later = declarations(rest);
                let all = declarations(tools);
                let first = Declaration { name, kind, definition };
                assert(all == seq![first] + later);
                law_only_faults_and_collisions_are_refused(rest, map.insert(name, kind));
                assert(apart(all, map.dom()) <==> !map.dom().contains(name) && apart(
                    later,
                    map.insert(name, kind).dom(),
                )) by {
                    lemma_apart(first, later, map.dom());
                    assert(map.insert(name, kind).dom() =~= map.dom().insert(name));
                }
            },
        }
    }
}

/// A tool and others are apart if it goes by a free name and they by none that is then taken.
proof fn lemma_apart(first: Declaration, later: Seq<Declaration>, taken: Set<Seq<char>>)
    ensures
        apart(seq![first] + later, taken) <==> !taken.contains(first.name) && apart(
            later,
            taken.insert(first.name),
        ),
{
    let all = seq![first] + later;
    assert(all[0] == first);
    assert(forall|i: int| 0 <= i < later.len() ==> #[trigger] later[i] == all[i + 1]);
    if apart(all, taken) {
        assert forall|i: int| 0 <= i < later.len() implies !taken.insert(first.name).contains(
            (#[trigger] later[i]).name,
        ) by {
            assert(all[0].name != all[i + 1].name);
        }
        assert forall|i: int, j: int| 0 <= i < j < later.len() implies (
        #[trigger] later[i]).name != (#[trigger] later[j]).name by {
            assert(all[i + 1].name != all[j + 1].name);
        }
    }
    if !taken.contains(first.name) && apart(later, taken.insert(first.name)) {
        assert forall|i: int| 0 <= i < all.len() implies !taken.contains(
            (#[trigger] all[i]).name,
        ) by {
            if i > 0 {
                assert(all[i] == later[i - 1]);
            }
        }
        assert forall|i: int, j: int| 0 <= i < j < all.len() implies (#[trigger] all[i]).name != (
        #[trigger] all[j]).name by {
            assert(all[j] == later[j - 1]);
            if i > 0 {
                assert(all[i] == later[i - 1]);
            }
        }
    }
}

/// A list of tools that is translated comes out as the definitions of those that go over the wire,
/// in their order, and leaves each of their names in the map, with what it stands for.
pub proof fn law_every_tool_is_defined_and_registered(
    tools: Seq<JsonView>,
    map: Map<Seq<char>, KindView>,
)
    requires
        translated(tools, map).0 is Ok,
    ensures
        translated(tools, map).0->Ok_0 == definitions(declarations(tools)),
        forall|i: int|
            0 <= i < declarations(tools).len() ==> translated(tools, map).1.contains_pair(
                (#[trigger] declarations(tools)[i]).name,
                declarations(tools)[i].kind,
            ),
    decreases tools.len(),
{
    if tools.len() == 0 {
        assert(definitions(declarations(tools)) =~= Seq::<JsonView>::empty());
    } else {
        let rest = tools.drop_first();
        if let ToolStep::Declared { name, kind, definition } = tool_step(tools.first()) {
            let first = Declaration { name, kind, definition };
            let after = translated(tools, map).1;
            law_every_tool_is_defined_and_registered(rest, map.insert(name, kind));
            law_the_map_only_grows(rest, map.insert(name, kind));
            let all = declarations(tools);
            assert(all == seq![first] + declarations(rest));
            assert(definitions(all) =~= seq![definition] + definitions(declarations(rest)));
            assert forall|i: int| 0 <= i < all.len() implies after.contains_pair(
                (#[trigger] all[i]).name,
                all[i].kind,
            ) by {
                if i == 0 {
                    assert(map.insert(name, kind).contains_pair(name, kind));
                } else {
                    assert(all[i] == declarations(rest)[i - 1]);
                }
            }
        } else {
            law_every_tool_is_defined_and_registered(rest, map);
        }
    }
}

/// One of these tools is a tool of this name and kind.
pub open spec fn declared_as(declared: Seq<Declaration>, name: Seq<char>, kind: KindView) -> bool {
    exists|i: int|
        0 <= i < declared.len() && (#[trigger] declared[i]).name == name && declared[i].kind == kind
}

/// Translating tools, whether it succeeds or not, leaves what the map held as it was, and adds
/// nothing to it but tools of the list.
pub proof fn law_the_map_only_grows(tools: Seq<JsonView>, map: Map<Seq<char>, KindView>)
    ensures
        forall|name: Seq<char>, kind: KindView| #[trigger]
            map.contains_pair(name, kind) ==> translated(tools, map).1.contains_pair(name, kind),
        forall|name: Seq<char>, kind: KindView| #[trigger]
            translated(tools, map).1.contains_pair(name, kind) ==> map.contains_pair(name, kind)
                || declared_as(declarations(tools), name, kind),
    decreases tools.len(),
{
    if tools.len() > 0 {
        let rest = tools.drop_first();
        let all = declarations(tools);
        let after = translated(tools, map).1;
        match tool_step(tools.first()) {
            ToolStep::Skipped => {
                law_the_map_only_grows(rest, map);
                assert(after == translated(rest, map).1);
                assert(all == declarations(rest));
            },
            ToolStep::Faulty(_) => {},
            ToolStep::Declared { name: first, kind: what, definition } => if !map.dom().contains(
                first,
            ) {
                let grown = map.insert(first, what);
                let later = declarations(rest);
                law_the_map_only_grows(rest, grown);
                assert(all == seq![Declaration { name: first, kind: what, definition }] + later);
                assert forall|name: Seq<char>, kind: KindView| #[trigger]
                    map.contains_pair(name, kind) implies after.contains_pair(name, kind) by {
                    assert(grown.contains_pair(name, kind));
                }
                assert forall|name: Seq<char>, kind: KindView| #[trigger]
                    after.contains_pair(name, kind) implies map.contains_pair(name, kind)
                    || declared_as(all, name, kind) by {
                    assert(translated(rest, grown).1.contains_pair(name, kind));
                    if declared_as(later, name, kind) {
                        let i = choose|i: int|
                            0 <= i < later.len() && (#[trigger] later[i]).name == name
                                && later[i].kind == kind;
                        assert(all[i + 1] == later[i]);
                    } else if name == first {
                        assert(grown.contains_pair(name, kind));
                        assert(all[0].name == name && all[0].kind == kind);
                    } else {
                        assert(grown.contains_pair(name, kind));
                        assert(map.contains_pair(name, kind));
                    }
                }
            },
        }
    }
}

/// Each tool of a list that goes over the wire is among its declarations.
proof fn lemma_declared(tools: Seq<JsonView>, at: int)
    requires
        0 <= at < tools.len(),
        tool_step(tools[at]) is Declared,
    ensures
        exists|i: int|
            0 <= i < declarations(tools).len() && ({
                let declared = #[trigger] declarations(tools)[i];
                tool_step(tools[at]) == ToolStep::Declared {
                    name: declared.name,
                    kind: declared.kind,
                    definition: declared.definition,
                }
            }),
    decreases tools.len(),
{
    let rest = tools.drop_first();
    let all = declarations(tools);
    if at == 0 {
        let declared = all[0];
        assert(tool_step(tools[at]) == ToolStep::Declared {
            name: declared.name,
            kind: declared.kind,
            definition: declared.definition,
        });
    } else {
        assert(rest[at - 1] == tools[at]);
        lemma_declared(rest, at - 1);
        let later = declarations(rest);
        let i = choose|i: int|
            0 <= i < later.len() && ({
                let declared = #[trigger] later[i];
                tool_step(rest[at - 1]) == ToolStep::Declared {
                    name: declared.name,
                    kind: declared.kind,
                    definition: declared.definition,
                }
            });
        if tool_step(tools.first()) is Declared {
            assert(all[i + 1] == later[i]);
        } else {
            assert(all[i] == later[i]);
        }
    }
}

/// A tool of a translated list is in the map under the name that it goes by.
proof fn lemma_registered(tools: Seq<JsonView>, map: Map<Seq<char>, KindView>, at: int)
    requires
        translated(tools, map).0 is Ok,
        0 <= at < tools.len(),
        tool_step(tools[at]) is Declared,
    ensures
        translated(tools, map).1.contains_pair(
            tool_step(tools[at])->name,
            tool_step(tools[at])->kind,
        ),
{
    lemma_declared(tools, at);
    law_every_tool_is_defined_and_registered(tools, map);
    let all = declarations(tools);
    let i = choose|i: int|
        0 <= i < all.len() && ({
            let declared = #[trigger] all[i];
            tool_step(tools[at]) == ToolStep::Declared {
                name: declared.name,
                kind: declared.kind,
                definition: declared.definition,
            }
        });
    assert(translated(tools, map).1.contains_pair(all[i].name, all[i].kind));
}

/// Where the tools of a request are translated, a call of a function tool under the name that it
/// went by comes back as a call of that function in its namespace, exactly where the separator does
/// not get in the way of its name.
pub proof fn law_calls_lead_back_to_functions(
    tools: Seq<JsonView>,
    map: Map<Seq<char>, KindView>,
    at: int,
    name: Seq<char>,
    call: CallView,
    item_id: Seq<char>,
)
    requires
        translated(tools, map).0 is Ok,
        0 <= at < tools.len(),
        tools[at].text_member("type"@) == Some("function"@),
        tools[at].text_member("name"@) == Some(name),
        call.name == encoded(function_namespace(tools[at]), name),
    ensures
        call_item(translated(tools, map).1, call, item_id) == call_of_function(
            item_id,
            name,
            function_namespace(tools[at]),
            call,
        ) <==> unambiguous(function_namespace(tools[at]), name),
{
    let namespace = function_namespace(tools[at]);
    lemma_registered(tools, map, at);
    law_decoding_undoes_encoding(namespace, name);
    reveal_strlit("__NS__");
    lemma_position(call.name, NS_SEP@);
    if !unambiguous(namespace, name) {
        let cut = position(call.name, NS_SEP@)->0;
        if decoded(call.name).1 == name {
            assert(call.name.skip(cut + NS_SEP@.len()).len() == name.len());
            if let Some(ns) = namespace {
                assert(cut == ns.len());
                assert(call.name.take(cut) =~= ns);
            }
        }
    }
}

/// Where the tools of a request are translated, a call of a custom tool comes back as a call of
/// that tool, with the input that its arguments hold, or with the arguments as they are where they
/// hold none.
pub proof fn law_calls_lead_back_to_custom_tools(
    tools: Seq<JsonView>,
    map: Map<Seq<char>, KindView>,
    at: int,
    call: CallView,
    item_id: Seq<char>,
)
    requires
        translated(tools, map).0 is Ok,
        0 <= at < tools.len(),
        tools[at].text_member("type"@) == Some("custom"@),
        tools[at].text_member("name"@) == Some(call.name),
    ensures
        call_item(translated(tools, map).1, call, item_id) == (ItemView::CustomToolCall {
            id: Some(item_id),
            status: None,
            call_id: call.id,
            name: call.name,
            namespace: None,
            input: input_in(call.arguments),
            internal_chat_message_metadata_passthrough: None,
        }),
{
    reveal_strlit("function");
    reveal_strlit("custom");
    assert("function"@ != "custom"@) by {
        assert("function"@.len() != "custom"@.len());
    }
    lemma_registered(tools, map, at);
}

/// The input of a custom tool that was wrapped for the wire is what comes out of the arguments
/// again.
pub proof fn law_custom_input_comes_back(input: Seq<char>, arguments: Seq<char>)
    requires
        reads_as(arguments, custom_arguments(input)),
    ensures
        custom_input(read(arguments), arguments) == input,
        input_in(arguments) == input,
{
}

/// A call of a name that nobody registered comes back as a call of a function of exactly that name,
/// in no namespace.
pub proof fn law_unknown_names_are_functions(
    tools: Map<Seq<char>, KindView>,
    call: CallView,
    item_id: Seq<char>,
)
    requires
        !tools.dom().contains(call.name),
    ensures
        call_item(tools, call, item_id) == call_of_function(item_id, call.name, None, call),
{
}

/// A namespace that is not empty, if there is one.
pub open spec fn namespace_of(registered: Option<Seq<char>>, in_name: Seq<char>) -> Option<
    Seq<char>,
> {
    let namespace = match registered {
        Some(ns) => ns,
        None => in_name,
    };
    if namespace.len() > 0 {
        Some(namespace)
    } else {
        None
    }
}

/// A call of a name that is registered as a function comes back as a call of a function. Where the
/// separator stands in the name, what is behind the first one is the function's name, and else all of
/// it; the namespace is the one that is registered, or else what stands before the separator, unless
/// that is empty.
pub proof fn law_registered_names_are_taken_apart(
    tools: Map<Seq<char>, KindView>,
    call: CallView,
    item_id: Seq<char>,
    registered: Option<Seq<char>>,
    before: Seq<char>,
    name: Seq<char>,
)
    requires
        tools.contains_pair(call.name, KindView::Function { namespace: registered }),
        call.name == name && before.len() == 0 && absent(name, "__NS__"@) || call.name == before
            + "__NS__"@ + name && forall|i: int|
            0 <= i < before.len() ==> !#[trigger] stands_at(call.name, "__NS__"@, i),
    ensures
        call_item(tools, call, item_id) == call_of_function(
            item_id,
            name,
            namespace_of(registered, before),
            call,
        ),
{
    law_names_are_taken_apart_at_the_first_separator(call.name);
    law_texts_are_cut_at_the_first_pattern(call.name, "__NS__"@);
    reveal_strlit("__NS__");
    if call.name == before + "__NS__"@ + name && forall|i: int|
        0 <= i < before.len() ==> !#[trigger] stands_at(call.name, "__NS__"@, i) {
        assert(stands_at(call.name, "__NS__"@, before.len() as int));
        let (ns, rest) = (decoded(call.name).0->0, decoded(call.name).1);
        assert(stands_at(call.name, "__NS__"@, ns.len() as int));
        assert(ns.len() == before.len());
        assert(ns =~= call.name.take(ns.len() as int));
        assert(before =~= call.name.take(before.len() as int));
        assert(rest =~= call.name.skip(ns.len() as int + 6));
        assert(name =~= call.name.skip(before.len() as int + 6));
    } else if let Some(ns) = decoded(call.name).0 {
        assert(stands_at(call.name, "__NS__"@, ns.len() as int));
    }
}

} // verus!
