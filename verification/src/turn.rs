//! Gathering the text and the tool calls of a response from its pieces.

use std::collections::HashMap;

use vstd::prelude::*;
use vstd::string::*;

use crate::chunk::{
    CallDeltaView, ChatChoice, ChatChunk, ChoiceView, ChunkView, FunctionDelta, FunctionDeltaView,
    ToolCallDelta,
};
use crate::ids::{fresh_id, lemma_sample_uuid_text, sample_uuid_text, uuid_text};
use crate::protocol::{
    ContentItem, ContentView, EventView, ItemView, ResponseEvent, ResponseItem, ResponseItemId,
};
use crate::text::same;

verus! {

/// A tool call as far as it has come.
#[derive(Debug)]
pub struct ToolCallBuilder {
    pub id: String,
    pub name: String,
    pub arguments: String,
}

/// What a [`ToolCallBuilder`] holds.
pub struct CallView {
    pub id: Seq<char>,
    pub name: Seq<char>,
    pub arguments: Seq<char>,
}

impl DeepView for ToolCallBuilder {
    type V = CallView;

    open spec fn deep_view(&self) -> CallView {
        CallView { id: self.id@, name: self.name@, arguments: self.arguments@ }
    }
}

/// What has been gathered from the chunks of a response.
pub struct TurnView {
    /// The identifier of the message, once there is text.
    pub text_id: Option<Seq<char>>,
    /// The text so far.
    pub text: Seq<char>,
    /// The tool calls, in the order in which they were started.
    pub calls: Seq<CallView>,
    /// For each `index` of the wire the position of the call that was last started there.
    pub slots: Map<usize, nat>,
    /// The identifier of the response.
    pub stream_id: Option<Seq<char>>,
    /// Why the model stopped, once it says so.
    pub finish_reason: Option<Seq<char>>,
}

/// Before the first chunk.
pub open spec fn empty_turn() -> TurnView {
    TurnView {
        text_id: None,
        text: Seq::empty(),
        calls: Seq::empty(),
        slots: Map::empty(),
        stream_id: None,
        finish_reason: None,
    }
}

/// A text that may be missing, an empty one for a missing one.
pub open spec fn or_empty(text: Option<Seq<char>>) -> Seq<char> {
    match text {
        Some(text) => text,
        None => Seq::empty(),
    }
}

/// Whether a delta starts a new call: it carries an identifier, and the call last started at its
/// index, if there is one, has another.
pub open spec fn starts_call(turn: TurnView, index: usize, id: Seq<char>) -> bool {
    &&& id.len() > 0
    &&& !(turn.slots.dom().contains(index) && turn.calls[turn.slots[index] as int].id == id)
}

/// `turn` with a new call at an index.
pub open spec fn with_new_call(turn: TurnView, index: usize, id: Seq<char>) -> TurnView {
    TurnView {
        calls: turn.calls.push(CallView { id, name: Seq::empty(), arguments: Seq::empty() }),
        slots: turn.slots.insert(index, turn.calls.len()),
        ..turn
    }
}

/// A call with what a delta adds to it.
pub open spec fn extended(call: CallView, function: Option<FunctionDeltaView>) -> CallView {
    match function {
        Some(function) => CallView {
            id: call.id,
            name: call.name + or_empty(function.name),
            arguments: call.arguments + or_empty(function.arguments),
        },
        None => call,
    }
}

/// `turn` with what a delta adds to the call last started at an index, if there is one.
pub open spec fn with_continued_call(
    turn: TurnView,
    index: usize,
    function: Option<FunctionDeltaView>,
) -> TurnView {
    if turn.slots.dom().contains(index) {
        let at = turn.slots[index] as int;
        TurnView { calls: turn.calls.update(at, extended(turn.calls[at], function)), ..turn }
    } else {
        turn
    }
}

/// What a delta of a tool call makes of what has been gathered.
pub open spec fn after_call_delta(turn: TurnView, delta: CallDeltaView) -> TurnView {
    let index = match delta.index {
        Some(index) => index,
        None => 0,
    };
    let id = or_empty(delta.id);
    let started = if starts_call(turn, index, id) {
        with_new_call(turn, index, id)
    } else {
        turn
    };
    with_continued_call(started, index, delta.function)
}

/// What a list of deltas makes of what has been gathered, one after the other.
pub open spec fn after_call_deltas(turn: TurnView, deltas: Seq<CallDeltaView>) -> TurnView
    decreases deltas.len(),
{
    if deltas.len() == 0 {
        turn
    } else {
        after_call_delta(after_call_deltas(turn, deltas.drop_last()), deltas.last())
    }
}

/// What has been gathered after a step, and what is told of it.
pub struct Step {
    pub turn: TurnView,
    pub events: Seq<EventView>,
}

/// The assistant's message.
pub open spec fn message_item(id: Seq<char>, content: Seq<ContentView>) -> ItemView {
    ItemView::Message {
        id: Some(id),
        role: "assistant"@,
        content,
        phase: None,
        internal_chat_message_metadata_passthrough: None,
    }
}

/// What a piece of text makes of what has been gathered. The first one opens the message, under
/// the identifier `new_id`.
pub open spec fn after_text(turn: TurnView, content: Seq<char>, new_id: Seq<char>) -> Step {
    if content.len() == 0 {
        Step { turn, events: Seq::empty() }
    } else {
        let delta = EventView::OutputTextDelta(content);
        match turn.text_id {
            Some(_) => Step {
                turn: TurnView { text: turn.text + content, ..turn },
                events: seq![delta],
            },
            None => Step {
                turn: TurnView { text_id: Some(new_id), text: turn.text + content, ..turn },
                events: seq![
                    EventView::OutputItemAdded(message_item(new_id, Seq::empty())),
                    delta,
                ],
            },
        }
    }
}

/// What a piece of an answer makes of what has been gathered.
pub open spec fn after_choice(turn: TurnView, choice: ChoiceView, new_id: Seq<char>) -> Step {
    let noted = if or_empty(choice.finish_reason).len() > 0 {
        TurnView { finish_reason: choice.finish_reason, ..turn }
    } else {
        turn
    };
    match choice.delta {
        Some(delta) => {
            let told = after_text(noted, or_empty(delta.content), new_id);
            match delta.tool_calls {
                Some(deltas) => Step {
                    turn: after_call_deltas(told.turn, deltas),
                    events: told.events,
                },
                None => told,
            }
        },
        None => Step { turn: noted, events: Seq::empty() },
    }
}

/// What a list of pieces makes of what has been gathered, one after the other.
pub open spec fn after_choices(
    turn: TurnView,
    choices: Seq<ChoiceView>,
    new_id: Seq<char>,
) -> Step
    decreases choices.len(),
{
    if choices.len() == 0 {
        Step { turn, events: Seq::empty() }
    } else {
        let before = after_choices(turn, choices.drop_last(), new_id);
        let last = after_choice(before.turn, choices.last(), new_id);
        Step { turn: last.turn, events: before.events + last.events }
    }
}

/// What a chunk makes of what has been gathered. The first identifier that comes is that of the
/// response.
pub open spec fn after_chunk(turn: TurnView, chunk: ChunkView, new_id: Seq<char>) -> Step {
    let named = if turn.stream_id is None {
        TurnView { stream_id: chunk.id, ..turn }
    } else {
        turn
    };
    match chunk.choices {
        Some(choices) => after_choices(named, choices, new_id),
        None => Step { turn: named, events: Seq::empty() },
    }
}

/// Once the message is open, no other identifier matters to a list of pieces.
proof fn lemma_choices_keep_id(
    turn: TurnView,
    choices: Seq<ChoiceView>,
    one: Seq<char>,
    other: Seq<char>,
)
    requires
        turn.text_id is Some,
    ensures
        after_choices(turn, choices, one) == after_choices(turn, choices, other),
        after_choices(turn, choices, one).turn.text_id == turn.text_id,
    decreases choices.len(),
{
    if choices.len() > 0 {
        lemma_choices_keep_id(turn, choices.drop_last(), one, other);
        let before = after_choices(turn, choices.drop_last(), one).turn;
        lemma_choice_keeps(before, choices.last(), one);
    }
}

/// The deltas of tool calls change nothing but the calls.
pub proof fn lemma_call_deltas_keep(turn: TurnView, deltas: Seq<CallDeltaView>)
    ensures
        ({
            let after = after_call_deltas(turn, deltas);
            after == TurnView { calls: after.calls, slots: after.slots, ..turn }
        }),
    decreases deltas.len(),
{
    if deltas.len() > 0 {
        lemma_call_deltas_keep(turn, deltas.drop_last());
    }
}

/// A piece of an answer leaves the identifier of an open message as it is.
proof fn lemma_choice_keeps(turn: TurnView, choice: ChoiceView, new_id: Seq<char>)
    requires
        turn.text_id is Some,
    ensures
        after_choice(turn, choice, new_id).turn.text_id == turn.text_id,
{
    if let Some(delta) = choice.delta {
        let noted = if or_empty(choice.finish_reason).len() > 0 {
            TurnView { finish_reason: choice.finish_reason, ..turn }
        } else {
            turn
        };
        let told = after_text(noted, or_empty(delta.content), new_id);
        if let Some(deltas) = delta.tool_calls {
            lemma_call_deltas_keep(told.turn, deltas);
        }
    }
}

/// Once the message is open, no other identifier matters.
pub proof fn lemma_open_message_keeps_id(
    turn: TurnView,
    chunk: ChunkView,
    one: Seq<char>,
    other: Seq<char>,
)
    requires
        turn.text_id is Some,
    ensures
        after_chunk(turn, chunk, one) == after_chunk(turn, chunk, other),
        after_chunk(turn, chunk, one).turn.text_id == turn.text_id,
{
    let named = if turn.stream_id is None {
        TurnView { stream_id: chunk.id, ..turn }
    } else {
        turn
    };
    if let Some(choices) = chunk.choices {
        lemma_choices_keep_id(named, choices, one, other);
    }
}

/// What has been gathered from the chunks of a response.
#[derive(Debug)]
pub struct ChatTurn {
    text_id: Option<String>,
    text: String,
    calls: Vec<ToolCallBuilder>,
    slots: HashMap<usize, usize>,
    stream_id: Option<String>,
    finish_reason: Option<String>,
}

impl View for ChatTurn {
    type V = TurnView;

    closed spec fn view(&self) -> TurnView {
        TurnView {
            text_id: self.text_id.deep_view(),
            text: self.text@,
            calls: self.calls.deep_view(),
            slots: self.slots@.map_values(|at: usize| at as nat),
            stream_id: self.stream_id.deep_view(),
            finish_reason: self.finish_reason.deep_view(),
        }
    }
}

impl TurnView {
    /// Every slot leads to a call.
    pub open spec fn wf(self) -> bool {
        forall|index: usize| #[trigger]
            self.slots.dom().contains(index) ==> self.slots[index] < self.calls.len()
    }
}

impl ChatTurn {
    /// Before the first chunk.
    pub fn new() -> (r: ChatTurn)
        ensures
            r@ == empty_turn(),
            r@.wf(),
    {
        broadcast use vstd::std_specs::hash::group_hash_axioms;

        let r = ChatTurn {
            text_id: None,
            text: String::new(),
            calls: Vec::new(),
            slots: HashMap::new(),
            stream_id: None,
            finish_reason: None,
        };
        assert(r@.calls =~= Seq::<CallView>::empty());
        assert(r@.slots =~= Map::<usize, nat>::empty());
        r
    }

    /// Starts a new call at an index.
    fn start_call(&mut self, index: usize, id: String)
        requires
            old(self)@.wf(),
        ensures
            final(self)@ == with_new_call(old(self)@, index, id@),
            final(self)@.wf(),
    {
        broadcast use vstd::std_specs::hash::group_hash_axioms;

        let ghost before = self@;
        let at: usize = self.calls.len();
        self.calls.push(ToolCallBuilder { id, name: String::new(), arguments: String::new() });
        self.slots.insert(index, at);
        assert(self@.calls =~= with_new_call(before, index, id@).calls);
        assert(self@.slots =~= with_new_call(before, index, id@).slots);
    }

    /// Adds to the call last started at an index, if there is one.
    fn continue_call(&mut self, index: usize, function: Option<FunctionDelta>)
        requires
            old(self)@.wf(),
        ensures
            final(self)@ == with_continued_call(old(self)@, index, function.deep_view()),
            final(self)@.wf(),
    {
        broadcast use vstd::std_specs::hash::group_hash_axioms;

        let ghost before = self@;
        if let Some(at) = self.slots.get(&index) {
            let at: usize = *at;
            assert(before.slots.dom().contains(index));
            if let Some(function) = function {
                if let Some(name) = function.name {
                    self.calls[at].name.append(name.as_str());
                }
                if let Some(arguments) = function.arguments {
                    self.calls[at].arguments.append(arguments.as_str());
                }
            }
        }
        assert(self@.calls =~= with_continued_call(before, index, function.deep_view()).calls);
        assert(self@.slots =~= before.slots);
    }
}

impl ChatTurn {
    /// Takes a delta of a tool call.
    ///
    /// Parallel calls come in two ways. Either they have distinct indices, and only the first
    /// delta of a call carries its identifier; or they share an index, and every delta carries the
    /// identifier of its call. So a delta starts a new call when it carries an identifier other
    /// than that of the call last started at its index, and else continues that call.
    fn take_call_delta(&mut self, delta: ToolCallDelta)
        requires
            old(self)@.wf(),
        ensures
            final(self)@ == after_call_delta(old(self)@, delta.deep_view()),
            final(self)@.wf(),
    {
        broadcast use vstd::std_specs::hash::group_hash_axioms;

        let index: usize = match delta.index {
            Some(index) => index,
            None => 0,
        };
        let id = match delta.id {
            Some(id) => id,
            None => String::new(),
        };
        let is_new = if id.as_str().is_empty() {
            false
        } else {
            match self.slots.get(&index) {
                Some(at) => {
                    assert(self@.slots.dom().contains(index));
                    !same(self.calls[*at].id.as_str(), id.as_str())
                },
                None => true,
            }
        };
        assert(is_new == starts_call(self@, index, id@));
        if is_new {
            self.start_call(index, id);
        }
        self.continue_call(index, delta.function);
    }

    /// Takes the deltas of tool calls, one after the other.
    fn take_call_deltas(&mut self, deltas: Vec<ToolCallDelta>)
        requires
            old(self)@.wf(),
        ensures
            final(self)@ == after_call_deltas(old(self)@, deltas.deep_view()),
            final(self)@.wf(),
    {
        let ghost all = deltas.deep_view();
        let ghost before = self@;
        assert(all.take(0) =~= Seq::<CallDeltaView>::empty());
        for delta in it: deltas
            invariant
                it.seq() == deltas@,
                all == deltas.deep_view(),
                self@.wf(),
                self@ == after_call_deltas(before, all.take(it.index() as int)),
        {
            assert(all.take(it.index() + 1).drop_last() =~= all.take(it.index() as int));
            assert(all.take(it.index() + 1).last() == delta.deep_view());
            self.take_call_delta(delta);
        }
        assert(all.take(all.len() as int) =~= all);
    }

    /// Takes a piece of text, and tells of it.
    fn take_text(&mut self, content: String, new_id: &str, events: &mut Vec<ResponseEvent>)
        requires
            old(self)@.wf(),
        ensures
            final(self)@ == after_text(old(self)@, content@, new_id@).turn,
            final(events).deep_view() == old(events).deep_view() + after_text(
                old(self)@,
                content@,
                new_id@,
            ).events,
            final(self)@.wf(),
    {
        let ghost step = after_text(self@, content@, new_id@);
        let ghost told = events.deep_view();
        if !content.as_str().is_empty() {
            if self.text_id.is_none() {
                let none: Vec<ContentItem> = Vec::new();
                assert(none.deep_view() =~= Seq::<ContentView>::empty());
                let item = ResponseItem::Message {
                    id: Some(ResponseItemId::from_server(new_id.to_owned())),
                    role: "assistant".to_owned(),
                    content: none,
                    phase: None,
                    internal_chat_message_metadata_passthrough: None,
                };
                assert(item.deep_view() == message_item(new_id@, Seq::empty()));
                events.push(ResponseEvent::OutputItemAdded(item));
                self.text_id = Some(new_id.to_owned());
            }
            self.text.append(content.as_str());
            events.push(ResponseEvent::OutputTextDelta(content));
        }
        assert(events.deep_view() =~= told + step.events);
    }

    /// Takes a piece of an answer, and tells of it.
    fn take_choice(&mut self, choice: ChatChoice, new_id: &str, events: &mut Vec<ResponseEvent>)
        requires
            old(self)@.wf(),
        ensures
            final(self)@ == after_choice(old(self)@, choice.deep_view(), new_id@).turn,
            final(events).deep_view() == old(events).deep_view() + after_choice(
                old(self)@,
                choice.deep_view(),
                new_id@,
            ).events,
            final(self)@.wf(),
    {
        if let Some(reason) = choice.finish_reason {
            if !reason.as_str().is_empty() {
                self.finish_reason = Some(reason);
            }
        }
        if let Some(delta) = choice.delta {
            let content = match delta.content {
                Some(content) => content,
                None => String::new(),
            };
            self.take_text(content, new_id, events);
            if let Some(deltas) = delta.tool_calls {
                self.take_call_deltas(deltas);
            }
        } else {
            assert(events.deep_view() + Seq::<EventView>::empty() =~= events.deep_view());
        }
    }

    /// Takes a chunk, and tells of it. Where this is the first text, the message goes by `new_id`.
    pub fn process_chunk_with(&mut self, chunk: ChatChunk, new_id: &str) -> (r: Vec<ResponseEvent>)
        requires
            old(self)@.wf(),
        ensures
            final(self)@ == after_chunk(old(self)@, chunk.deep_view(), new_id@).turn,
            r.deep_view() == after_chunk(old(self)@, chunk.deep_view(), new_id@).events,
            final(self)@.wf(),
    {
        let mut events: Vec<ResponseEvent> = Vec::new();
        if self.stream_id.is_none() {
            self.stream_id = chunk.id;
        }
        assert(self@.slots == old(self)@.slots && self@.calls == old(self)@.calls);
        assert(events.deep_view() =~= Seq::<EventView>::empty());
        if let Some(choices) = chunk.choices {
            let ghost all = choices.deep_view();
            let ghost before = self@;
            assert(all.take(0) =~= Seq::<ChoiceView>::empty());
            for choice in it: choices
                invariant
                    it.seq() == choices@,
                    all == choices.deep_view(),
                    self@.wf(),
                    self@ == after_choices(before, all.take(it.index() as int), new_id@).turn,
                    events.deep_view() == after_choices(
                        before,
                        all.take(it.index() as int),
                        new_id@,
                    ).events,
            {
                assert(all.take(it.index() + 1).drop_last() =~= all.take(it.index() as int));
                assert(all.take(it.index() + 1).last() == choice.deep_view());
                self.take_choice(choice, new_id, &mut events);
            }
            assert(all.take(all.len() as int) =~= all);
        }
        events
    }

    /// Takes a chunk, and tells of it. Where this is the first text, the message goes by a fresh
    /// identifier.
    pub fn process_chunk(&mut self, chunk: ChatChunk) -> (r: Vec<ResponseEvent>)
        requires
            old(self)@.wf(),
        ensures
            exists|new_id: Seq<char>|
                #![trigger after_chunk(old(self)@, chunk.deep_view(), new_id)]
                uuid_text(new_id) && final(self)@ == after_chunk(
                    old(self)@,
                    chunk.deep_view(),
                    new_id,
                ).turn && r.deep_view() == after_chunk(
                    old(self)@,
                    chunk.deep_view(),
                    new_id,
                ).events,
            final(self)@.wf(),
    {
        if self.text_id.is_none() {
            let new_id = fresh_id();
            self.process_chunk_with(chunk, new_id.as_str())
        } else {
            proof {
                lemma_sample_uuid_text();
                lemma_open_message_keeps_id(self@, chunk.deep_view(), ""@, sample_uuid_text());
            }
            self.process_chunk_with(chunk, "")
        }
    }
}

/// What has been gathered, in its parts.
#[derive(Debug)]
pub struct TurnParts {
    pub text_id: Option<String>,
    pub text: String,
    pub calls: Vec<ToolCallBuilder>,
    pub stream_id: Option<String>,
}

impl ChatTurn {
    /// Takes what has been gathered apart.
    pub fn into_parts(self) -> (r: TurnParts)
        ensures
            r.text_id.deep_view() == self@.text_id,
            r.text@ == self@.text,
            r.calls.deep_view() == self@.calls,
            r.stream_id.deep_view() == self@.stream_id,
    {
        TurnParts {
            text_id: self.text_id,
            text: self.text,
            calls: self.calls,
            stream_id: self.stream_id,
        }
    }

    /// Whether the model has said why it stopped.
    pub fn is_finished(&self) -> (r: bool)
        ensures
            r == self@.finish_reason is Some,
    {
        self.finish_reason.is_some()
    }

    /// The number of tool calls.
    pub fn call_count(&self) -> (r: usize)
        ensures
            r == self@.calls.len(),
    {
        self.calls.len()
    }
}

} // verus!
