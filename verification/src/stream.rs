//! Reading a chat response from a byte stream, step by step.
//!
//! Whoever owns the stream does what a step asks for, and hands what came of it to the next step.

use vstd::prelude::*;
use vstd::string::*;
use vstd::utf8::*;

use crate::chunk::{ChatChunk, ChunkView};
use crate::error::{outcome, ApiError, ErrorView};
use crate::ids::{all_uuid_texts, lemma_sample_uuid_text, sample_uuid_text, uuid_text};
use crate::protocol::{EventView, ResponseEvent};
use crate::response::{fallback_calls, final_events, finish};
use crate::sse::{at_hand, framed, last_block, new_frame, utf8_fault, FrameView, SseFramer};
use crate::text::join;
use crate::tool_map::{KindView, ToolReverseMap};
use crate::turn::{after_chunk, empty_turn, ChatTurn, TurnView};
use crate::xml_calls::all_read_back;

verus! {

/// What came of what a step asked for.
#[derive(Debug)]
pub enum StreamInput {
    /// The stream gave a chunk of bytes.
    Bytes(Vec<u8>),
    /// The stream gave an error, which describes itself so.
    Broken(String),
    /// The stream is at its end.
    Closed,
    /// The data that was to be decoded is this chunk, or none.
    Decoded(Option<ChatChunk>),
}

/// What a step asks for.
#[derive(Debug)]
pub enum Next {
    /// To read on in the stream.
    Read,
    /// To decode this data as a chunk.
    Decode(String),
    /// Nothing more: the response is at its end.
    Stop,
}

/// What a step tells, in this order, and what it then asks for.
#[derive(Debug)]
pub struct Reaction {
    pub told: Vec<Result<ResponseEvent, ApiError>>,
    pub next: Next,
}

/// What a [`StreamInput`] is.
pub enum InputView {
    Bytes(Seq<u8>),
    Broken(Seq<char>),
    Closed,
    Decoded(Option<ChunkView>),
}

/// What a [`Next`] is.
pub enum NextView {
    Read,
    Decode(Seq<char>),
    Stop,
}

/// An event, or a fault.
pub type Told = Result<EventView, ErrorView>;

/// What is known between two steps.
pub struct SessionView {
    /// What is kept of the text of the stream.
    pub frame: FrameView,
    /// What has been gathered from its chunks.
    pub turn: TurnView,
    /// The data that is still to be decoded.
    pub waiting: Seq<Seq<char>>,
    /// Whether the stream is at its end, or has said that no more will come.
    pub ended: bool,
    /// The tools of the request.
    pub tools: Map<Seq<char>, KindView>,
}

/// What a step makes of what is known, what it tells, and what it asks for.
pub struct ReactionView {
    pub session: SessionView,
    pub told: Seq<Told>,
    pub next: NextView,
}

/// Identifiers for what comes without one.
pub struct Fresh {
    /// For the message.
    pub message: Seq<char>,
    /// For the tool calls.
    pub items: Seq<Seq<char>>,
    /// For the response.
    pub response: Seq<char>,
}

impl Fresh {
    /// All of them are random UUIDs.
    pub open spec fn random(self) -> bool {
        &&& uuid_text(self.message)
        &&& uuid_text(self.response)
        &&& all_uuid_texts(self.items)
    }
}

impl DeepView for StreamInput {
    type V = InputView;

    open spec fn deep_view(&self) -> InputView {
        match self {
            StreamInput::Bytes(bytes) => InputView::Bytes(bytes@),
            StreamInput::Broken(fault) => InputView::Broken(fault@),
            StreamInput::Closed => InputView::Closed,
            StreamInput::Decoded(chunk) => InputView::Decoded(chunk.deep_view()),
        }
    }
}

impl DeepView for Next {
    type V = NextView;

    open spec fn deep_view(&self) -> NextView {
        match self {
            Next::Read => NextView::Read,
            Next::Decode(data) => NextView::Decode(data@),
            Next::Stop => NextView::Stop,
        }
    }
}

/// What is told by a list of results.
pub open spec fn told_by(results: Seq<Result<ResponseEvent, ApiError>>) -> Seq<Told> {
    Seq::new(results.len(), |i: int| outcome(results[i]))
}

/// Events, told one by one.
pub open spec fn all_told(events: Seq<EventView>) -> Seq<Told> {
    Seq::new(events.len(), |i: int| Ok(events[i]))
}

/// Before the first step.
pub open spec fn new_session(tools: Map<Seq<char>, KindView>) -> SessionView {
    SessionView {
        frame: new_frame(),
        turn: empty_turn(),
        waiting: Seq::empty(),
        ended: false,
        tools,
    }
}

/// What is told before anything is read.
pub open spec fn opening() -> EventView {
    EventView::Created { response_id: None }
}

/// Whether no more is to be read: the stream is at its end or has said so, or the model has said why
/// it stopped and nothing is left of the text.
pub open spec fn read_enough(session: SessionView) -> bool {
    ||| session.ended
    ||| {
        &&& session.turn.finish_reason is Some
        &&& session.frame.line.len() == 0
        &&& session.frame.data.len() == 0
    }
}

/// What happens next, as things stand: what waits is decoded; when nothing waits and enough was
/// read, the block that no blank line ended is decoded; and when there is none, the response is
/// ended.
pub open spec fn advanced(session: SessionView, fresh: Fresh) -> ReactionView {
    if session.waiting.len() > 0 {
        ReactionView {
            session: SessionView { waiting: session.waiting.drop_first(), ..session },
            told: Seq::empty(),
            next: NextView::Decode(session.waiting.first()),
        }
    } else if read_enough(session) {
        let emptied = SessionView {
            frame: FrameView { data: Seq::empty(), ..session.frame },
            ended: true,
            ..session
        };
        match last_block(session.frame.data) {
            Some(data) => ReactionView {
                session: emptied,
                told: Seq::empty(),
                next: NextView::Decode(data),
            },
            None => ReactionView {
                session: SessionView { turn: empty_turn(), ..emptied },
                told: all_told(
                    final_events(session.turn, session.tools, fresh.items, fresh.response),
                ),
                next: NextView::Stop,
            },
        }
    } else {
        ReactionView { session, told: Seq::empty(), next: NextView::Read }
    }
}

/// A step that ends the response with a fault.
pub open spec fn broken_off(session: SessionView, message: Seq<char>) -> ReactionView {
    ReactionView {
        session,
        told: seq![Err(ErrorView::Stream(message))],
        next: NextView::Stop,
    }
}

/// `reaction` with more to tell before it.
pub open spec fn told_before(told: Seq<Told>, reaction: ReactionView) -> ReactionView {
    ReactionView { told: told + reaction.told, ..reaction }
}

/// What is known once a text has been read: its blocks wait to be decoded, and where it said that no
/// more will come, the stream is at its end.
pub open spec fn having_read(session: SessionView, text: Seq<char>) -> SessionView {
    let now = framed(at_hand(session.frame, text));
    SessionView {
        frame: now.kept,
        waiting: session.waiting + now.blocks,
        ended: session.ended || now.kept.done,
        ..session
    }
}

/// What a step does with an input. Data that could not be decoded is passed over.
pub open spec fn reaction(session: SessionView, input: InputView, fresh: Fresh) -> ReactionView {
    match input {
        InputView::Bytes(bytes) => if valid_utf8(bytes) {
            advanced(having_read(session, decode_utf8(bytes)), fresh)
        } else {
            broken_off(session, "UTF-8 error: "@ + utf8_fault(bytes))
        },
        InputView::Broken(fault) => broken_off(session, "byte stream error: "@ + fault),
        InputView::Closed => advanced(SessionView { ended: true, ..session }, fresh),
        InputView::Decoded(Some(chunk)) => {
            let step = after_chunk(session.turn, chunk, fresh.message);
            told_before(
                all_told(step.events),
                advanced(SessionView { turn: step.turn, ..session }, fresh),
            )
        },
        InputView::Decoded(None) => advanced(session, fresh),
    }
}

/// Reads a chat response.
pub struct ChatStream {
    framer: SseFramer,
    turn: ChatTurn,
    waiting: Vec<String>,
    ended: bool,
    tools: ToolReverseMap,
}

impl View for ChatStream {
    type V = SessionView;

    closed spec fn view(&self) -> SessionView {
        SessionView {
            frame: self.framer@,
            turn: self.turn@,
            waiting: self.waiting.deep_view(),
            ended: self.ended,
            tools: self.tools@,
        }
    }
}

/// Adds events to what is told.
fn tell(told: &mut Vec<Result<ResponseEvent, ApiError>>, events: Vec<ResponseEvent>)
    ensures
        told_by(final(told)@) == told_by(old(told)@) + all_told(events.deep_view()),
{
    let ghost before = told_by(told@);
    let ghost all = events.deep_view();
    assert(told_by(told@) =~= before + all_told(all.take(0)));
    for event in it: events
        invariant
            it.seq() == events@,
            all == events.deep_view(),
            told_by(told@) == before + all_told(all.take(it.index() as int)),
    {
        let ghost now = told_by(told@);
        told.push(Ok(event));
        assert(told_by(told@) =~= now.push(Ok(event.deep_view())));
        assert(told_by(told@) =~= before + all_told(all.take(it.index() + 1)));
    }
    assert(all.take(all.len() as int) =~= all);
}

impl ChatStream {
    /// Begins to read the response to a request with these tools.
    pub fn begin(tools: ToolReverseMap) -> (r: (ChatStream, Reaction))
        ensures
            r.0@ == new_session(tools@),
            r.0@.turn.wf(),
            told_by(r.1.told@) == seq![Ok::<EventView, ErrorView>(opening())],
            r.1.next.deep_view() == NextView::Read,
    {
        let stream = ChatStream {
            framer: SseFramer::new(),
            turn: ChatTurn::new(),
            waiting: Vec::new(),
            ended: false,
            tools,
        };
        assert(stream@.waiting =~= Seq::<Seq<char>>::empty());
        let mut told: Vec<Result<ResponseEvent, ApiError>> = Vec::new();
        told.push(Ok(ResponseEvent::Created { response_id: None }));
        assert(told_by(told@) =~= seq![Ok::<EventView, ErrorView>(opening())]);
        (stream, Reaction { told, next: Next::Read })
    }
}

/// What has been gathered once a step has looked at its input.
pub open spec fn gathered_by(session: SessionView, input: InputView, message: Seq<char>) -> TurnView {
    match input {
        InputView::Decoded(Some(chunk)) => after_chunk(session.turn, chunk, message).turn,
        _ => session.turn,
    }
}

/// Whether a step ends the response, and not with a fault.
pub open spec fn ends_whole(reaction: ReactionView) -> bool {
    reaction.next is Stop && reaction.told.last() is Ok
}

/// `fresh` has an identifier for each of the tool calls that are gathered, all of them random.
pub open spec fn fits(fresh: Fresh, turn: TurnView) -> bool {
    fresh.random() && fresh.items.len() == turn.calls.len()
}

/// Identifiers for this many tool calls, of which some are needed where none is used.
spec fn sample_fresh(count: nat) -> Fresh {
    Fresh {
        message: sample_uuid_text(),
        items: Seq::new(count, |i: int| sample_uuid_text()),
        response: sample_uuid_text(),
    }
}

/// They are what they should be.
proof fn lemma_sample_fresh(count: nat)
    ensures
        sample_fresh(count).random(),
        sample_fresh(count).items.len() == count,
{
    lemma_sample_uuid_text();
}

impl ChatStream {
    /// Goes on, as things stand.
    fn advance(&mut self, told: &mut Vec<Result<ResponseEvent, ApiError>>) -> (r: Next)
        requires
            old(self)@.turn.wf(),
        ensures
            exists|fresh: Fresh|
                #![trigger advanced(old(self)@, fresh)]
                fits(fresh, old(self)@.turn) && told_before(
                    told_by(old(told)@),
                    advanced(old(self)@, fresh),
                ) == (ReactionView {
                    session: final(self)@,
                    told: told_by(final(told)@),
                    next: r.deep_view(),
                }),
            r.deep_view() is Stop ==> all_read_back(fallback_calls(old(self)@.turn)),
            final(self)@.turn.wf(),
    {
        let ghost before = self@;
        let ghost sample = sample_fresh(before.turn.calls.len());
        proof {
            lemma_sample_fresh(before.turn.calls.len());
            assert(fits(sample, before.turn));
            let _ = advanced(before, sample);
        }
        assert(told_by(told@) + Seq::<Told>::empty() =~= told_by(told@));
        if self.waiting.len() > 0 {
            let data = self.waiting.remove(0);
            assert(self@.waiting =~= before.waiting.drop_first());
            return Next::Decode(data);
        }
        if self.ended || (self.turn.is_finished() && self.framer.is_empty()) {
            self.ended = true;
            match self.framer.take_last_block() {
                Some(data) => Next::Decode(data),
                None => {
                    let mut turn = ChatTurn::new();
                    std::mem::swap(&mut turn, &mut self.turn);
                    let ghost gathered = turn@;
                    let events = finish(turn, &self.tools);
                    proof {
                        let (items, response) = choose|
                            items: Seq<Seq<char>>,
                            response: Seq<char>,
                        |
                            #![trigger final_events(gathered, self.tools@, items, response)]
                            items.len() == gathered.calls.len() && all_uuid_texts(items)
                                && uuid_text(response) && events.deep_view() == final_events(
                                gathered,
                                self.tools@,
                                items,
                                response,
                            );
                        let fresh = Fresh { message: response, items, response };
                        assert(fits(fresh, before.turn));
                        let _ = advanced(before, fresh);
                    }
                    tell(told, events);
                    Next::Stop
                },
            }
        } else {
            Next::Read
        }
    }

    /// Takes what came of what the step before asked for, tells what there is to tell, and asks for
    /// what it needs next. What comes without an identifier goes by a random one. Where the response
    /// ends as it should, the arguments of calls in its text are read back as they were written there.
    pub fn step(&mut self, input: StreamInput) -> (r: Reaction)
        requires
            old(self)@.turn.wf(),
        ensures
            exists|fresh: Fresh|
                #![trigger reaction(old(self)@, input.deep_view(), fresh)]
                fits(fresh, gathered_by(old(self)@, input.deep_view(), fresh.message))
                    && reaction(old(self)@, input.deep_view(), fresh) == (ReactionView {
                    session: final(self)@,
                    told: told_by(r.told@),
                    next: r.next.deep_view(),
                }) && (ends_whole(reaction(old(self)@, input.deep_view(), fresh))
                    ==> all_read_back(
                    fallback_calls(gathered_by(old(self)@, input.deep_view(), fresh.message)),
                )),
            final(self)@.turn.wf(),
    {
        let ghost before = self@;
        let ghost seen = input.deep_view();
        let mut told: Vec<Result<ResponseEvent, ApiError>> = Vec::new();
        assert(told_by(told@) =~= Seq::<Told>::empty());
        let ghost mut message = sample_uuid_text();
        proof {
            lemma_sample_uuid_text();
        }
        let fault = match input {
            StreamInput::Bytes(bytes) => {
                match self.framer.feed(bytes.as_slice()) {
                    Ok(mut blocks) => {
                        let ghost new = blocks.deep_view();
                        self.waiting.append(&mut blocks);
                        assert(self@.waiting =~= before.waiting + new);
                        if self.framer.is_done() {
                            self.ended = true;
                        }
                        None
                    },
                    Err(fault) => Some(fault),
                }
            },
            StreamInput::Broken(fault) => Some(
                ApiError::Stream(join("byte stream error: ", fault.as_str())),
            ),
            StreamInput::Closed => {
                self.ended = true;
                None
            },
            StreamInput::Decoded(Some(chunk)) => {
                let ghost gathered = self.turn@;
                let events = self.turn.process_chunk(chunk);
                proof {
                    message = choose|new_id: Seq<char>|
                        #![trigger after_chunk(gathered, chunk.deep_view(), new_id)]
                        uuid_text(new_id) && self.turn@ == after_chunk(
                            gathered,
                            chunk.deep_view(),
                            new_id,
                        ).turn && events.deep_view() == after_chunk(
                            gathered,
                            chunk.deep_view(),
                            new_id,
                        ).events;
                }
                tell(&mut told, events);
                None
            },
            StreamInput::Decoded(None) => None,
        };
        if let Some(fault) = fault {
            told.push(Err(fault));
            proof {
                let fresh = sample_fresh(before.turn.calls.len());
                lemma_sample_fresh(before.turn.calls.len());
                assert(fits(fresh, gathered_by(before, seen, fresh.message)));
                assert(told_by(told@) =~= reaction(before, seen, fresh).told);
            }
            return Reaction { told, next: Next::Stop };
        }
        let ghost moved = self@;
        let ghost prior = told_by(told@);
        let next = self.advance(&mut told);
        proof {
            let given = choose|fresh: Fresh|
                #![trigger advanced(moved, fresh)]
                fits(fresh, moved.turn) && told_before(prior, advanced(moved, fresh)) == (
                ReactionView { session: self@, told: told_by(told@), next: next.deep_view() });
            let fresh = Fresh { message, ..given };
            assert(fits(fresh, gathered_by(before, seen, fresh.message)));
            assert(told_by(told@) =~= reaction(before, seen, fresh).told);
        }
        Reaction { told, next }
    }
}

} // verus!
