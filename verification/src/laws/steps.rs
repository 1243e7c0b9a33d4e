//! What each step of reading a response does.

use vstd::prelude::*;
use vstd::utf8::*;

use crate::chunk::ChunkView;
use crate::error::ErrorView;
use crate::protocol::EventView;
use crate::response::final_events;
use crate::sse::{framed, is_done, utf8_fault, FrameView};
use crate::stream::{new_session, reaction, Fresh, InputView, NextView, SessionView, Told};
use crate::tool_map::KindView;
use crate::turn::{after_chunk, TurnView};

verus! {

/// Nothing is left of the text.
pub open spec fn nothing_left(frame: FrameView) -> bool {
    frame.line.len() == 0 && frame.data.len() == 0
}

/// Data that waits is decoded next, the first of it, before anything else; nothing is told of that.
pub proof fn law_waiting_data_comes_first(session: SessionView, fresh: Fresh)
    requires
        session.waiting.len() > 0,
    ensures
        ({
            let after = reaction(session, InputView::Decoded(None), fresh);
            &&& after.next == NextView::Decode(session.waiting[0])
            &&& after.told.len() == 0
            &&& after.session == (SessionView {
                waiting: session.waiting.subrange(1, session.waiting.len() as int),
                ..session
            })
        }),
{
    assert(session.waiting.drop_first() =~= session.waiting.subrange(
        1,
        session.waiting.len() as int,
    ));
}

/// Where nothing waits, more is read exactly while the stream is not at its end and either the model
/// has not said why it stopped, whatever it says, or something is left of the text. Nothing is told
/// then, and nothing changes.
pub proof fn law_when_more_is_read(session: SessionView, fresh: Fresh)
    requires
        session.waiting.len() == 0,
    ensures
        ({
            let after = reaction(session, InputView::Decoded(None), fresh);
            &&& after.next is Read <==> !session.ended && (session.turn.finish_reason is None
                || !nothing_left(session.frame))
            &&& after.next is Read ==> after.told.len() == 0 && after.session == session
        }),
{
}

/// Where nothing waits and no more is read, the data that no blank line ended is decoded, if there is
/// some and it does not say that no more will come; and else the response is ended, with all that is
/// told at its end.
pub proof fn law_when_a_response_ends(session: SessionView, fresh: Fresh)
    requires
        session.waiting.len() == 0,
        session.ended || session.turn.finish_reason is Some && nothing_left(session.frame),
    ensures
        ({
            let after = reaction(session, InputView::Decoded(None), fresh);
            let data = session.frame.data;
            if data.len() > 0 && !is_done(data) {
                &&& after.next == NextView::Decode(data)
                &&& after.told.len() == 0
                &&& after.session.ended
                &&& after.session.turn == session.turn
                &&& after.session.frame.data.len() == 0
            } else {
                let events = final_events(
                    session.turn,
                    session.tools,
                    fresh.items,
                    fresh.response,
                );
                &&& after.next is Stop
                &&& after.told.len() == events.len()
                &&& forall|i: int|
                    0 <= i < events.len() ==> #[trigger] after.told[i] == Ok::<
                        EventView,
                        ErrorView,
                    >(events[i])
            }
        }),
{
}

/// A chunk that was decoded adds what it holds to what has been gathered, and what is told of that is
/// told first; then it goes on as if there had been nothing to decode.
pub proof fn law_decoded_chunks_are_taken(session: SessionView, chunk: ChunkView, fresh: Fresh)
    ensures
        ({
            let after = reaction(session, InputView::Decoded(Some(chunk)), fresh);
            let step = after_chunk(session.turn, chunk, fresh.message);
            let on = reaction(
                SessionView { turn: step.turn, ..session },
                InputView::Decoded(None),
                fresh,
            );
            let count = step.events.len();
            &&& after.session == on.session
            &&& after.next == on.next
            &&& after.told.len() == count + on.told.len()
            &&& forall|i: int|
                0 <= i < count ==> #[trigger] after.told[i] == Ok::<EventView, ErrorView>(
                    step.events[i],
                )
            &&& forall|i: int|
                0 <= i < on.told.len() ==> #[trigger] on.told[i] == after.told[count + i]
        }),
{
}

/// A chunk of bytes that is text adds its blocks to what waits, behind what waits already; where it
/// says that no more will come, the stream is at its end; then it goes on as if there had been
/// nothing to decode.
pub proof fn law_bytes_are_taken_as_text(session: SessionView, bytes: Seq<u8>, fresh: Fresh)
    requires
        valid_utf8(bytes),
    ensures
        ({
            let now = framed(
                FrameView { line: session.frame.line + decode_utf8(bytes), ..session.frame },
            );
            reaction(session, InputView::Bytes(bytes), fresh) == reaction(
                SessionView {
                    frame: now.kept,
                    waiting: session.waiting + now.blocks,
                    ended: session.ended || now.kept.done,
                    ..session
                },
                InputView::Decoded(None),
                fresh,
            )
        }),
{
}

/// The end of the stream is noted, and it goes on as if there had been nothing to decode.
pub proof fn law_the_end_of_the_stream_is_noted(session: SessionView, fresh: Fresh)
    ensures
        reaction(session, InputView::Closed, fresh) == reaction(
            SessionView { ended: true, ..session },
            InputView::Decoded(None),
            fresh,
        ),
{
}

/// The response ends with this fault alone.
pub open spec fn fails_with(told: Seq<Told>, next: NextView, message: Seq<char>) -> bool {
    &&& next is Stop
    &&& told.len() == 1
    &&& told[0] == Err::<EventView, ErrorView>(ErrorView::Stream(message))
}

/// A fault of the stream, and bytes that are not text, end the response, and are told in words of
/// their own with what describes them; nothing else is told then.
pub proof fn law_faults_are_told(
    session: SessionView,
    fault: Seq<char>,
    bytes: Seq<u8>,
    fresh: Fresh,
)
    ensures
        ({
            let broken = reaction(session, InputView::Broken(fault), fresh);
            fails_with(broken.told, broken.next, "byte stream error: "@ + fault)
        }),
        !valid_utf8(bytes) ==> ({
            let garbled = reaction(session, InputView::Bytes(bytes), fresh);
            fails_with(garbled.told, garbled.next, "UTF-8 error: "@ + utf8_fault(bytes))
        }),
{
}

/// A response begins with nothing read, nothing gathered and nothing waiting, and with the tools of
/// its request.
pub proof fn law_how_a_response_begins(tools: Map<Seq<char>, KindView>)
    ensures
        new_session(tools) == (SessionView {
            frame: FrameView { line: Seq::empty(), data: Seq::empty(), done: false },
            turn: TurnView {
                text_id: None,
                text: Seq::empty(),
                calls: Seq::empty(),
                slots: Map::empty(),
                stream_id: None,
                finish_reason: None,
            },
            waiting: Seq::empty(),
            ended: false,
            tools,
        }),
{
}

} // verus!
