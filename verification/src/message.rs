//! How messages are put together from frames.

use vstd::prelude::*;
use vstd::utf8::valid_utf8;

use crate::frame::{Frame, Message};
use crate::opcode::Opcode;
use crate::protocol::{close_violation, Violation};

verus! {

/// A message on its way in, as far as its frames have arrived.
#[verifier::ext_equal]
pub struct Assembly {
    /// Whether messages that arrive in one frame are kept too, and refused where
    /// they interrupt another message.
    pub whole: bool,
    /// The kind of the message that is under way.
    pub message: Option<Message>,
    /// The payloads kept so far.
    pub data: Seq<u8>,
}

/// What a frame means for the message.
#[derive(Clone, Copy, Debug, PartialEq, Eq, Structural)]
pub enum Turn {
    /// More frames have to follow.
    Continue,
    /// The message is complete.
    Complete(Message),
    /// The frame breaks the protocol.
    Refuse(Violation),
    /// The server closes the connection.
    Closed,
}

/// A frame that may be handed on: its opcode is in use, and the payload of a
/// close frame is in order.
pub open spec fn acceptable(frame: Frame, data: Seq<u8>) -> bool {
    &&& !frame.opcode.spec_is_reserved()
    &&& frame.opcode is Close ==> close_violation(data) is None
}

/// What a frame that opens a message of the given kind means, with everything
/// that it carries in `data`.
pub open spec fn opening_turn(so_far: Assembly, fin: bool, kind: Message, data: Seq<u8>) -> Turn {
    if !fin {
        Turn::Continue
    } else if so_far.whole && so_far.data.len() > 0 {
        Turn::Refuse(Violation::InterruptedMessage)
    } else if kind is Text && !valid_utf8(data) {
        Turn::Refuse(Violation::InvalidText)
    } else {
        Turn::Complete(kind)
    }
}

/// What a frame with the payload `data` means for the message.
pub open spec fn turn(so_far: Assembly, frame: Frame, data: Seq<u8>) -> Turn {
    match frame.opcode {
        Opcode::Continuation => match so_far.message {
            None => Turn::Refuse(Violation::StrayContinuation),
            Some(kind) => if !frame.fin {
                Turn::Continue
            } else if kind is Text && !valid_utf8(so_far.data + data) {
                Turn::Refuse(Violation::InvalidText)
            } else {
                Turn::Complete(kind)
            },
        },
        Opcode::Text => opening_turn(so_far, frame.fin, Message::Text, data),
        Opcode::Binary => opening_turn(so_far, frame.fin, Message::Binary, data),
        Opcode::Close => Turn::Closed,
        _ => Turn::Continue,
    }
}

/// The message after a frame that opens one of the given kind.
pub open spec fn opened(so_far: Assembly, fin: bool, kind: Message, data: Seq<u8>) -> Assembly {
    if !fin {
        Assembly { message: Some(kind), data: so_far.data + data, ..so_far }
    } else if so_far.whole && opening_turn(so_far, fin, kind, data) is Complete {
        Assembly { data: so_far.data + data, ..so_far }
    } else {
        so_far
    }
}

/// The message after a frame with the payload `data`.
pub open spec fn grown(so_far: Assembly, frame: Frame, data: Seq<u8>) -> Assembly {
    match frame.opcode {
        Opcode::Continuation => if so_far.message is Some {
            Assembly { data: so_far.data + data, ..so_far }
        } else {
            so_far
        },
        Opcode::Text => opened(so_far, frame.fin, Message::Text, data),
        Opcode::Binary => opened(so_far, frame.fin, Message::Binary, data),
        _ => so_far,
    }
}

/// The message before its first frame.
pub open spec fn fresh(whole: bool) -> Assembly {
    Assembly { whole, message: None, data: Seq::empty() }
}

/// A message on its way in.
pub struct PartialMessage {
    whole: bool,
    message: Option<Message>,
    buffer: Vec<u8>,
}

impl View for PartialMessage {
    type V = Assembly;

    closed spec fn view(&self) -> Assembly {
        Assembly { whole: self.whole, message: self.message, data: self.buffer@ }
    }
}

impl PartialMessage {
    /// A message that is kept in `buffer`, whatever `buffer` held.
    pub fn new(buffer: Vec<u8>) -> (message: Self)
        ensures
            message@ == fresh(true),
    {
        let mut buffer = buffer;
        buffer.clear();
        Self { whole: true, message: None, buffer }
    }

    /// A message of which only the fragments are kept, to judge it by.
    pub fn fragments() -> (message: Self)
        ensures
            message@ == fresh(false),
    {
        Self { whole: false, message: None, buffer: Vec::new() }
    }

    /// Takes in a frame with the payload `data`.
    pub fn take_frame(&mut self, frame: Frame, data: &[u8]) -> (result: Turn)
        requires
            !frame.opcode.spec_is_reserved(),
        ensures
            result == turn(old(self)@, frame, data@),
            final(self)@ == grown(old(self)@, frame, data@),
    {
        match frame.opcode {
            Opcode::Continuation => {
                let Some(kind) = self.message else {
                    return Turn::Refuse(Violation::StrayContinuation);
                };
                self.buffer.extend_from_slice(data);
                assert(self.buffer@ =~= old(self).buffer@ + data@);
                if !frame.fin {
                    Turn::Continue
                } else if kind.is_text() && Frame::validate_utf8(self.buffer.as_slice()).is_none() {
                    Turn::Refuse(Violation::InvalidText)
                } else {
                    Turn::Complete(kind)
                }
            },
            Opcode::Text => self.open(frame.fin, Message::Text, data),
            Opcode::Binary => self.open(frame.fin, Message::Binary, data),
            Opcode::Close => Turn::Closed,
            _ => Turn::Continue,
        }
    }

    /// Takes in a frame that opens a message of the given kind.
    fn open(&mut self, fin: bool, kind: Message, data: &[u8]) -> (result: Turn)
        ensures
            result == opening_turn(old(self)@, fin, kind, data@),
            final(self)@ == opened(old(self)@, fin, kind, data@),
    {
        if !fin {
            self.buffer.extend_from_slice(data);
            assert(self.buffer@ =~= old(self).buffer@ + data@);
            self.message = Some(kind);
            return Turn::Continue;
        }
        if self.whole && self.buffer.len() > 0 {
            return Turn::Refuse(Violation::InterruptedMessage);
        }
        if kind.is_text() && Frame::validate_utf8(data).is_none() {
            return Turn::Refuse(Violation::InvalidText);
        }
        if self.whole {
            self.buffer.extend_from_slice(data);
            assert(self.buffer@ =~= old(self).buffer@ + data@);
        }
        Turn::Complete(kind)
    }

    /// Gives back the buffer, with what it holds of the message.
    pub fn into_buffer(self) -> (buffer: Vec<u8>)
        ensures
            buffer@ == self@.data,
    {
        self.buffer
    }
}

/// The message after some frames, each with its payload.
pub open spec fn assembled(so_far: Assembly, frames: Seq<(Frame, Seq<u8>)>) -> Assembly
    decreases frames.len(),
{
    if frames.len() == 0 {
        so_far
    } else {
        grown(assembled(so_far, frames.drop_last()), frames.last().0, frames.last().1)
    }
}

/// The payloads of the frames that belong to a message, one behind the other.
pub open spec fn payload(frames: Seq<(Frame, Seq<u8>)>) -> Seq<u8>
    decreases frames.len(),
{
    if frames.len() == 0 {
        Seq::empty()
    } else if frames.last().0.opcode.spec_is_data() {
        payload(frames.drop_last()) + frames.last().1
    } else {
        payload(frames.drop_last())
    }
}

/// A frame that may stand between the first and the last one of a message: a
/// fragment of it, or a ping or pong.
pub open spec fn inner_frame(frame: Frame) -> bool {
    ||| frame.opcode is Continuation && !frame.fin
    ||| frame.opcode is Ping
    ||| frame.opcode is Pong
}

/// The opcode that opens a message.
pub open spec fn opener(kind: Message) -> Opcode {
    match kind {
        Message::Text => Opcode::Text,
        Message::Binary => Opcode::Binary,
    }
}

/// The beginning of a message of the given kind that comes in fragments.
pub open spec fn fragments_of(kind: Message, frames: Seq<(Frame, Seq<u8>)>) -> bool {
    &&& frames.len() >= 1
    &&& frames[0].0 == (Frame { fin: false, opcode: opener(kind) })
    &&& forall|i: int| 1 <= i < frames.len() ==> inner_frame((#[trigger] frames[i]).0)
}

/// While the fragments of a message come in, it is never complete and never
/// refused, and what is kept is what they carry. A ping or pong in between
/// changes nothing.
pub proof fn fragments_are_collected(
    whole: bool,
    kind: Message,
    frames: Seq<(Frame, Seq<u8>)>,
)
    requires
        fragments_of(kind, frames),
    ensures
        assembled(fresh(whole), frames) == (Assembly {
            whole,
            message: Some(kind),
            data: payload(frames),
        }),
        turn(assembled(fresh(whole), frames.drop_last()), frames.last().0, frames.last().1)
            == Turn::Continue,
    decreases frames.len(),
{
    let before = frames.drop_last();
    if before.len() == 0 {
        assert(assembled(fresh(whole), before) == fresh(whole));
        assert(payload(before) =~= Seq::<u8>::empty());
        assert(frames.last() == frames[0]);
        assert(Seq::<u8>::empty() + frames.last().1 =~= frames.last().1);
    } else {
        assert(before[0] == frames[0]);
        fragments_are_collected(whole, kind, before);
        assert(inner_frame(frames[frames.len() - 1].0));
    }
}

/// A message that comes in fragments is complete with its final fragment, and
/// then everything that the fragments carry has been kept, in order. Where it is
/// text and that is not UTF-8, it is refused instead.
pub proof fn fragmented_message_is_completed(
    whole: bool,
    kind: Message,
    frames: Seq<(Frame, Seq<u8>)>,
    ending: Seq<u8>,
)
    requires
        fragments_of(kind, frames),
    ensures
        ({
            let end = Frame { fin: true, opcode: Opcode::Continuation };
            let all = payload(frames) + ending;
            let so_far = assembled(fresh(whole), frames);
            &&& turn(so_far, end, ending) == if kind is Binary || valid_utf8(all) {
                Turn::Complete(kind)
            } else {
                Turn::Refuse(Violation::InvalidText)
            }
            &&& grown(so_far, end, ending).data == all
        }),
{
    fragments_are_collected(whole, kind, frames);
}

/// A message in one frame is complete at once. Where messages are kept, its
/// payload has been kept then.
pub proof fn message_in_one_frame_is_completed(whole: bool, kind: Message, data: Seq<u8>)
    requires
        kind is Binary || valid_utf8(data),
    ensures
        ({
            let only = Frame { fin: true, opcode: opener(kind) };
            &&& turn(fresh(whole), only, data) == Turn::Complete(kind)
            &&& whole ==> grown(fresh(whole), only, data).data == data
        }),
{
    assert(Seq::<u8>::empty() + data =~= data);
}

/// Text is only ever reported complete where it is UTF-8: the payload of the
/// frame, where it is the only one, and else what was kept of all frames.
pub proof fn completed_text_is_utf8(so_far: Assembly, frame: Frame, data: Seq<u8>)
    requires
        turn(so_far, frame, data) == Turn::Complete(Message::Text),
    ensures
        frame.opcode is Text || frame.opcode is Continuation,
        frame.opcode is Text ==> valid_utf8(data),
        frame.opcode is Continuation || so_far.whole ==> valid_utf8(
            grown(so_far, frame, data).data,
        ),
{
    if frame.opcode is Text && so_far.whole {
        assert(so_far.data + data =~= data);
    }
}

/// Pings and pongs never have anything to do with a message, whether one is under
/// way or not: the reading goes on, and everything stays as it was.
pub proof fn pings_and_pongs_are_skipped(so_far: Assembly, frame: Frame, data: Seq<u8>)
    requires
        frame.opcode.number() == 9 || frame.opcode.number() == 10,
    ensures
        turn(so_far, frame, data) == Turn::Continue,
        grown(so_far, frame, data) == so_far,
{
}

/// A message is complete with a final frame and with no other: one of its own
/// kind, where it does not interrupt a message that is kept, or a continuation of a
/// message of its kind that is under way. Text has to be UTF-8 then.
pub proof fn messages_are_completed_by_final_frames(
    so_far: Assembly,
    frame: Frame,
    data: Seq<u8>,
    kind: Message,
)
    ensures
        turn(so_far, frame, data) == Turn::Complete(kind) <==> {
            &&& frame.fin
            &&& {
                ||| {
                    &&& frame.opcode.number() == if kind is Text {
                        1int
                    } else {
                        2int
                    }
                    &&& so_far.whole ==> so_far.data.len() == 0
                    &&& kind is Text ==> valid_utf8(data)
                }
                ||| {
                    &&& frame.opcode.number() == 0
                    &&& so_far.message == Some(kind)
                    &&& kind is Text ==> valid_utf8(so_far.data + data)
                }
            }
        },
{
}

/// What is refused, and as what: a continuation of nothing, a whole message where
/// one that is kept is under way, and text that is not UTF-8 in the end. Nothing
/// else is.
pub proof fn messages_are_refused_for_three_reasons(
    so_far: Assembly,
    frame: Frame,
    data: Seq<u8>,
)
    ensures
        ({
            let found = turn(so_far, frame, data);
            let number = frame.opcode.number();
            let interrupts = frame.fin && 1 <= number <= 2 && so_far.whole && so_far.data.len()
                > 0;
            &&& found == Turn::Refuse(Violation::StrayContinuation) <==> number == 0
                && so_far.message is None
            &&& found == Turn::Refuse(Violation::InterruptedMessage) <==> interrupts
            &&& found == Turn::Refuse(Violation::InvalidText) <==> frame.fin && !interrupts && {
                ||| number == 1 && !valid_utf8(data)
                ||| number == 0 && so_far.message == Some(Message::Text) && !valid_utf8(
                    so_far.data + data,
                )
            }
            &&& found matches Turn::Refuse(violation) ==> violation is StrayContinuation
                || violation is InterruptedMessage || violation is InvalidText
            &&& found is Closed <==> number == 8
        }),
{
}

/// What is kept of a frame: the payload, behind what was kept before, where the
/// frame is a fragment of the message or, where whole messages are kept, completes
/// it. The first fragment says what kind of message it is. Nothing that was kept is
/// ever changed.
pub proof fn payloads_are_kept_in_order(so_far: Assembly, frame: Frame, data: Seq<u8>)
    ensures
        ({
            let next = grown(so_far, frame, data);
            let number = frame.opcode.number();
            let fragment = !frame.fin && 1 <= number <= 2 || number == 0 && so_far.message is Some;
            let kept = fragment || (so_far.whole && 1 <= number <= 2 && turn(so_far, frame, data)
                is Complete);
            &&& next.whole == so_far.whole
            &&& kept ==> next.data == so_far.data + data
            &&& !kept ==> next.data == so_far.data
            &&& !frame.fin && number == 1 ==> next.message == Some(Message::Text)
            &&& !frame.fin && number == 2 ==> next.message == Some(Message::Binary)
            &&& frame.fin || number == 0 || number > 2 ==> next.message == so_far.message
        }),
{
}

/// A message begins with nothing, and a frame may be handed on where its opcode is
/// in use and, for a close frame, its payload is accepted.
pub proof fn messages_begin_with_nothing(whole: bool, frame: Frame, data: Seq<u8>)
    ensures
        fresh(whole).whole == whole,
        fresh(whole).message is None,
        fresh(whole).data.len() == 0,
        acceptable(frame, data) <==> {
            let number = frame.opcode.number();
            &&& number <= 2 || 8 <= number <= 10
            &&& number == 8 ==> close_violation(data) is None
        },
{
}

} // verus!
