//! What a client sends of its own accord while it reads one whole message.

use vstd::prelude::*;

use crate::frame::{Frame, Message};
use crate::message::{grown, turn, Assembly, Turn};
use crate::opcode::Opcode;
use crate::protocol::{answer_to, last, protocol_error_payload, sends, Answer, Violation};

verus! {

/// What a client reads at a time.
pub enum Reading {
    /// A header that breaks a rule.
    Refused(Violation),
    /// A frame with its payload.
    Read(Frame, Seq<u8>),
}

/// How the reading of a message stands.
pub enum Ending {
    /// It goes on.
    Open,
    /// The message is complete.
    Complete(Message),
    /// The server broke the protocol.
    Violated(Violation),
    /// The server closed the connection, with this payload.
    Closed(Seq<u8>),
}

/// How the reading of a message stands after one more reading.
pub open spec fn ending(so_far: Assembly, reading: Reading) -> Ending {
    match reading {
        Reading::Refused(violation) => Ending::Violated(violation),
        Reading::Read(frame, data) => match answer_to(frame, data) {
            Answer::Refuse(violation) => Ending::Violated(violation),
            _ => match turn(so_far, frame, data) {
                Turn::Continue => Ending::Open,
                Turn::Complete(kind) => Ending::Complete(kind),
                Turn::Refuse(violation) => Ending::Violated(violation),
                Turn::Closed => Ending::Closed(data),
            },
        },
    }
}

/// The message after one more reading.
pub open spec fn after(so_far: Assembly, reading: Reading) -> Assembly {
    match reading {
        Reading::Refused(_) => so_far,
        Reading::Read(frame, data) => grown(so_far, frame, data),
    }
}

/// The close frame that reports a protocol error.
pub open spec fn protocol_error_close() -> Seq<(Frame, Seq<u8>)> {
    seq![(last(Opcode::Close), protocol_error_payload())]
}

/// What is sent about one reading: the answer to the frame, and then, where the
/// frame does not fit the message, the close frame that reports it.
pub open spec fn due(so_far: Assembly, reading: Reading) -> Seq<(Frame, Seq<u8>)> {
    match reading {
        Reading::Refused(_) => protocol_error_close(),
        Reading::Read(frame, data) => {
            let reply = match answer_to(frame, data) {
                Answer::Nothing => Seq::empty(),
                Answer::Pong => seq![(last(Opcode::Pong), data)],
                Answer::Close => seq![(last(Opcode::Close), data)],
                Answer::Refuse(_) => protocol_error_close(),
            };
            if answer_to(frame, data) !is Refuse && turn(so_far, frame, data) is Refuse {
                reply + protocol_error_close()
            } else {
                reply
            }
        },
    }
}

/// What is sent about several readings, one after the other.
pub open spec fn all_due(so_far: Assembly, readings: Seq<Reading>) -> Seq<(Frame, Seq<u8>)>
    decreases readings.len(),
{
    if readings.len() == 0 {
        Seq::empty()
    } else {
        due(so_far, readings[0]) + all_due(after(so_far, readings[0]), readings.drop_first())
    }
}

/// The readings belong to one message: only the last one can end it.
pub open spec fn one_message(so_far: Assembly, readings: Seq<Reading>) -> bool
    decreases readings.len(),
{
    readings.len() > 1 ==> {
        &&& ending(so_far, readings[0]) is Open
        &&& one_message(after(so_far, readings[0]), readings.drop_first())
    }
}

/// How the reading of a message stands after several readings.
pub open spec fn last_ending(so_far: Assembly, readings: Seq<Reading>) -> Ending
    decreases readings.len(),
{
    if readings.len() == 0 {
        Ending::Open
    } else if readings.len() == 1 {
        ending(so_far, readings[0])
    } else {
        last_ending(after(so_far, readings[0]), readings.drop_first())
    }
}

/// A pong for a ping, with the same payload.
pub open spec fn pong(reading: Reading) -> Seq<(Frame, Seq<u8>)> {
    match reading {
        Reading::Read(frame, data) => if frame.opcode is Ping {
            seq![(last(Opcode::Pong), data)]
        } else {
            Seq::empty()
        },
        Reading::Refused(_) => Seq::empty(),
    }
}

/// A pong for each ping, in order.
pub open spec fn pongs(readings: Seq<Reading>) -> Seq<(Frame, Seq<u8>)>
    decreases readings.len(),
{
    if readings.len() == 0 {
        Seq::empty()
    } else {
        pong(readings[0]) + pongs(readings.drop_first())
    }
}

/// What is sent last: nothing for a message, a close frame that reports a
/// protocol error, or the server's own close frame.
pub open spec fn farewell(ending: Ending) -> Seq<(Frame, Seq<u8>)> {
    match ending {
        Ending::Open | Ending::Complete(_) => Seq::empty(),
        Ending::Violated(_) => protocol_error_close(),
        Ending::Closed(data) => seq![(last(Opcode::Close), data)],
    }
}

/// Over one whole message a client sends a pong for each ping, with the same
/// payloads and in the same order, and behind them nothing where the message is
/// complete or still open, exactly one close frame that reports a protocol error
/// where the server broke the protocol, and exactly one close frame with the
/// server's payload where the server closed the connection.
pub proof fn pongs_and_one_farewell(so_far: Assembly, readings: Seq<Reading>)
    requires
        one_message(so_far, readings),
    ensures
        all_due(so_far, readings) == pongs(readings) + farewell(last_ending(so_far, readings)),
    decreases readings.len(),
{
    if readings.len() > 0 {
        let first = readings[0];
        let rest = readings.drop_first();
        assert(due(so_far, first) =~= pong(first) + farewell(ending(so_far, first)));
        if readings.len() == 1 {
            assert(pongs(rest) =~= Seq::<(Frame, Seq<u8>)>::empty());
            assert(all_due(after(so_far, first), rest) =~= Seq::<(Frame, Seq<u8>)>::empty());
            assert(pongs(readings) =~= pong(first));
        } else {
            pongs_and_one_farewell(after(so_far, first), rest);
            assert(farewell(ending(so_far, first)) =~= Seq::<(Frame, Seq<u8>)>::empty());
        }
        assert(all_due(so_far, readings) =~= pongs(readings) + farewell(
            last_ending(so_far, readings),
        ));
    }
}

/// Each piece of `sent` is one of the frames as a client puts it on the wire, and
/// there are no others.
pub open spec fn carries(sent: Seq<Seq<u8>>, frames: Seq<(Frame, Seq<u8>)>) -> bool {
    &&& sent.len() == frames.len()
    &&& forall|i: int|
        0 <= i < sent.len() ==> sends(#[trigger] sent[i], frames[i].0, frames[i].1)
}

pub(crate) proof fn carries_both(
    sent: Seq<Seq<u8>>,
    frames: Seq<(Frame, Seq<u8>)>,
    more: Seq<Seq<u8>>,
    others: Seq<(Frame, Seq<u8>)>,
)
    requires
        carries(sent, frames),
        carries(more, others),
    ensures
        carries(sent + more, frames + others),
{
    assert forall|i: int| 0 <= i < (sent + more).len() implies sends(
        #[trigger] (sent + more)[i],
        (frames + others)[i].0,
        (frames + others)[i].1,
    ) by {
        if i < sent.len() {
            assert(sends(sent[i], frames[i].0, frames[i].1));
        } else {
            let k = i - sent.len();
            assert(sends(more[k], others[k].0, others[k].1));
        }
    }
}

} // verus!
