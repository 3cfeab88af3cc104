//! The rules that every frame from a server is held to, and what a client sends
//! of its own accord.

use vstd::prelude::*;
use vstd::utf8::{decode_utf8, decode_utf8_encode_utf8, encode_utf8, valid_utf8};

use crate::close_code::CloseCode;
use crate::endian::{
    eight_bytes_spell, number_of, read_number, read_number_spells_back, spans, spelled, spelled_has_width,
    spelled_number_reads_back, two_bytes_spell,
};
use crate::frame::{encoded, encoded_byte_by_byte, first_byte, Frame};
use crate::opcode::Opcode;

verus! {

/// The ways in which a server can break the protocol.
#[derive(Clone, Copy, Debug, PartialEq, Eq, Structural)]
pub enum Violation {
    /// One of the three reserved bits of the header is set.
    ReservedBit,
    /// The frame is masked, which only a client's frames are.
    Masked,
    /// The opcode is kept for later use.
    ReservedOpcode,
    /// A close frame with one byte, which is half a close code.
    HalfCloseCode,
    /// A control frame with more than 125 bytes.
    LongControl,
    /// A control frame that is not final.
    FragmentedControl,
    /// A close frame whose code is no close code.
    InvalidCloseCode,
    /// A close frame with a code that no close frame may carry.
    ReservedCloseCode,
    /// A close frame whose reason is not UTF-8.
    InvalidCloseReason,
    /// A text message that is not UTF-8.
    InvalidText,
    /// A continuation frame where there is nothing to go on with.
    StrayContinuation,
    /// A whole message where a continuation frame is due.
    InterruptedMessage,
}

impl Violation {
    /// What is said about this violation.
    pub open spec fn text(self) -> Seq<char> {
        match self {
            Violation::ReservedBit => "Reserve bit must be 0."@,
            Violation::Masked => "Server to client communication should be unmasked."@,
            Violation::ReservedOpcode => "Use of reserved opcode."@,
            Violation::HalfCloseCode => "Close frame with a missing close reason byte."@,
            Violation::LongControl => "Control frame larger than 125 bytes."@,
            Violation::FragmentedControl => "Control frame cannot be fragmented."@,
            Violation::InvalidCloseCode => "Invalid close code."@,
            Violation::ReservedCloseCode => "Received reserved close code."@,
            Violation::InvalidCloseReason => "Received close frame with invalid utf-8 reason."@,
            Violation::InvalidText => "Received text frame with invalid utf-8."@,
            Violation::StrayContinuation => {
                "Received continuation frame without preceding text or binary frame."@
            },
            Violation::InterruptedMessage => {
                "Received a continuation frame without continuation opcode."@
            },
        }
    }

    /// What is said about this violation.
    pub fn reason(self) -> (reason: &'static str)
        ensures
            reason@ == self.text(),
    {
        match self {
            Violation::ReservedBit => "Reserve bit must be 0.",
            Violation::Masked => "Server to client communication should be unmasked.",
            Violation::ReservedOpcode => "Use of reserved opcode.",
            Violation::HalfCloseCode => "Close frame with a missing close reason byte.",
            Violation::LongControl => "Control frame larger than 125 bytes.",
            Violation::FragmentedControl => "Control frame cannot be fragmented.",
            Violation::InvalidCloseCode => "Invalid close code.",
            Violation::ReservedCloseCode => "Received reserved close code.",
            Violation::InvalidCloseReason => "Received close frame with invalid utf-8 reason.",
            Violation::InvalidText => "Received text frame with invalid utf-8.",
            Violation::StrayContinuation => {
                "Received continuation frame without preceding text or binary frame."
            },
            Violation::InterruptedMessage => {
                "Received a continuation frame without continuation opcode."
            },
        }
    }
}

/// What is wrong with the two bytes that every frame begins with. The first rule
/// that is broken counts.
pub open spec fn header_violation(first: u8, second: u8) -> Option<Violation> {
    let opcode = Opcode::of(first);
    let len = second % 128;
    if (first / 16) % 8 != 0 {
        Some(Violation::ReservedBit)
    } else if second >= 128 {
        Some(Violation::Masked)
    } else if opcode.spec_is_reserved() {
        Some(Violation::ReservedOpcode)
    } else if opcode is Close && len == 1 {
        Some(Violation::HalfCloseCode)
    } else if opcode.spec_is_control() && len > 125 {
        Some(Violation::LongControl)
    } else if opcode.spec_is_control() && first < 128 {
        Some(Violation::FragmentedControl)
    } else {
        None
    }
}

/// The frame that a first byte announces.
pub open spec fn header_frame(first: u8) -> Frame {
    Frame { fin: first >= 128, opcode: Opcode::of(first) }
}

/// How many bytes of length follow the second byte of a header.
pub open spec fn length_width(second: u8) -> int {
    if second % 128 == 126 {
        2
    } else if second % 128 == 127 {
        8
    } else {
        0
    }
}

/// Reads the two bytes that every frame begins with: the frame, and the seven
/// bits of length.
pub fn read_header(first: u8, second: u8) -> (header: Result<(Frame, u8), Violation>)
    ensures
        header == match header_violation(first, second) {
            Some(violation) => Err(violation),
            None => Ok((header_frame(first), (second % 128) as u8)),
        },
{
    let fin = first & 0x80 != 0;
    let rsv = first & 0x70;
    let opcode = Opcode::from_byte(first);
    let masked = second & 0x80 != 0;
    let length: u8 = second & 0x7F;
    assert(fin == (first >= 128)) by (bit_vector)
        requires
            fin == (first & 0x80 != 0),
    ;
    assert((rsv != 0) == ((first / 16) % 8 != 0)) by (bit_vector)
        requires
            rsv == first & 0x70,
    ;
    assert(masked == (second >= 128)) by (bit_vector)
        requires
            masked == (second & 0x80 != 0),
    ;
    assert(length == second % 128) by (bit_vector)
        requires
            length == second & 0x7F,
    ;
    if rsv != 0 {
        return Err(Violation::ReservedBit);
    }
    if masked {
        return Err(Violation::Masked);
    }
    if opcode.is_reserved() {
        return Err(Violation::ReservedOpcode);
    }
    if opcode == Opcode::Close && length == 1 {
        return Err(Violation::HalfCloseCode);
    }
    if opcode.is_control() {
        if length > 125 {
            return Err(Violation::LongControl);
        }
        if !fin {
            return Err(Violation::FragmentedControl);
        }
    }
    Ok((Frame { fin, opcode }, length))
}

/// The number in the first two bytes of the payload of a close frame.
pub open spec fn close_number(data: Seq<u8>) -> u16 {
    number_of(data.take(2)) as u16
}

/// The code that a close frame carries, where it has one.
pub open spec fn close_code(data: Seq<u8>) -> Option<CloseCode> {
    if data.len() >= 2 {
        CloseCode::of(close_number(data))
    } else {
        None
    }
}

/// The reason that a close frame gives, where it gives one.
pub open spec fn close_reason(data: Seq<u8>) -> Option<Seq<char>> {
    if data.len() > 2 {
        Some(decode_utf8(data.skip(2)))
    } else {
        None
    }
}

/// What is wrong with the payload of a close frame.
pub open spec fn close_violation(data: Seq<u8>) -> Option<Violation> {
    if data.len() < 2 {
        None
    } else {
        match CloseCode::of(close_number(data)) {
            None => Some(Violation::InvalidCloseCode),
            Some(code) => if code.spec_is_reserved() {
                Some(Violation::ReservedCloseCode)
            } else if data.len() > 2 && !valid_utf8(data.skip(2)) {
                Some(Violation::InvalidCloseReason)
            } else {
                None
            },
        }
    }
}

/// The text behind an optional `String`.
pub open spec fn text_of(reason: Option<String>) -> Option<Seq<char>> {
    match reason {
        Some(text) => Some(text@),
        None => None,
    }
}

/// The number in the first two bytes of the payload of a close frame.
fn read_close_number(data: &[u8]) -> (number: u16)
    requires
        data@.len() >= 2,
    ensures
        number == close_number(data@),
{
    let bytes = vstd::slice::slice_subrange(data, 0, 2);
    assert(bytes@ =~= data@.take(2));
    let number: u64 = read_number(bytes);
    proof {
        read_number_spells_back(data@.take(2));
        spans();
    }
    number as u16
}

/// Looks for what is wrong with the payload of a close frame.
pub fn check_close(data: &[u8]) -> (violation: Option<Violation>)
    ensures
        violation == close_violation(data@),
{
    if data.len() >= 2 {
        let Ok(code) = CloseCode::try_from(read_close_number(data)) else {
            return Some(Violation::InvalidCloseCode);
        };
        if code.is_reserved() {
            return Some(Violation::ReservedCloseCode);
        }
    }
    if data.len() > 2 {
        let reason = vstd::slice::slice_subrange(data, 2, data.len());
        assert(reason@ =~= data@.skip(2));
        if Frame::validate_utf8(reason).is_none() {
            return Some(Violation::InvalidCloseReason);
        }
    }
    None
}

/// Reads code and reason out of the payload of a close frame that is in order.
pub fn read_close(data: &[u8]) -> (said: (Option<CloseCode>, Option<String>))
    requires
        close_violation(data@) is None,
    ensures
        said.0 == close_code(data@),
        text_of(said.1) == close_reason(data@),
{
    let code = if data.len() >= 2 {
        match CloseCode::try_from(read_close_number(data)) {
            Ok(code) => Some(code),
            Err(_) => None,
        }
    } else {
        None
    };
    let reason = if data.len() > 2 {
        let bytes = vstd::slice::slice_subrange(data, 2, data.len());
        assert(bytes@ =~= data@.skip(2));
        match Frame::validate_utf8(bytes) {
            Some(text) => Some(text.to_owned()),
            None => None,
        }
    } else {
        None
    };
    (code, reason)
}

/// What a client does of its own accord about a frame that it received.
#[derive(Clone, Copy, Debug, PartialEq, Eq, Structural)]
pub enum Answer {
    /// Nothing.
    Nothing,
    /// It sends a pong with the same payload.
    Pong,
    /// It sends a close frame with the same payload.
    Close,
    /// It refuses the frame.
    Refuse(Violation),
}

/// The answer to a frame with the payload `data`.
pub open spec fn answer_to(frame: Frame, data: Seq<u8>) -> Answer {
    if frame.opcode is Ping {
        Answer::Pong
    } else if frame.opcode is Close {
        match close_violation(data) {
            Some(violation) => Answer::Refuse(violation),
            None => Answer::Close,
        }
    } else {
        Answer::Nothing
    }
}

/// The answer to a frame with the payload `data`.
pub fn answer(frame: Frame, data: &[u8]) -> (answer: Answer)
    ensures
        answer == answer_to(frame, data@),
{
    match frame.opcode {
        Opcode::Ping => Answer::Pong,
        Opcode::Close => match check_close(data) {
            Some(violation) => Answer::Refuse(violation),
            None => Answer::Close,
        },
        _ => Answer::Nothing,
    }
}

/// A frame that is the last one of its message.
pub open spec fn last(opcode: Opcode) -> Frame {
    Frame { fin: true, opcode }
}

/// The payload of the close frame that a client answers a violation with: the
/// code for a protocol error.
pub open spec fn protocol_error_payload() -> Seq<u8> {
    spelled(CloseCode::ProtocolError.number() as nat, 2)
}

/// The payload of the close frame that a client answers a violation with.
pub fn protocol_error() -> (payload: Vec<u8>)
    ensures
        payload@ == protocol_error_payload(),
        payload@.len() == 2,
{
    let mut payload: Vec<u8> = vec![0, 0];
    let ghost before = payload@;
    let number: u16 = u16::from(CloseCode::ProtocolError);
    crate::endian::write_number(payload.as_mut_slice(), 0, 2, number as u64);
    proof {
        spelled_has_width(number as nat, 2);
        assert(before.take(0) + spelled(number as nat, 2) + before.skip(2) =~= spelled(
            number as nat,
            2,
        ));
    }
    payload
}

/// `bytes` are the frame with the payload `data` as a client puts it on the wire,
/// under some masking key.
pub open spec fn sends(bytes: Seq<u8>, frame: Frame, data: Seq<u8>) -> bool {
    exists|mask: Seq<u8>| mask.len() == 4 && bytes == #[trigger] encoded(frame, data, mask)
}

/// What stands at the start of what a server sent.
pub enum Parsed {
    /// The frame is not there in full.
    Short,
    /// The header breaks a rule.
    Refused(Violation),
    /// A frame whose payload reaches from one place to another.
    Whole { frame: Frame, from: int, to: int },
}

/// The length of the payload, for a header whose length is there in full.
pub open spec fn payload_len(bytes: Seq<u8>) -> usize {
    if length_width(bytes[1]) == 0 {
        (bytes[1] % 128) as usize
    } else {
        number_of(bytes.subrange(2, 2 + length_width(bytes[1]))) as usize
    }
}

/// What stands at the start of `bytes`.
pub open spec fn parsed(bytes: Seq<u8>) -> Parsed {
    if bytes.len() < 2 {
        Parsed::Short
    } else if let Some(violation) = header_violation(bytes[0], bytes[1]) {
        Parsed::Refused(violation)
    } else {
        let from = 2 + length_width(bytes[1]);
        if bytes.len() < from || bytes.len() < from + payload_len(bytes) {
            Parsed::Short
        } else {
            Parsed::Whole {
                frame: header_frame(bytes[0]),
                from,
                to: from + payload_len(bytes),
            }
        }
    }
}

/// The length of a payload as the header of a server's frame gives it.
pub open spec fn unmasked_length(len: nat) -> Seq<u8> {
    if len < 126 {
        seq![len as u8]
    } else if len < 65536 {
        seq![126u8] + spelled(len, 2)
    } else {
        seq![127u8] + spelled(len, 8)
    }
}

/// The frame as a server puts it on the wire.
pub open spec fn unmasked(frame: Frame, data: Seq<u8>) -> Seq<u8> {
    seq![first_byte(frame)] + unmasked_length(data.len()) + data
}

/// What the protocol lets a server send.
pub open spec fn sendable(frame: Frame, data: Seq<u8>) -> bool {
    &&& !frame.opcode.spec_is_reserved()
    &&& frame.opcode.spec_is_control() ==> frame.fin && data.len() <= 125
    &&& frame.opcode is Close ==> data.len() != 1
}

/// Whatever a server may send, a client reads back, with whatever follows left
/// untouched.
pub proof fn sent_frame_is_parsed(frame: Frame, data: Seq<u8>, rest: Seq<u8>)
    requires
        sendable(frame, data),
        data.len() <= usize::MAX,
    ensures
        ({
            let bytes = unmasked(frame, data) + rest;
            &&& parsed(bytes) matches Parsed::Whole { frame: read, from, to }
            &&& read == frame
            &&& bytes.subrange(from, to) == data
            &&& bytes.skip(to) == rest
        }),
{
    let bytes = unmasked(frame, data) + rest;
    spelled_has_width(data.len(), 2);
    spelled_has_width(data.len(), 8);
    spans();
    if data.len() < 126 {
    } else if data.len() < 65536 {
        assert(bytes.subrange(2, 4) =~= spelled(data.len(), 2));
        spelled_number_reads_back(data.len(), 2);
    } else {
        assert(bytes.subrange(2, 10) =~= spelled(data.len(), 8));
        spelled_number_reads_back(data.len(), 8);
    }
    assert(payload_len(bytes) == data.len());
    let from = 2 + length_width(bytes[1]);
    assert(bytes.subrange(from, from + data.len()) =~= data);
    assert(bytes.skip(from + data.len()) =~= rest);
}

/// What was read at the start of the bytes stays the same when more arrive.
pub proof fn more_bytes_change_nothing(bytes: Seq<u8>, more: Seq<u8>)
    requires
        parsed(bytes) !is Short,
    ensures
        parsed(bytes + more) == parsed(bytes),
        parsed(bytes) matches Parsed::Whole { frame, from, to } ==> (bytes + more).subrange(
            from,
            to,
        ) == bytes.subrange(from, to) && (bytes + more).skip(to) == bytes.skip(to) + more,
{
    let all = bytes + more;
    if let Parsed::Whole { frame, from, to } = parsed(bytes) {
        assert(all.subrange(2, from) =~= bytes.subrange(2, from));
        assert(all.subrange(from, to) =~= bytes.subrange(from, to));
        assert(all.skip(to) =~= bytes.skip(to) + more);
    }
}

/// Frames with their payloads, as a server sends them one after the other.
pub open spec fn wire(frames: Seq<(Frame, Seq<u8>)>) -> Seq<u8>
    decreases frames.len(),
{
    if frames.len() == 0 {
        Seq::empty()
    } else {
        unmasked(frames[0].0, frames[0].1) + wire(frames.drop_first())
    }
}

/// The frames at the start of `bytes` that are there in full and break no rule of
/// the header, each with its payload.
pub open spec fn frames_in(bytes: Seq<u8>) -> Seq<(Frame, Seq<u8>)>
    decreases bytes.len(),
{
    match parsed(bytes) {
        Parsed::Whole { frame, from, to } => seq![(frame, bytes.subrange(from, to))] + frames_in(
            bytes.skip(to),
        ),
        _ => Seq::empty(),
    }
}

/// What is left of `bytes` behind the frames in them.
pub open spec fn behind_frames(bytes: Seq<u8>) -> Seq<u8>
    decreases bytes.len(),
{
    match parsed(bytes) {
        Parsed::Whole { frame, from, to } => behind_frames(bytes.skip(to)),
        _ => bytes,
    }
}

/// Everything that a server may send is read back, frame by frame and in order,
/// and nothing else is.
pub proof fn sent_frames_are_read_in_order(frames: Seq<(Frame, Seq<u8>)>)
    requires
        forall|i: int|
            0 <= i < frames.len() ==> sendable((#[trigger] frames[i]).0, frames[i].1)
                && frames[i].1.len() <= usize::MAX,
    ensures
        frames_in(wire(frames)) == frames,
        behind_frames(wire(frames)) == Seq::<u8>::empty(),
    decreases frames.len(),
{
    if frames.len() > 0 {
        let rest = frames.drop_first();
        assert forall|i: int| 0 <= i < rest.len() implies sendable((#[trigger] rest[i]).0, rest[i].1)
            && rest[i].1.len() <= usize::MAX by {
            assert(rest[i] == frames[i + 1]);
        }
        sent_frames_are_read_in_order(rest);
        sent_frame_is_parsed(frames[0].0, frames[0].1, wire(rest));
        assert(seq![frames[0]] + rest =~= frames);
    }
}

/// It does not matter where the bytes are cut on their way: the frames in what
/// has arrived come first, and the others are found in what they leave, together
/// with what arrives later.
pub proof fn cuts_do_not_matter(bytes: Seq<u8>, more: Seq<u8>)
    ensures
        frames_in(bytes + more) == frames_in(bytes) + frames_in(behind_frames(bytes) + more),
    decreases bytes.len(),
{
    match parsed(bytes) {
        Parsed::Whole { frame, from, to } => {
            more_bytes_change_nothing(bytes, more);
            cuts_do_not_matter(bytes.skip(to), more);
            let first = seq![(frame, bytes.subrange(from, to))];
            let later = behind_frames(bytes) + more;
            assert(first + (frames_in(bytes.skip(to)) + frames_in(later)) =~= (first + frames_in(
                bytes.skip(to),
            )) + frames_in(later));
        },
        _ => {
            assert(Seq::<(Frame, Seq<u8>)>::empty() + frames_in(bytes + more) =~= frames_in(
                bytes + more,
            ));
        },
    }
}

/// A close frame that a client accepts never carries one of the codes that are
/// not for sending.
pub proof fn accepted_close_code_is_sendable(data: Seq<u8>)
    requires
        close_violation(data) is None,
    ensures
        data.len() >= 2 ==> close_code(data) is Some,
        close_code(data) matches Some(code) ==> !code.spec_is_reserved() && code.wf()
            && code.number() == close_number(data),
{
}

/// What the bits of a header have to be, and what is said where they are not: the
/// reserved bits are clear, the payload is not masked, the opcode is in use, and a
/// control frame is final and has at most 125 bytes, a close frame not just one.
pub proof fn header_rules(first: u8, second: u8)
    ensures
        ({
            let found = header_violation(first, second);
            let clear = first & 0x70 == 0 && second & 0x80 == 0;
            let fin = first & 0x80 != 0;
            let number = first & 0x0F;
            let len = second & 0x7F;
            let control = 8 <= number <= 10;
            &&& found is None <==> {
                &&& clear
                &&& number <= 2 || control
                &&& control ==> fin && len <= 125
                &&& number == 8 ==> len != 1
            }
            &&& found == Some(Violation::ReservedBit) <==> first & 0x70 != 0
            &&& found == Some(Violation::Masked) <==> first & 0x70 == 0 && second & 0x80 != 0
            &&& found == Some(Violation::ReservedOpcode) <==> clear && (3 <= number <= 7 || number
                >= 11)
            &&& found == Some(Violation::HalfCloseCode) <==> clear && number == 8 && len == 1
            &&& found == Some(Violation::LongControl) <==> clear && control && len > 125
            &&& found == Some(Violation::FragmentedControl) <==> clear && control && !fin && len
                <= 125 && !(number == 8 && len == 1)
            &&& header_frame(first).fin == fin
            &&& header_frame(first).opcode.number() == number
        }),
{
    assert((first & 0x70 == 0) == ((first / 16) % 8 == 0)) by (bit_vector);
    assert((first & 0x80 != 0) == (first >= 128)) by (bit_vector);
    assert(first & 0x0F == first % 16) by (bit_vector);
    assert((second & 0x80 != 0) == (second >= 128)) by (bit_vector);
    assert(second & 0x7F == second % 128) by (bit_vector);
}

/// Where the length of a payload stands and what it is: in the second byte, or,
/// behind 126, in the next two bytes, or, behind 127, in the next eight.
pub proof fn lengths_are_read_from_their_places(bytes: Seq<u8>)
    requires
        bytes.len() >= 2,
        bytes[1] < 128,
    ensures
        bytes[1] <= 125 ==> length_width(bytes[1]) == 0 && payload_len(bytes) == bytes[1],
        bytes[1] == 126 ==> length_width(bytes[1]) == 2,
        bytes[1] == 126 && bytes.len() >= 4 ==> payload_len(bytes) == 256 * bytes[2] + bytes[3],
        bytes[1] == 127 ==> length_width(bytes[1]) == 8,
        bytes[1] == 127 && bytes.len() >= 10 ==> payload_len(bytes) == (0x100_0000_0000_0000
            * bytes[2] + 0x1_0000_0000_0000 * bytes[3] + 0x100_0000_0000 * bytes[4]
            + 0x1_0000_0000 * bytes[5] + 0x100_0000 * bytes[6] + 0x1_0000 * bytes[7] + 0x100
            * bytes[8] + bytes[9]) as usize,
{
    if bytes[1] == 126 && bytes.len() >= 4 {
        two_bytes_spell(bytes.subrange(2, 4));
    }
    if bytes[1] == 127 && bytes.len() >= 10 {
        eight_bytes_spell(bytes.subrange(2, 10));
    }
}

/// What is made of the bytes from a server: a frame is there in full where the
/// header breaks no rule and the bytes reach to the end of its payload, which
/// begins right behind the length.
pub proof fn frames_begin_and_end_where_they_say(bytes: Seq<u8>)
    ensures
        match parsed(bytes) {
            Parsed::Refused(violation) => bytes.len() >= 2 && header_violation(bytes[0], bytes[1])
                == Some(violation),
            Parsed::Whole { frame, from, to } => {
                &&& bytes.len() >= to
                &&& header_violation(bytes[0], bytes[1]) is None
                &&& frame.fin == (bytes[0] >= 128)
                &&& frame.opcode.number() == bytes[0] % 16
                &&& from == if bytes[1] == 126 {
                    4int
                } else if bytes[1] == 127 {
                    10int
                } else {
                    2int
                }
                &&& to == from + payload_len(bytes)
                &&& bytes[1] <= 125 ==> to == 2 + bytes[1]
                &&& bytes[1] == 126 ==> to == 4 + 256 * bytes[2] + bytes[3]
            },
            Parsed::Short => {
                ||| bytes.len() < 2
                ||| header_violation(bytes[0], bytes[1]) is None && {
                    ||| bytes[1] <= 125 && bytes.len() < 2 + bytes[1]
                    ||| bytes[1] == 126 && bytes.len() < 4
                    ||| bytes[1] == 126 && bytes.len() < 4 + 256 * bytes[2] + bytes[3]
                    ||| bytes[1] == 127 && bytes.len() < 10
                    ||| bytes[1] == 127 && bytes.len() < 10 + payload_len(bytes)
                }
            },
        },
{
    if bytes.len() >= 2 && bytes[1] < 128 {
        lengths_are_read_from_their_places(bytes);
    }
}

/// Every byte of a frame as a server puts it on the wire, and what a server may
/// send.
pub proof fn unmasked_byte_by_byte(frame: Frame, data: Seq<u8>)
    requires
        data.len() <= u64::MAX,
    ensures
        ({
            let bytes = unmasked(frame, data);
            let len = data.len();
            let at: int = if len <= 125 {
                2
            } else if len <= 0xFFFF {
                4
            } else {
                10
            };
            &&& bytes.len() == at + len
            &&& bytes[0] == frame.opcode.number() + if frame.fin {
                0x80int
            } else {
                0int
            }
            &&& len <= 125 ==> bytes[1] == len
            &&& 126 <= len <= 0xFFFF ==> bytes[1] == 126 && 256 * bytes[2] + bytes[3] == len
            &&& len > 0xFFFF ==> bytes[1] == 127 && 0x100_0000_0000_0000 * bytes[2]
                + 0x1_0000_0000_0000 * bytes[3] + 0x100_0000_0000 * bytes[4] + 0x1_0000_0000
                * bytes[5] + 0x100_0000 * bytes[6] + 0x1_0000 * bytes[7] + 0x100 * bytes[8]
                + bytes[9] == len
            &&& forall|i: int| 0 <= i < len ==> bytes[at + i] == #[trigger] data[i]
        }),
        sendable(frame, data) <==> {
            let number = frame.opcode.number();
            &&& number <= 2 || 8 <= number <= 10
            &&& number >= 8 ==> frame.fin && data.len() <= 125
            &&& number == 8 ==> data.len() != 1
        },
{
    let bytes = unmasked(frame, data);
    let len = data.len();
    spelled_has_width(len, 2);
    spelled_has_width(len, 8);
    spans();
    if len <= 125 {
    } else if len <= 0xFFFF {
        assert(bytes.subrange(2, 4) =~= spelled(len, 2));
        spelled_number_reads_back(len, 2);
        two_bytes_spell(bytes.subrange(2, 4));
    } else {
        assert(bytes.subrange(2, 10) =~= spelled(len, 8));
        spelled_number_reads_back(len, 8);
        eight_bytes_spell(bytes.subrange(2, 10));
    }
}

/// Which close frames are accepted, and what is said of the others: the payload is
/// empty, or it begins with a number from 1000 to 4999, the most significant byte
/// first, that is not one of those that no close frame may carry, and goes on with
/// UTF-8. (That a payload is not a single byte is a rule of the header.)
pub proof fn close_frames_are_accepted_by_their_number(data: Seq<u8>)
    ensures
        ({
            let number = 256 * data[0] + data[1];
            let known = 1000 <= number <= 4999;
            let kept_back = 1004 <= number <= 1006 || 1015 <= number <= 2999;
            &&& close_violation(data) is None <==> data.len() < 2 || (known && !kept_back && (
            data.len() == 2 || valid_utf8(data.skip(2))))
            &&& close_violation(data) == Some(Violation::InvalidCloseCode) <==> data.len() >= 2
                && !known
            &&& close_violation(data) == Some(Violation::ReservedCloseCode) <==> data.len() >= 2
                && kept_back
            &&& close_violation(data) == Some(Violation::InvalidCloseReason) <==> data.len() > 2
                && known && !kept_back && !valid_utf8(data.skip(2))
        }),
{
    if data.len() >= 2 {
        two_bytes_spell(data.take(2));
    }
}

/// What an accepted close frame says: the number in its first two bytes, and
/// behind them a text that its bytes spell.
pub proof fn close_frames_say_what_they_carry(data: Seq<u8>)
    requires
        close_violation(data) is None,
    ensures
        data.len() < 2 ==> close_code(data) is None,
        data.len() >= 2 ==> (close_code(data) matches Some(code) && code.wf() && code.number()
            == 256 * data[0] + data[1]),
        data.len() <= 2 ==> close_reason(data) is None,
        data.len() > 2 ==> (close_reason(data) matches Some(reason) && encode_utf8(reason)
            == data.skip(2)),
{
    if data.len() >= 2 {
        two_bytes_spell(data.take(2));
    }
    if data.len() > 2 {
        decode_utf8_encode_utf8(data.skip(2));
    }
}

/// Only pings and closes are answered: a ping with a pong, a close with a close,
/// unless its payload is not accepted.
pub proof fn only_pings_and_closes_are_answered(frame: Frame, data: Seq<u8>)
    ensures
        answer_to(frame, data) is Pong <==> frame.opcode.number() == 9,
        answer_to(frame, data) is Close <==> frame.opcode.number() == 8 && close_violation(data)
            is None,
        answer_to(frame, data) is Refuse <==> frame.opcode.number() == 8 && close_violation(data)
            is Some,
        answer_to(frame, data) matches Answer::Refuse(violation) ==> close_violation(data) == Some(
            violation,
        ),
        answer_to(frame, data) is Nothing <==> frame.opcode.number() != 8 && frame.opcode.number()
            != 9,
{
}

/// Whoever takes the key out of the bytes of a frame that was sent, and combines
/// the bytes behind it with the bytes of the key in turn, has the payload; the
/// header says how long it is.
pub proof fn sent_bytes_give_the_payload_back(bytes: Seq<u8>, frame: Frame, data: Seq<u8>)
    requires
        sends(bytes, frame, data),
        data.len() <= u64::MAX,
    ensures
        ({
            let len = data.len();
            let at: int = if len <= 125 {
                2
            } else if len <= 0xFFFF {
                4
            } else {
                10
            };
            &&& bytes.len() == at + 4 + len
            &&& bytes[0] == frame.opcode.number() + if frame.fin {
                0x80int
            } else {
                0int
            }
            &&& len <= 125 ==> bytes[1] == 0x80 + len
            &&& 126 <= len <= 0xFFFF ==> bytes[1] == 0xFE && 256 * bytes[2] + bytes[3] == len
            &&& len > 0xFFFF ==> bytes[1] == 0xFF && 0x100_0000_0000_0000 * bytes[2]
                + 0x1_0000_0000_0000 * bytes[3] + 0x100_0000_0000 * bytes[4] + 0x1_0000_0000
                * bytes[5] + 0x100_0000 * bytes[6] + 0x1_0000 * bytes[7] + 0x100 * bytes[8]
                + bytes[9] == len
            &&& forall|i: int|
                0 <= i < len ==> bytes[at + 4 + i] ^ bytes[at + i % 4] == #[trigger] data[i]
        }),
{
    let mask = choose|mask: Seq<u8>| mask.len() == 4 && bytes == #[trigger] encoded(
        frame,
        data,
        mask,
    );
    encoded_byte_by_byte(frame, data, mask);
    let at: int = if data.len() <= 125 {
        2
    } else if data.len() <= 0xFFFF {
        4
    } else {
        10
    };
    assert forall|i: int| 0 <= i < data.len() implies bytes[at + 4 + i] ^ bytes[at + i % 4]
        == #[trigger] data[i] by {
        let m = mask[i % 4];
        let b = data[i];
        assert(bytes[at + i % 4] == m);
        assert((b ^ m) ^ m == b) by (bit_vector);
    }
}

/// The close frame that reports a protocol error carries the number 1002, and an
/// answer is always a frame of its own.
pub proof fn protocol_errors_are_number_1002(opcode: Opcode)
    ensures
        protocol_error_payload() == seq![0x03u8, 0xEAu8],
        last(opcode).fin,
        last(opcode).opcode == opcode,
{
    let payload = protocol_error_payload();
    spelled_has_width(1002, 2);
    spans();
    spelled_number_reads_back(1002, 2);
    two_bytes_spell(payload);
    assert(payload =~= seq![0x03u8, 0xEAu8]);
}

/// An optional `String` stands for its text.
pub proof fn optional_text_is_its_text(text: String)
    ensures
        text_of(Some(text)) == Some(text@),
        text_of(None) is None,
{
}

} // verus!
