//! A client that owns what it reads.
//!
//! Frames and messages are read in steps: a step names the read or the write that
//! has to happen, and the next one is asked for when it has.

use bytes::BytesMut;
use rand::rngs::SmallRng;
use vstd::prelude::*;
use vstd::utf8::encode_utf8;

use crate::buffer::{advance, as_slice, from_vec, held, into_vec};
use crate::close_code::CloseCode;
use crate::conversation::{
    self, all_due, carries, carries_both, due, ending, farewell, last_ending, one_message, pongs,
    pongs_and_one_farewell, Ending, Reading,
};
use crate::endian::read_number;
use crate::frame::{
    control_encoding_is_the_encoding, encoded, encoded_control, first_byte, Frame, Message,
};
use crate::io_error::IoError;
use crate::message::{acceptable, grown, turn, Assembly, PartialMessage, Turn};
use crate::opcode::Opcode;
use crate::protocol::{
    answer, answer_to, close_code, close_frames_say_what_they_carry, close_reason, close_violation, header_frame, header_rules, header_violation, last,
    length_width, lengths_are_read_from_their_places, parsed, payload_len, protocol_error, protocol_error_payload,
    protocol_errors_are_number_1002, read_close,
    read_header, sendable, sends, sent_frame_is_parsed, text_of, unmasked, wire, Answer,
    Parsed, Violation,
};
use crate::random::{next_mask, seeded};

verus! {

/// How much room a client sets aside at its start.
pub struct Config {
    pub read_buffer_capacity: usize,
    pub write_buffer_capacity: usize,
}

impl Default for Config {
    /// 128 KiB for each direction.
    fn default() -> (config: Self)
        ensures
            config.read_buffer_capacity == 128 * 1024,
            config.write_buffer_capacity == 128 * 1024,
    {
        Self { read_buffer_capacity: 128 * 1024, write_buffer_capacity: 128 * 1024 }
    }
}

/// Why a client could not go on.
#[derive(Debug)]
pub enum Error {
    /// The stream gave out.
    Io(IoError),
    /// The server broke the protocol.
    ProtocolViolation(&'static str),
    /// The server closed the connection.
    Closed { code: Option<CloseCode>, reason: Option<String> },
}

impl vstd::std_specs::convert::FromSpecImpl<std::io::Error> for Error {
    open spec fn obeys_from_spec() -> bool {
        true
    }

    open spec fn from_spec(error: std::io::Error) -> Error {
        Error::Io(IoError::Stream(error))
    }
}

impl From<std::io::Error> for Error {
    fn from(error: std::io::Error) -> (result: Self) {
        Error::Io(IoError::Stream(error))
    }
}

/// The result of what a client does.
pub type ClientResult<T> = Result<T, Error>;

/// A frame with its payload.
#[derive(Debug)]
pub struct OwnedFrame {
    pub frame: Frame,
    pub data: Vec<u8>,
}

/// How many bytes have to be there before more can be said about the frame at
/// the start of `bytes`, whose header is in order. The payload is taken to begin
/// right behind the two bytes of header, also where these are followed by bytes
/// of length.
pub open spec fn wanted(bytes: Seq<u8>) -> int {
    if bytes.len() < 2 {
        2
    } else if bytes.len() < 2 + length_width(bytes[1]) {
        2 + length_width(bytes[1])
    } else {
        2 + payload_len(bytes)
    }
}

/// Whether the header at the start of `bytes` breaks a rule.
pub open spec fn refused(bytes: Seq<u8>) -> Option<Violation> {
    if bytes.len() < 2 {
        None
    } else {
        header_violation(bytes[0], bytes[1])
    }
}

/// Whether the frame at the start of `bytes` can be counted in a `usize`.
pub open spec fn countable(bytes: Seq<u8>) -> bool {
    refused(bytes) is None ==> wanted(bytes) <= usize::MAX
}

/// What a look at the bytes that have arrived shows.
#[derive(Debug)]
pub enum Decoding {
    /// There have to be this many bytes.
    NeedMore(usize),
    /// The header breaks a rule.
    Refused(Violation),
    /// A frame, taken out of the bytes.
    Taken(OwnedFrame),
}

/// `found` is what a look at `before` shows, and `after` is what it leaves.
pub open spec fn decodes(before: Seq<u8>, found: Decoding, after: Seq<u8>) -> bool {
    if let Some(violation) = refused(before) {
        &&& found == Decoding::Refused(violation)
        &&& after == before
    } else if before.len() < wanted(before) {
        &&& found == Decoding::NeedMore(wanted(before) as usize)
        &&& after == before
    } else {
        &&& found matches Decoding::Taken(taken)
        &&& taken.frame == header_frame(before[0])
        &&& taken.data@ == before.subrange(2, wanted(before))
        &&& after == before.skip(wanted(before))
    }
}

/// What the header of the frame that arrives says.
enum Measure {
    NeedMore(usize),
    Refused(Violation),
    Known(Frame, usize),
}

/// How many bytes a read that is short of `missing` bytes asks for.
pub open spec fn chunk(missing: int) -> int {
    if missing > 4096 {
        missing
    } else {
        4096
    }
}

/// The bytes that have arrived and were not taken yet.
pub struct ReadHalf {
    buffer: BytesMut,
}

impl View for ReadHalf {
    type V = Seq<u8>;

    closed spec fn view(&self) -> Seq<u8> {
        held(self.buffer)
    }
}

impl ReadHalf {
    /// The least that a read asks for.
    pub const CHUNK_SIZE: usize = 4096;

    /// No bytes, with room for some.
    pub fn with_capacity(capacity: usize) -> (half: Self)
        requires
            capacity <= isize::MAX,
        ensures
            half@ == Seq::<u8>::empty(),
    {
        Self { buffer: BytesMut::with_capacity(capacity) }
    }

    /// Makes room before a frame is read: where the bytes that were not taken yet
    /// fill more than half of the buffer, the room of those that were taken is
    /// reclaimed. Nothing that was not taken is lost. Returns the capacity that
    /// there is then, on which the allocator decides.
    pub fn begin_frame(&mut self) -> (capacity: usize)
        ensures
            capacity >= old(self)@.len(),
            final(self)@ == old(self)@,
    {
        if self.buffer.len() > self.buffer.capacity() / 2 {
            let _reclaimed: bool = self.buffer.try_reclaim(Self::CHUNK_SIZE);
        }
        self.buffer.capacity()
    }

    /// How many bytes a read has to ask for until `len` bytes are there.
    pub fn ensure_read(&self, len: usize) -> (to_read: Option<usize>)
        ensures
            to_read == if self@.len() < len {
                Some(chunk(len - self@.len()) as usize)
            } else {
                None
            },
    {
        let there: usize = self.buffer.len();
        if there < len {
            let remaining: usize = len - there;
            if remaining > Self::CHUNK_SIZE {
                Some(remaining)
            } else {
                Some(Self::CHUNK_SIZE)
            }
        } else {
            None
        }
    }

    /// Takes in what a read gave. A read that gave nothing met the end of the
    /// stream.
    pub fn received(&mut self, bytes: &[u8]) -> (result: ClientResult<()>)
        requires
            old(self)@.len() + bytes@.len() <= isize::MAX,
        ensures
            result == if bytes@.len() > 0 {
                Ok::<(), Error>(())
            } else {
                Err::<(), Error>(Error::Io(IoError::UnexpectedEof))
            },
            final(self)@ == old(self)@ + bytes@,
    {
        assert(bytes@.len() == 0 ==> old(self)@ + bytes@ =~= old(self)@);
        if bytes.len() > 0 {
            self.buffer.extend_from_slice(bytes);
            Ok(())
        } else {
            Err(Error::Io(IoError::UnexpectedEof))
        }
    }

    /// Reads the header at the start of the bytes.
    fn measure(&self) -> (measure: Measure)
        ensures
            match measure {
                Measure::Refused(violation) => refused(self@) == Some(violation),
                Measure::NeedMore(total) => refused(self@) is None && self@.len() < wanted(self@)
                    && (self@.len() < 2 || self@.len() < 2 + length_width(self@[1])) && total
                    == wanted(self@),
                Measure::Known(frame, length) => refused(self@) is None && self@.len() >= 2
                    && self@.len() >= 2 + length_width(self@[1]) && frame == header_frame(self@[0])
                    && length == payload_len(self@),
            },
    {
        let bytes = as_slice(&self.buffer);
        if bytes.len() < 2 {
            return Measure::NeedMore(2);
        }
        let (frame, short) = match read_header(bytes[0], bytes[1]) {
            Ok(header) => header,
            Err(violation) => return Measure::Refused(violation),
        };
        let width: usize = if short == 126 {
            2
        } else if short == 127 {
            8
        } else {
            return Measure::Known(frame, short as usize);
        };
        if bytes.len() < 2 + width {
            return Measure::NeedMore(2 + width);
        }
        let spelling = vstd::slice::slice_subrange(bytes, 2, 2 + width);
        let length: u64 = read_number(spelling);
        Measure::Known(frame, length as usize)
    }

    /// Whether the frame that arrives can be counted in a `usize`.
    pub fn length_fits(&self) -> (fits: bool)
        ensures
            fits == countable(self@),
    {
        match self.measure() {
            Measure::Known(_, length) => length <= usize::MAX - 2,
            _ => true,
        }
    }

    /// Takes the first frame out of the bytes, where it is there in full.
    pub fn read_frame_inner(&mut self) -> (found: Decoding)
        requires
            countable(old(self)@),
        ensures
            decodes(old(self)@, found, final(self)@),
    {
        let (frame, length) = match self.measure() {
            Measure::NeedMore(total) => return Decoding::NeedMore(total),
            Measure::Refused(violation) => return Decoding::Refused(violation),
            Measure::Known(frame, length) => (frame, length),
        };
        let total: usize = 2 + length;
        if self.buffer.len() < total {
            return Decoding::NeedMore(total);
        }
        let ghost before = self@;
        advance(&mut self.buffer, 2);
        let front = self.buffer.split_to(length);
        let data = into_vec(front);
        assert(before.skip(2).take(length as int) =~= before.subrange(2, total as int));
        assert(before.skip(2).skip(length as int) =~= before.skip(total as int));
        Decoding::Taken(OwnedFrame { frame, data })
    }

    /// The next step on the way to a frame. Nothing is taken out of the bytes
    /// that have arrived before the frame is there in full. `write` gives the
    /// bytes of the answer, where one is due.
    pub fn read_frame(&mut self, write: &mut WriteHalf) -> (step: ReadStep)
        requires
            countable(old(self)@),
        ensures
            reads(old(self)@, step, final(self)@),
            final(write).kept() == if step is Send {
                Seq::<u8>::empty()
            } else {
                old(write).kept()
            },
    {
        let read = match self.read_frame_inner() {
            Decoding::NeedMore(total) => {
                return match self.ensure_read(total) {
                    Some(to_read) => ReadStep::Read(to_read),
                    None => vstd::pervasive::unreached(),
                };
            },
            Decoding::Refused(violation) => return refuse_frame(write, violation),
            Decoding::Taken(read) => read,
        };
        let frame = read.frame;
        assert(frame.opcode is Ping || frame.opcode is Close ==> read.data@.len() <= 125);
        match answer(frame, read.data.as_slice()) {
            Answer::Nothing => ReadStep::Done(read),
            Answer::Pong => {
                let pong = Frame { fin: true, opcode: Opcode::Pong };
                let bytes = write.write_control_frame(pong, read.data.as_slice());
                ReadStep::Send { bytes, outcome: Ok(read) }
            },
            Answer::Close => {
                let close = Frame { fin: true, opcode: Opcode::Close };
                let bytes = write.write_control_frame(close, read.data.as_slice());
                ReadStep::Send { bytes, outcome: Ok(read) }
            },
            Answer::Refuse(violation) => refuse_frame(write, violation),
        }
    }

    /// Takes in a frame of the message that is being read, and says what has to
    /// happen next. `write` gives the bytes of the answer, where one is due.
    pub fn next_msg(
        write: &mut WriteHalf,
        message: &mut PartialMessage,
        frame: &OwnedFrame,
    ) -> (step: MessageStep)
        requires
            acceptable(frame.frame, frame.data@),
        ensures
            follows(step, turn(old(message)@, frame.frame, frame.data@), frame.data@),
            final(message)@ == grown(old(message)@, frame.frame, frame.data@),
            final(write).kept() == if step is Send {
                Seq::<u8>::empty()
            } else {
                old(write).kept()
            },
    {
        match message.take_frame(frame.frame, frame.data.as_slice()) {
            Turn::Continue => MessageStep::ReadFrame,
            Turn::Complete(kind) => MessageStep::Done(Ok(kind)),
            Turn::Refuse(violation) => {
                let payload = protocol_error();
                let bytes = write.send_close(payload.as_slice());
                MessageStep::Send {
                    bytes,
                    outcome: Err(Error::ProtocolViolation(violation.reason())),
                }
            },
            Turn::Closed => {
                let (code, reason) = read_close(frame.data.as_slice());
                MessageStep::Done(Err(Error::Closed { code, reason }))
            },
        }
    }
}

/// Answers a frame that breaks the protocol.
fn refuse_frame(write: &mut WriteHalf, violation: Violation) -> (step: ReadStep)
    ensures
        refuses(step, violation),
        final(write).kept() == Seq::<u8>::empty(),
{
    let payload = protocol_error();
    let bytes = write.send_close(payload.as_slice());
    ReadStep::Send { bytes, outcome: Err(Error::ProtocolViolation(violation.reason())) }
}

/// Whether a payload can be sent in one frame.
pub open spec fn fits_frame(data: Seq<u8>) -> bool {
    data.len() + 14 <= isize::MAX
}

/// Turns frames into bytes to be written.
pub struct WriteHalf {
    rng: SmallRng,
    buffer: BytesMut,
}

impl WriteHalf {
    /// The bytes in the buffer that the next frame is written into.
    pub closed spec fn kept(&self) -> Seq<u8> {
        held(self.buffer)
    }

    /// A write half with room for some bytes.
    pub fn with_capacity(capacity: usize) -> (half: Self)
        requires
            capacity <= isize::MAX,
        ensures
            half.kept() == Seq::<u8>::empty(),
    {
        Self { rng: seeded(), buffer: BytesMut::with_capacity(capacity) }
    }

    /// Takes the buffer out.
    fn take_buffer(&mut self) -> (dst: Vec<u8>)
        ensures
            dst@ == old(self).kept(),
            final(self).kept() == Seq::<u8>::empty(),
    {
        let mut buffer = BytesMut::new();
        std::mem::swap(&mut buffer, &mut self.buffer);
        into_vec(buffer)
    }

    /// The bytes of a final ping frame.
    pub fn send_ping(&mut self, data: &[u8]) -> (bytes: Vec<u8>)
        requires
            fits_frame(data@),
        ensures
            sends(bytes@, last(Opcode::Ping), data@),
            final(self).kept() == Seq::<u8>::empty(),
    {
        self.write_frame(Frame { fin: true, opcode: Opcode::Ping }, data)
    }

    /// The bytes of a final pong frame.
    pub fn send_pong(&mut self, data: &[u8]) -> (bytes: Vec<u8>)
        requires
            fits_frame(data@),
        ensures
            sends(bytes@, last(Opcode::Pong), data@),
            final(self).kept() == Seq::<u8>::empty(),
    {
        self.write_frame(Frame { fin: true, opcode: Opcode::Pong }, data)
    }

    /// The bytes of a binary message.
    pub fn send_binary(&mut self, data: &[u8]) -> (bytes: Vec<u8>)
        requires
            fits_frame(data@),
        ensures
            sends(bytes@, last(Opcode::Binary), data@),
            final(self).kept() == Seq::<u8>::empty(),
    {
        self.write_frame(Frame { fin: true, opcode: Opcode::Binary }, data)
    }

    /// The bytes of a text message.
    pub fn send_text(&mut self, data: &[u8]) -> (bytes: Vec<u8>)
        requires
            fits_frame(data@),
        ensures
            sends(bytes@, last(Opcode::Text), data@),
            final(self).kept() == Seq::<u8>::empty(),
    {
        self.write_frame(Frame { fin: true, opcode: Opcode::Text }, data)
    }

    /// The bytes of a close frame.
    pub fn send_close(&mut self, data: &[u8]) -> (bytes: Vec<u8>)
        requires
            fits_frame(data@),
        ensures
            sends(bytes@, last(Opcode::Close), data@),
            final(self).kept() == Seq::<u8>::empty(),
    {
        self.write_frame(Frame { fin: true, opcode: Opcode::Close }, data)
    }

    /// The bytes of a frame with the payload `data`, under a masking key of its
    /// own.
    pub fn write_frame(&mut self, frame: Frame, data: &[u8]) -> (bytes: Vec<u8>)
        requires
            fits_frame(data@),
        ensures
            sends(bytes@, frame, data@),
            final(self).kept() == Seq::<u8>::empty(),
    {
        let mut dst = self.take_buffer();
        let mask = next_mask(&mut self.rng);
        frame.encode(data, &mut dst, mask);
        assert(mask@.len() == 4 && dst@ == encoded(frame, data@, mask@));
        dst
    }

    /// The bytes of a control frame with the payload `data`, under a masking key
    /// of its own.
    pub fn write_control_frame(&mut self, frame: Frame, data: &[u8]) -> (bytes: Vec<u8>)
        requires
            fits_frame(data@),
        ensures
            exists|mask: Seq<u8>|
                mask.len() == 4 && bytes@ == #[trigger] encoded_control(frame, data@, mask),
            data@.len() <= 125 ==> sends(bytes@, frame, data@),
            final(self).kept() == Seq::<u8>::empty(),
    {
        let mut dst = self.take_buffer();
        let mask = next_mask(&mut self.rng);
        frame.encode_control(data, &mut dst, mask);
        assert(mask@.len() == 4 && dst@ == encoded_control(frame, data@, mask@));
        proof {
            if data@.len() <= 125 {
                control_encoding_is_the_encoding(frame, data@, mask@);
                assert(dst@ == encoded(frame, data@, mask@));
            }
        }
        dst
    }

    /// Takes back the buffer that was written from.
    pub fn written(&mut self, buffer: Vec<u8>)
        ensures
            final(self).kept() == buffer@,
    {
        self.buffer = from_vec(buffer);
    }
}

/// What has to happen next for a frame to be read.
#[derive(Debug)]
pub enum ReadStep {
    /// A read that asks for this many bytes; what it gives goes to
    /// [`Client::received`].
    Read(usize),
    /// The bytes have to be written; then the outcome holds, unless the write
    /// fails (see [`sent`]).
    Send { bytes: Vec<u8>, outcome: ClientResult<OwnedFrame> },
    /// The frame is read.
    Done(OwnedFrame),
}

impl ReadStep {
    /// The frame that this step yields in the end, where it yields one.
    pub open spec fn yields(self) -> Option<OwnedFrame> {
        match self {
            ReadStep::Read(_) => None,
            ReadStep::Send { bytes, outcome } => match outcome {
                Ok(frame) => Some(frame),
                Err(_) => None,
            },
            ReadStep::Done(frame) => Some(frame),
        }
    }
}

/// The step sends a close frame that reports a protocol error, and ends with the
/// violation.
pub open spec fn refuses(step: ReadStep, violation: Violation) -> bool {
    &&& step matches ReadStep::Send { bytes, outcome }
    &&& sends(bytes@, last(Opcode::Close), protocol_error_payload())
    &&& outcome matches Err(Error::ProtocolViolation(reason))
    &&& reason@ == violation.text()
}

/// The step sends a final frame with the given opcode and the payload `data`, and
/// ends with the frame that was read.
pub open spec fn echoes(step: ReadStep, opcode: Opcode, frame: Frame, data: Seq<u8>) -> bool {
    &&& step matches ReadStep::Send { bytes, outcome }
    &&& sends(bytes@, last(opcode), data)
    &&& outcome matches Ok(read)
    &&& read.frame == frame
    &&& read.data@ == data
}

/// The step is the right one for a frame that was read.
pub open spec fn answers(step: ReadStep, frame: Frame, data: Seq<u8>) -> bool {
    match answer_to(frame, data) {
        Answer::Nothing => step matches ReadStep::Done(read) && read.frame == frame && read.data@
            == data,
        Answer::Pong => echoes(step, Opcode::Pong, frame, data),
        Answer::Close => echoes(step, Opcode::Close, frame, data),
        Answer::Refuse(violation) => refuses(step, violation),
    }
}

/// `step` is the right one when `before` has arrived, and `after` is what it
/// leaves.
pub open spec fn reads(before: Seq<u8>, step: ReadStep, after: Seq<u8>) -> bool {
    if let Some(violation) = refused(before) {
        &&& refuses(step, violation)
        &&& after == before
    } else if before.len() < wanted(before) {
        &&& step == ReadStep::Read(chunk(wanted(before) - before.len()) as usize)
        &&& after == before
    } else {
        &&& answers(step, header_frame(before[0]), before.subrange(2, wanted(before)))
        &&& after == before.skip(wanted(before))
    }
}

/// What has to happen next for a message to be read.
#[derive(Debug)]
pub enum MessageStep {
    /// Another frame has to be read.
    ReadFrame,
    /// The bytes have to be written; then the outcome holds, unless the write
    /// fails (see [`sent`]).
    Send { bytes: Vec<u8>, outcome: ClientResult<Message> },
    /// The message is read, or there will be none.
    Done(ClientResult<Message>),
}

/// `step` is the right one after a frame that meant `turn` for the message.
pub open spec fn follows(step: MessageStep, turn: Turn, data: Seq<u8>) -> bool {
    match turn {
        Turn::Continue => step is ReadFrame,
        Turn::Complete(kind) => step matches MessageStep::Done(Ok(message)) && message == kind,
        Turn::Refuse(violation) => {
            &&& step matches MessageStep::Send { bytes, outcome }
            &&& sends(bytes@, last(Opcode::Close), protocol_error_payload())
            &&& outcome matches Err(Error::ProtocolViolation(reason))
            &&& reason@ == violation.text()
        },
        Turn::Closed => {
            &&& step matches MessageStep::Done(Err(Error::Closed { code, reason }))
            &&& code == close_code(data)
            &&& text_of(reason) == close_reason(data)
        },
    }
}

/// What comes of a step whose bytes were written with the given result: a write
/// that fails takes the place of the outcome.
pub fn sent<T>(result: Result<(), std::io::Error>, outcome: ClientResult<T>) -> (end:
    ClientResult<T>)
    ensures
        end == match result {
            Ok(_) => outcome,
            Err(error) => Err::<T, Error>(Error::Io(IoError::Stream(error))),
        },
{
    match result {
        Ok(_) => outcome,
        Err(error) => Err(Error::from(error)),
    }
}

/// A client that keeps what it reads and writes in byte buffers.
pub struct Client {
    read_half: ReadHalf,
    write_half: WriteHalf,
}

impl Client {
    /// The bytes that have arrived and were not taken yet.
    pub closed spec fn unread(&self) -> Seq<u8> {
        self.read_half@
    }

    /// The bytes in the buffer that the next frame is written into.
    pub closed spec fn kept(&self) -> Seq<u8> {
        self.write_half.kept()
    }

    /// A client for which nothing has arrived yet.
    pub fn new(config: &Config) -> (client: Self)
        requires
            config.read_buffer_capacity <= isize::MAX,
            config.write_buffer_capacity <= isize::MAX,
        ensures
            client.unread() == Seq::<u8>::empty(),
            client.kept() == Seq::<u8>::empty(),
    {
        Self {
            read_half: ReadHalf::with_capacity(config.read_buffer_capacity),
            write_half: WriteHalf::with_capacity(config.write_buffer_capacity),
        }
    }

    /// Makes room before a frame is read (see [`ReadHalf::begin_frame`]).
    pub fn begin_frame(&mut self) -> (capacity: usize)
        ensures
            capacity >= old(self).unread().len(),
            final(self).unread() == old(self).unread(),
            final(self).kept() == old(self).kept(),
    {
        self.read_half.begin_frame()
    }

    /// Takes in what a read gave (see [`ReadHalf::received`]).
    pub fn received(&mut self, bytes: &[u8]) -> (result: ClientResult<()>)
        requires
            old(self).unread().len() + bytes@.len() <= isize::MAX,
        ensures
            result == if bytes@.len() > 0 {
                Ok::<(), Error>(())
            } else {
                Err::<(), Error>(Error::Io(IoError::UnexpectedEof))
            },
            final(self).unread() == old(self).unread() + bytes@,
            final(self).kept() == old(self).kept(),
    {
        self.read_half.received(bytes)
    }

    /// How many bytes have arrived and were not taken yet.
    pub fn unread_len(&self) -> (len: usize)
        ensures
            len == self.unread().len(),
    {
        self.read_half.buffer.len()
    }

    /// Whether the frame that arrives can be counted in a `usize`.
    pub fn length_fits(&self) -> (fits: bool)
        ensures
            fits == countable(self.unread()),
    {
        self.read_half.length_fits()
    }

    /// The next step on the way to a frame (see [`ReadHalf::read_frame`]).
    pub fn read_frame(&mut self) -> (step: ReadStep)
        requires
            countable(old(self).unread()),
        ensures
            reads(old(self).unread(), step, final(self).unread()),
            final(self).kept() == if step is Send {
                Seq::<u8>::empty()
            } else {
                old(self).kept()
            },
    {
        self.read_half.read_frame(&mut self.write_half)
    }

    /// Takes in a frame of the message that is being read, and says what has to
    /// happen next (see [`ReadHalf::next_msg`]).
    pub fn next_msg(&mut self, message: &mut PartialMessage, frame: &OwnedFrame) -> (step:
        MessageStep)
        requires
            acceptable(frame.frame, frame.data@),
        ensures
            follows(step, turn(old(message)@, frame.frame, frame.data@), frame.data@),
            final(message)@ == grown(old(message)@, frame.frame, frame.data@),
            final(self).kept() == if step is Send {
                Seq::<u8>::empty()
            } else {
                old(self).kept()
            },
            final(self).unread() == old(self).unread(),
    {
        ReadHalf::next_msg(&mut self.write_half, message, frame)
    }

    /// The bytes of a final ping frame.
    pub fn send_ping(&mut self, data: &[u8]) -> (bytes: Vec<u8>)
        requires
            fits_frame(data@),
        ensures
            sends(bytes@, last(Opcode::Ping), data@),
            final(self).unread() == old(self).unread(),
            final(self).kept() == Seq::<u8>::empty(),
    {
        self.write_half.send_ping(data)
    }

    /// The bytes of a final pong frame.
    pub fn send_pong(&mut self, data: &[u8]) -> (bytes: Vec<u8>)
        requires
            fits_frame(data@),
        ensures
            sends(bytes@, last(Opcode::Pong), data@),
            final(self).unread() == old(self).unread(),
            final(self).kept() == Seq::<u8>::empty(),
    {
        self.write_half.send_pong(data)
    }

    /// The bytes of a binary message.
    pub fn send_binary(&mut self, data: &[u8]) -> (bytes: Vec<u8>)
        requires
            fits_frame(data@),
        ensures
            sends(bytes@, last(Opcode::Binary), data@),
            final(self).unread() == old(self).unread(),
            final(self).kept() == Seq::<u8>::empty(),
    {
        self.write_half.send_binary(data)
    }

    /// The bytes of a text message.
    pub fn send_text(&mut self, data: &[u8]) -> (bytes: Vec<u8>)
        requires
            fits_frame(data@),
        ensures
            sends(bytes@, last(Opcode::Text), data@),
            final(self).unread() == old(self).unread(),
            final(self).kept() == Seq::<u8>::empty(),
    {
        self.write_half.send_text(data)
    }

    /// The bytes of a text message, as those of [`Client::send_text`]. A close
    /// frame is had from [`Client::write_frame`].
    pub fn send_close(&mut self, data: &[u8]) -> (bytes: Vec<u8>)
        requires
            fits_frame(data@),
        ensures
            sends(bytes@, last(Opcode::Text), data@),
            final(self).unread() == old(self).unread(),
            final(self).kept() == Seq::<u8>::empty(),
    {
        self.write_half.send_text(data)
    }

    /// The bytes of a frame with the payload `data`.
    pub fn write_frame(&mut self, frame: Frame, data: &[u8]) -> (bytes: Vec<u8>)
        requires
            fits_frame(data@),
        ensures
            sends(bytes@, frame, data@),
            final(self).unread() == old(self).unread(),
            final(self).kept() == Seq::<u8>::empty(),
    {
        self.write_half.write_frame(frame, data)
    }

    /// Takes back the buffer that was written from.
    pub fn written(&mut self, buffer: Vec<u8>)
        ensures
            final(self).kept() == buffer@,
            final(self).unread() == old(self).unread(),
    {
        self.write_half.written(buffer);
    }
}

/// A frame is handed on exactly where it may be: its opcode is in use, and where
/// it is a close frame its payload is in order.
pub proof fn read_frame_is_acceptable(before: Seq<u8>, step: ReadStep, after: Seq<u8>)
    requires
        reads(before, step, after),
    ensures
        step.yields() matches Some(read) ==> acceptable(read.frame, read.data@),
        refused(before) is None && before.len() >= wanted(before) && acceptable(
            header_frame(before[0]),
            before.subrange(2, wanted(before)),
        ) ==> step.yields() is Some,
{
}

/// As long as the length of a payload fits the header itself, a frame is read
/// as the protocol has it.
pub proof fn short_frames_are_read_in_full(bytes: Seq<u8>)
    requires
        bytes.len() >= 2 ==> length_width(bytes[1]) == 0,
    ensures
        parsed(bytes) == if let Some(violation) = refused(bytes) {
            Parsed::Refused(violation)
        } else if bytes.len() < wanted(bytes) {
            Parsed::Short
        } else {
            Parsed::Whole { frame: header_frame(bytes[0]), from: 2, to: wanted(bytes) }
        },
{
}

/// A frame of up to 125 bytes that a server may send is read back, with whatever
/// follows left for later.
pub proof fn sent_frame_is_read_back(
    frame: Frame,
    data: Seq<u8>,
    rest: Seq<u8>,
    found: Decoding,
    after: Seq<u8>,
)
    requires
        sendable(frame, data),
        data.len() <= 125,
        decodes(unmasked(frame, data) + rest, found, after),
    ensures
        found matches Decoding::Taken(taken) && taken.frame == frame && taken.data@ == data,
        after == rest,
{
    let bytes = unmasked(frame, data) + rest;
    sent_frame_is_parsed(frame, data, rest);
    short_frames_are_read_in_full(bytes);
}

/// A frame is the same however its bytes arrive: what is found in the bytes at
/// hand is found in more bytes too, and the rest is left behind it.
pub proof fn arrival_does_not_matter(
    bytes: Seq<u8>,
    more: Seq<u8>,
    found: Decoding,
    after: Seq<u8>,
    later: Decoding,
    left: Seq<u8>,
)
    requires
        decodes(bytes, found, after),
        decodes(bytes + more, later, left),
        found !is NeedMore,
    ensures
        match found {
            Decoding::Taken(taken) => later matches Decoding::Taken(again) && again.frame
                == taken.frame && again.data@ == taken.data@ && left == after + more,
            _ => later == found,
        },
{
    let all = bytes + more;
    if refused(bytes) is None {
        assert(all.subrange(2, 2 + length_width(bytes[1])) =~= bytes.subrange(
            2,
            2 + length_width(bytes[1]),
        ));
        assert(wanted(all) == wanted(bytes));
        assert(all.subrange(2, wanted(bytes)) =~= bytes.subrange(2, wanted(bytes)));
        assert(all.skip(wanted(bytes)) =~= bytes.skip(wanted(bytes)) + more);
    }
}

/// One look at the bytes, after some have arrived.
pub struct Look {
    /// The bytes that have arrived since the look before.
    pub arrived: Seq<u8>,
    /// What the look shows.
    pub found: Decoding,
    /// What it leaves.
    pub after: Seq<u8>,
}

/// The looks follow one another: each starts with what the one before left and
/// what has arrived since.
pub open spec fn looks_follow(left: Seq<u8>, looks: Seq<Look>) -> bool
    decreases looks.len(),
{
    looks.len() > 0 ==> {
        &&& decodes(left + looks[0].arrived, looks[0].found, looks[0].after)
        &&& looks_follow(looks[0].after, looks.drop_first())
    }
}

/// All bytes that arrived.
pub open spec fn all_arrived(looks: Seq<Look>) -> Seq<u8>
    decreases looks.len(),
{
    if looks.len() == 0 {
        Seq::empty()
    } else {
        looks[0].arrived + all_arrived(looks.drop_first())
    }
}

/// The frames that were taken, with their payloads, in the order in which they
/// were taken.
pub open spec fn all_taken(looks: Seq<Look>) -> Seq<(Frame, Seq<u8>)>
    decreases looks.len(),
{
    if looks.len() == 0 {
        Seq::empty()
    } else {
        let rest = all_taken(looks.drop_first());
        match looks[0].found {
            Decoding::Taken(taken) => seq![(taken.frame, taken.data@)] + rest,
            _ => rest,
        }
    }
}

/// What the last look left.
pub open spec fn all_left(left: Seq<u8>, looks: Seq<Look>) -> Seq<u8>
    decreases looks.len(),
{
    if looks.len() == 0 {
        left
    } else {
        all_left(looks[0].after, looks.drop_first())
    }
}

/// Frames that a server may send and whose lengths fit the header itself.
pub open spec fn short_frames(frames: Seq<(Frame, Seq<u8>)>) -> bool {
    forall|i: int|
        0 <= i < frames.len() ==> sendable((#[trigger] frames[i]).0, frames[i].1)
            && frames[i].1.len() <= 125
}

/// One look, where `pending` has still to arrive: it takes the first frame, or
/// leaves everything as it is. It can only wait where bytes are still to come.
proof fn look_takes_the_first(
    frames: Seq<(Frame, Seq<u8>)>,
    bytes: Seq<u8>,
    pending: Seq<u8>,
    found: Decoding,
    after: Seq<u8>,
)
    requires
        short_frames(frames),
        bytes + pending == wire(frames),
        decodes(bytes, found, after),
    ensures
        match found {
            Decoding::NeedMore(_) => after == bytes && (pending.len() == 0 ==> frames.len() == 0),
            Decoding::Refused(_) => false,
            Decoding::Taken(taken) => frames.len() > 0 && (taken.frame, taken.data@) == frames[0]
                && after + pending == wire(frames.drop_first()),
        },
{
    if frames.len() == 0 {
        assert(bytes.len() + pending.len() == 0);
    } else {
        let (frame, data) = frames[0];
        let rest = wire(frames.drop_first());
        let all = bytes + pending;
        let end: int = 2 + data.len() as int;
        assert(sendable(frames[0].0, frames[0].1));
        assert(all =~= seq![first_byte(frame), data.len() as u8] + data + rest);
        assert(header_frame(first_byte(frame)) == frame);
        if bytes.len() >= 2 {
            assert(bytes[0] == all[0] && bytes[1] == all[1]);
            assert(header_violation(bytes[0], bytes[1]) is None);
            assert(wanted(bytes) == end);
            if bytes.len() >= wanted(bytes) {
                assert(bytes.subrange(2, wanted(bytes)) =~= all.subrange(2, end));
                assert(all.subrange(2, end) =~= data);
                assert(bytes.skip(wanted(bytes)) + pending =~= all.skip(end));
                assert(all.skip(end) =~= rest);
            } else if pending.len() == 0 {
                assert(bytes =~= all);
            }
        } else if pending.len() == 0 {
            assert(bytes =~= all);
        }
    }
}

/// Frames of up to 125 bytes are read in order, and no byte is lost between them,
/// however the bytes arrive: what was taken is the beginning of what was sent, and
/// what is left, with what has still to arrive, is the rest of it. `left` is what
/// is there before the first look. Nothing is refused on the way.
pub proof fn frames_are_read_in_order(
    frames: Seq<(Frame, Seq<u8>)>,
    left: Seq<u8>,
    looks: Seq<Look>,
    pending: Seq<u8>,
)
    requires
        short_frames(frames),
        looks_follow(left, looks),
        left + all_arrived(looks) + pending == wire(frames),
    ensures
        all_taken(looks).len() <= frames.len(),
        all_taken(looks) == frames.take(all_taken(looks).len() as int),
        all_left(left, looks) + pending == wire(frames.skip(all_taken(looks).len() as int)),
        forall|i: int| 0 <= i < looks.len() ==> (#[trigger] looks[i]).found !is Refused,
    decreases looks.len(),
{
    if looks.len() == 0 {
        assert(frames.take(0) =~= Seq::<(Frame, Seq<u8>)>::empty());
        assert(frames.skip(0) =~= frames);
        assert(left + all_arrived(looks) + pending =~= left + pending);
    } else {
        let look = looks[0];
        let later = looks.drop_first();
        let bytes = left + look.arrived;
        let coming = all_arrived(later) + pending;
        assert(bytes + coming =~= left + all_arrived(looks) + pending);
        look_takes_the_first(frames, bytes, coming, look.found, look.after);
        assert(look.after + all_arrived(later) + pending =~= look.after + coming);
        let n = all_taken(later).len() as int;
        match look.found {
            Decoding::Taken(taken) => {
                let rest = frames.drop_first();
                assert forall|i: int| 0 <= i < rest.len() implies sendable(
                    (#[trigger] rest[i]).0,
                    rest[i].1,
                ) && rest[i].1.len() <= 125 by {
                    assert(rest[i] == frames[i + 1]);
                }
                frames_are_read_in_order(rest, look.after, later, pending);
                assert(seq![frames[0]] + rest.take(n) =~= frames.take(n + 1));
                assert(rest.skip(n) =~= frames.skip(n + 1));
            },
            _ => {
                frames_are_read_in_order(frames, look.after, later, pending);
            },
        }
        assert forall|i: int| 0 <= i < looks.len() implies (#[trigger] looks[i]).found
            !is Refused by {
            if i > 0 {
                assert(looks[i] == later[i - 1]);
            }
        }
    }
}

/// Repeated looks at the bytes of some frames of up to 125 bytes, as many looks as
/// frames, give the frames in order and leave nothing.
pub proof fn repeated_looks_read_all_frames(frames: Seq<(Frame, Seq<u8>)>, looks: Seq<Look>)
    requires
        short_frames(frames),
        looks.len() == frames.len(),
        looks_follow(wire(frames), looks),
        forall|i: int|
            0 <= i < looks.len() ==> (#[trigger] looks[i]).arrived == Seq::<u8>::empty(),
    ensures
        all_taken(looks) == frames,
        all_left(wire(frames), looks) == Seq::<u8>::empty(),
    decreases frames.len(),
{
    if frames.len() > 0 {
        let rest = frames.drop_first();
        let later = looks.drop_first();
        let nothing = Seq::<u8>::empty();
        assert(looks[0].arrived == nothing);
        assert(wire(frames) + looks[0].arrived =~= wire(frames));
        assert(wire(frames) + nothing =~= wire(frames));
        look_takes_the_first(frames, wire(frames), nothing, looks[0].found, looks[0].after);
        assert(looks[0].after + nothing =~= looks[0].after);
        assert forall|i: int| 0 <= i < rest.len() implies sendable((#[trigger] rest[i]).0, rest[i].1)
            && rest[i].1.len() <= 125 by {
            assert(rest[i] == frames[i + 1]);
        }
        assert forall|i: int| 0 <= i < later.len() implies (#[trigger] later[i]).arrived
            == Seq::<u8>::empty() by {
            assert(later[i] == looks[i + 1]);
        }
        repeated_looks_read_all_frames(rest, later);
        assert(seq![frames[0]] + rest =~= frames);
    } else {
        assert(all_taken(looks) =~= frames);
    }
}

/// One turn in the reading of a message: a frame is read, and, where there is one,
/// taken in.
pub struct Round {
    /// The bytes at hand when the frame is read.
    pub before: Seq<u8>,
    /// The step that ends the reading of the frame.
    pub read: ReadStep,
    /// The bytes left behind it.
    pub after: Seq<u8>,
    /// The step that takes the frame in, where there is a frame.
    pub taken: Option<MessageStep>,
}

/// The steps are those that [`Client::read_frame`] and [`Client::next_msg`] give.
pub open spec fn takes_place(so_far: Assembly, round: Round) -> bool {
    &&& reads(round.before, round.read, round.after)
    &&& round.read !is Read
    &&& match round.read.yields() {
        Some(frame) => round.taken matches Some(step) && follows(
            step,
            turn(so_far, frame.frame, frame.data@),
            frame.data@,
        ),
        None => round.taken is None,
    }
}

/// What is read in a round.
pub open spec fn reading(round: Round) -> Reading {
    match refused(round.before) {
        Some(violation) => Reading::Refused(violation),
        None => Reading::Read(
            header_frame(round.before[0]),
            round.before.subrange(2, wanted(round.before)),
        ),
    }
}

/// What is read in several rounds.
pub open spec fn readings(rounds: Seq<Round>) -> Seq<Reading> {
    Seq::new(rounds.len(), |i: int| reading(rounds[i]))
}

/// The rounds make up the reading of one message: each but the last asks for
/// another frame.
pub open spec fn rounds_follow(so_far: Assembly, rounds: Seq<Round>) -> bool
    decreases rounds.len(),
{
    rounds.len() > 0 ==> {
        &&& takes_place(so_far, rounds[0])
        &&& rounds.len() > 1 ==> rounds[0].taken == Some(MessageStep::ReadFrame)
        &&& rounds_follow(conversation::after(so_far, reading(rounds[0])), rounds.drop_first())
    }
}

/// What is written in a round, piece by piece.
pub open spec fn written_in(round: Round) -> Seq<Seq<u8>> {
    let answer = match round.read {
        ReadStep::Send { bytes, outcome } => seq![bytes@],
        _ => Seq::empty(),
    };
    match round.taken {
        Some(MessageStep::Send { bytes, outcome }) => answer.push(bytes@),
        _ => answer,
    }
}

/// What is written in several rounds, piece by piece.
pub open spec fn all_written(rounds: Seq<Round>) -> Seq<Seq<u8>>
    decreases rounds.len(),
{
    if rounds.len() == 0 {
        Seq::empty()
    } else {
        written_in(rounds[0]) + all_written(rounds.drop_first())
    }
}

/// The round ends the reading of the message in the given way.
pub open spec fn ends_with(round: Round, ending: Ending) -> bool {
    match ending {
        Ending::Open => round.taken == Some(MessageStep::ReadFrame),
        Ending::Complete(kind) => round.taken matches Some(MessageStep::Done(Ok(message)))
            && message == kind,
        Ending::Violated(violation) => match round.taken {
            None => refuses(round.read, violation),
            Some(step) => step matches MessageStep::Send {
                bytes,
                outcome: Err(Error::ProtocolViolation(reason)),
            } && reason@ == violation.text(),
        },
        Ending::Closed(data) => round.taken matches Some(
            MessageStep::Done(Err(Error::Closed { code, reason })),
        ) && code == close_code(data) && text_of(reason) == close_reason(data),
    }
}

proof fn round_is_answered(so_far: Assembly, round: Round)
    requires
        takes_place(so_far, round),
    ensures
        carries(written_in(round), due(so_far, reading(round))),
        ends_with(round, ending(so_far, reading(round))),
{
}

/// Over the reading of one whole message, from whatever bytes arrive, a client
/// writes a pong for each ping that it reads, with the same payloads and in the
/// same order, and behind them nothing where the message is complete or the
/// reading goes on, exactly one close frame that reports a protocol error where it
/// ends with a violation, and exactly one close frame that repeats the server's
/// payload where it ends with the connection closed.
pub proof fn message_is_answered_in_full(so_far: Assembly, rounds: Seq<Round>)
    requires
        rounds.len() > 0,
        rounds_follow(so_far, rounds),
    ensures
        carries(
            all_written(rounds),
            pongs(readings(rounds)) + farewell(last_ending(so_far, readings(rounds))),
        ),
        ends_with(rounds.last(), last_ending(so_far, readings(rounds))),
{
    rounds_are_answered(so_far, rounds);
    pongs_and_one_farewell(so_far, readings(rounds));
}

proof fn rounds_are_answered(so_far: Assembly, rounds: Seq<Round>)
    requires
        rounds_follow(so_far, rounds),
    ensures
        one_message(so_far, readings(rounds)),
        carries(all_written(rounds), all_due(so_far, readings(rounds))),
        rounds.len() > 0 ==> ends_with(rounds.last(), last_ending(so_far, readings(rounds))),
    decreases rounds.len(),
{
    if rounds.len() > 0 {
        let rest = rounds.drop_first();
        let then = conversation::after(so_far, reading(rounds[0]));
        assert(readings(rounds).drop_first() =~= readings(rest));
        assert(readings(rounds)[0] == reading(rounds[0]));
        round_is_answered(so_far, rounds[0]);
        rounds_are_answered(then, rest);
        carries_both(
            written_in(rounds[0]),
            due(so_far, reading(rounds[0])),
            all_written(rest),
            all_due(then, readings(rest)),
        );
        if rounds.len() > 1 {
            assert(rest.last() == rounds.last());
        }
    }
}

/// What a look at the bytes shows, in terms of the bytes: a frame that is taken is
/// the two bytes of its header and as many bytes behind them as these announce, and
/// nothing else is taken; where there are too few bytes, or the header breaks a
/// rule, nothing is. Where two or eight bytes spell the length, they count among
/// the bytes behind the header.
pub proof fn looks_take_what_is_announced(before: Seq<u8>, found: Decoding, after: Seq<u8>)
    requires
        countable(before),
        decodes(before, found, after),
    ensures
        before.len() < 2 ==> found == Decoding::NeedMore(2),
        match found {
            Decoding::Refused(violation) => {
                &&& before.len() >= 2
                &&& header_violation(before[0], before[1]) == Some(violation)
                &&& after == before
            },
            Decoding::NeedMore(total) => {
                &&& before.len() >= 2 ==> header_violation(before[0], before[1]) is None
                &&& after == before
                &&& total > before.len()
                &&& before.len() >= 2 ==> total == if before[1] <= 125 {
                    2 + before[1]
                } else if before[1] == 126 && before.len() < 4 {
                    4
                } else if before[1] == 126 {
                    2 + 256 * before[2] + before[3]
                } else if before.len() < 10 {
                    10
                } else {
                    2 + payload_len(before)
                }
            },
            Decoding::Taken(taken) => {
                &&& before.len() >= 2
                &&& header_violation(before[0], before[1]) is None
                &&& taken.frame.fin == (before[0] >= 128)
                &&& taken.frame.opcode.number() == before[0] % 16
                &&& before == before.take(2) + taken.data@ + after
                &&& before[1] <= 125 ==> taken.data@.len() == before[1]
                &&& before[1] == 126 ==> before.len() >= 4 && taken.data@.len() == 256 * before[2]
                    + before[3]
                &&& before[1] == 127 ==> before.len() >= 10 && taken.data@.len() == payload_len(
                    before,
                )
            },
        },
{
    if before.len() >= 2 {
        header_rules(before[0], before[1]);
        if before[1] < 128 {
            lengths_are_read_from_their_places(before);
        }
    }
    if let Decoding::Taken(taken) = found {
        assert(before =~= before.take(2) + taken.data@ + after);
    }
}

/// A read asks for all that is missing, and for at least a chunk.
pub proof fn reads_ask_for_enough(missing: int)
    ensures
        chunk(missing) >= missing,
        chunk(missing) >= 4096,
        chunk(missing) == missing || chunk(missing) == 4096,
{
}

/// What the reading of a frame comes to, in terms of what a look at the same bytes
/// shows: a read for what is missing; the close frame for a protocol error where
/// the header or a close frame breaks a rule; a pong, or a close frame, with the
/// payload of the ping, or the close frame, that is handed on; and any other frame
/// at once, with nothing sent.
pub proof fn frames_are_answered_by_their_kind(
    before: Seq<u8>,
    step: ReadStep,
    found: Decoding,
    after: Seq<u8>,
    left: Seq<u8>,
)
    requires
        countable(before),
        reads(before, step, after),
        decodes(before, found, left),
    ensures
        after == left,
        match found {
            Decoding::NeedMore(total) => {
                &&& step matches ReadStep::Read(count)
                &&& count == if total - before.len() > 4096 {
                    total - before.len()
                } else {
                    4096
                }
            },
            Decoding::Refused(violation) => {
                &&& step matches ReadStep::Send { bytes, outcome }
                &&& sends(bytes@, last(Opcode::Close), seq![0x03u8, 0xEAu8])
                &&& outcome matches Err(Error::ProtocolViolation(reason))
                &&& reason@ == violation.text()
            },
            Decoding::Taken(taken) => {
                let number = taken.frame.opcode.number();
                let fault = if number == 8 {
                    close_violation(taken.data@)
                } else {
                    None
                };
                match step {
                    ReadStep::Read(_) => false,
                    ReadStep::Done(read) => {
                        &&& number != 8 && number != 9
                        &&& read.frame == taken.frame
                        &&& read.data@ == taken.data@
                    },
                    ReadStep::Send { bytes, outcome: Ok(read) } => {
                        &&& number == 8 || number == 9
                        &&& fault is None
                        &&& read.frame == taken.frame
                        &&& read.data@ == taken.data@
                        &&& number == 9 ==> sends(bytes@, last(Opcode::Pong), taken.data@)
                        &&& number == 8 ==> sends(bytes@, last(Opcode::Close), taken.data@)
                    },
                    ReadStep::Send { bytes, outcome: Err(error) } => {
                        &&& fault matches Some(violation)
                        &&& sends(bytes@, last(Opcode::Close), seq![0x03u8, 0xEAu8])
                        &&& error matches Error::ProtocolViolation(reason)
                        &&& reason@ == violation.text()
                    },
                }
            },
        },
{
    protocol_errors_are_number_1002(Opcode::Close);
}

/// What comes of a frame that was taken in: pings and pongs lead to the next frame,
/// a message is done where it is complete, a close frame ends the reading with the
/// number and the text that it carries, and what is refused is answered with the
/// close frame for a protocol error.
pub proof fn next_step_is_the_right_one(
    so_far: Assembly,
    frame: Frame,
    data: Seq<u8>,
    step: MessageStep,
)
    requires
        acceptable(frame, data),
        follows(step, turn(so_far, frame, data), data),
    ensures
        frame.opcode.number() >= 9 ==> step is ReadFrame,
        step is ReadFrame <==> turn(so_far, frame, data) is Continue,
        step matches MessageStep::Done(Ok(kind)) ==> turn(so_far, frame, data) == Turn::Complete(
            kind,
        ),
        turn(so_far, frame, data) is Complete ==> step matches MessageStep::Done(Ok(_)),
        frame.opcode.number() == 8 <==> (step matches MessageStep::Done(Err(_))),
        step matches MessageStep::Done(Err(error)) ==> {
            &&& error matches Error::Closed { code, reason }
            &&& match code {
                None => data.len() < 2,
                Some(code) => data.len() >= 2 && code.number() == 256 * data[0] + data[1],
            }
            &&& match reason {
                None => data.len() <= 2,
                Some(text) => data.len() > 2 && encode_utf8(text@) == data.skip(2),
            }
        },
        turn(so_far, frame, data) matches Turn::Refuse(violation) ==> {
            &&& step matches MessageStep::Send { bytes, outcome }
            &&& sends(bytes@, last(Opcode::Close), seq![0x03u8, 0xEAu8])
            &&& outcome matches Err(Error::ProtocolViolation(reason))
            &&& reason@ == violation.text()
        },
        step is Send ==> turn(so_far, frame, data) is Refuse,
{
    protocol_errors_are_number_1002(Opcode::Close);
    if frame.opcode is Close {
        close_frames_say_what_they_carry(data);
    }
}

/// Only a length that, with the two bytes of the header, goes beyond `usize`
/// cannot be counted, and only a payload that leaves no room for the longest header
/// cannot be sent.
pub proof fn only_the_largest_lengths_are_left_out(bytes: Seq<u8>)
    ensures
        countable(bytes) <==> {
            ||| bytes.len() < 2
            ||| header_violation(bytes[0], bytes[1]) is Some
            ||| bytes.len() < 2 + length_width(bytes[1])
            ||| payload_len(bytes) <= usize::MAX - 2
        },
        fits_frame(bytes) <==> bytes.len() <= isize::MAX - 14,
{
}

} // verus!
