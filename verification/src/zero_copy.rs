//! A client that keeps the payloads of frames in an arena.
//!
//! A frame is read in steps. Between them the caller reads from the stream, and it
//! holds on to the progress that was made.

use rand::rngs::SmallRng;
use vstd::prelude::*;
use vstd::utf8::encode_utf8;

use crate::bump::{allocatable, Arena};
use crate::close_code::CloseCode;
use crate::conversation::{
    self, all_due, carries, carries_both, due, ending, farewell, last_ending, one_message, pongs,
    pongs_and_one_farewell, Ending, Reading,
};
use crate::endian::{
    eight_bytes_spell, number_of, read_number, spans, spelled, spelled_has_width,
    spelled_number_reads_back, two_bytes_spell,
};
use crate::frame::{
    control_encoding_is_the_encoding, encoded, encoded_control, first_byte, Frame, Message,
};
use crate::io_error::IoError;
use crate::message::{acceptable, grown, turn, Assembly, PartialMessage, Turn};
use crate::opcode::Opcode;
use crate::protocol::{
    answer, answer_to, close_code, close_frames_say_what_they_carry, close_reason, close_violation, header_frame, header_rules, header_violation, last,
    length_width, lengths_are_read_from_their_places, parsed, protocol_error, protocol_error_payload,
    protocol_errors_are_number_1002, read_close, read_header,
    sendable, sends, sent_frame_is_parsed, text_of, unmasked, wire, Answer, Parsed, Violation,
};
use crate::random::{next_mask, seeded};

verus! {

/// How much room a client sets aside at its start.
pub struct ZeroCopyConfig {
    pub read_buffer_capacity: usize,
    pub write_buffer_capacity: usize,
    pub arena_capacity: usize,
}

impl Default for ZeroCopyConfig {
    /// 128 KiB for each direction, 1 MiB for payloads.
    fn default() -> (config: Self)
        ensures
            config.read_buffer_capacity == 128 * 1024,
            config.write_buffer_capacity == 128 * 1024,
            config.arena_capacity == 1024 * 1024,
    {
        Self {
            read_buffer_capacity: 128 * 1024,
            write_buffer_capacity: 128 * 1024,
            arena_capacity: 1024 * 1024,
        }
    }
}

/// Why a client could not go on.
#[derive(Debug)]
pub enum Error {
    /// The stream gave out.
    Io(IoError),
    /// The server broke the protocol.
    ProtocolViolation(&'static str),
    /// The server closed the connection.
    Closed { code: Option<CloseCode>, reason: Option<String> },
}

impl vstd::std_specs::convert::FromSpecImpl<std::io::Error> for Error {
    open spec fn obeys_from_spec() -> bool {
        true
    }

    open spec fn from_spec(error: std::io::Error) -> Error {
        Error::Io(IoError::Stream(error))
    }
}

impl From<std::io::Error> for Error {
    fn from(error: std::io::Error) -> (result: Self) {
        Error::Io(IoError::Stream(error))
    }
}

/// The result of what a client does.
pub type ZeroCopyResult<T> = Result<T, Error>;

/// A frame with a payload that is kept in the arena.
#[derive(Clone, Copy, Debug)]
pub struct ArenaFrame<'a> {
    pub frame: Frame,
    pub data: &'a [u8],
}

/// How much of a frame has been taken out of the bytes that arrived.
#[derive(Clone, Copy, Debug, PartialEq, Eq, Structural)]
pub enum Progress {
    /// Nothing.
    Start,
    /// The first two bytes. The length is in the next `width` bytes.
    Length { frame: Frame, width: usize },
    /// Everything but the payload.
    Payload { frame: Frame, length: usize },
}

/// What the beginning of a frame turned out to be.
#[derive(Clone, Copy, Debug, PartialEq, Eq, Structural)]
pub enum Found {
    /// The header breaks a rule.
    Refused(Violation),
    /// A frame whose payload, of the given length, is there in full.
    Ready { frame: Frame, length: usize },
}

/// What comes of one step into a frame.
#[derive(Clone, Copy, Debug, PartialEq, Eq, Structural)]
pub enum Stage {
    /// More bytes have to arrive; then the same step is due again.
    Read,
    /// The next step is due.
    Next(Progress),
    /// There is no further step.
    Found(Found),
}

/// A frame that the header rules let through, with the length of its payload.
pub open spec fn lawful(frame: Frame, length: int) -> bool {
    &&& !frame.opcode.spec_is_reserved()
    &&& frame.opcode.spec_is_control() ==> frame.fin && length <= 125
    &&& frame.opcode is Close ==> length != 1
}

impl Progress {
    /// Progress that a step can have made.
    pub open spec fn wf(self) -> bool {
        match self {
            Progress::Start => true,
            Progress::Length { frame, width } => (width == 2 || width == 8)
                && frame.opcode.spec_is_data(),
            Progress::Payload { frame, length } => lawful(frame, length as int),
        }
    }

    /// How many bytes the next step needs.
    pub open spec fn needs(self) -> int {
        match self {
            Progress::Start => 2,
            Progress::Length { frame, width } => width as int,
            Progress::Payload { frame, length } => length as int,
        }
    }
}

impl Found {
    /// A result that a step can have had when `unread` is there, with a payload
    /// that the arena can take.
    pub open spec fn fits(self, unread: Seq<u8>) -> bool {
        match self {
            Found::Refused(violation) => true,
            Found::Ready { frame, length } => lawful(frame, length as int) && length
                <= unread.len() && allocatable(length as nat),
        }
    }
}

/// What comes of a step when `unread` is there.
pub open spec fn stage_of(progress: Progress, unread: Seq<u8>) -> Stage {
    if unread.len() < progress.needs() {
        Stage::Read
    } else {
        match progress {
            Progress::Start => if let Some(violation) = header_violation(unread[0], unread[1]) {
                Stage::Found(Found::Refused(violation))
            } else if length_width(unread[1]) == 0 {
                Stage::Next(
                    Progress::Payload {
                        frame: header_frame(unread[0]),
                        length: (unread[1] % 128) as usize,
                    },
                )
            } else {
                Stage::Next(
                    Progress::Length {
                        frame: header_frame(unread[0]),
                        width: length_width(unread[1]) as usize,
                    },
                )
            },
            Progress::Length { frame, width } => Stage::Next(
                Progress::Payload { frame, length: number_of(unread.take(width as int)) as usize },
            ),
            Progress::Payload { frame, length } => Stage::Found(Found::Ready { frame, length }),
        }
    }
}

/// How many bytes a step takes out of `unread`. The payload stays for
/// [`ZeroCopyReadHalf::read_frame`].
pub open spec fn taken_by(progress: Progress, unread: Seq<u8>) -> int {
    if unread.len() < progress.needs() || progress is Payload {
        0
    } else {
        progress.needs()
    }
}

/// Whether the bytes that were taken are dropped before a frame is read: where
/// there are any, and less than a chunk of the capacity is left behind `len`
/// bytes.
pub open spec fn crowded(taken: int, len: nat, capacity: usize) -> bool {
    taken > 0 && len > capacity - 4096
}

/// The bytes that have arrived. Those at the front have been taken already; they
/// are dropped from time to time.
pub struct ZeroCopyReadHalf {
    arena: Arena,
    buffer: Vec<u8>,
    consumed: usize,
}

impl ZeroCopyReadHalf {
    /// The least that a read asks for.
    pub const CHUNK_SIZE: usize = 4096;

    /// No more bytes have been taken than are there.
    pub closed spec fn wf(&self) -> bool {
        self.consumed <= self.buffer@.len()
    }

    /// All bytes that are there, those that were taken in front.
    pub closed spec fn stored(&self) -> Seq<u8> {
        self.buffer@
    }

    /// How many bytes have been taken.
    pub closed spec fn position(&self) -> int {
        self.consumed as int
    }

    /// The bytes that were not taken yet.
    pub open spec fn unread(&self) -> Seq<u8> {
        self.stored().skip(self.position())
    }

    /// Where a half is well formed, its position lies within what is stored.
    pub proof fn position_is_within(&self)
        requires
            self.wf(),
        ensures
            0 <= self.position() <= self.stored().len(),
    {
    }

    /// No bytes, with room for some, and for some payloads.
    pub fn with_capacity(buffer_capacity: usize, arena_capacity: usize) -> (half: Self)
        requires
            buffer_capacity <= isize::MAX,
            allocatable(arena_capacity as nat),
        ensures
            half.wf(),
            half.stored() == Seq::<u8>::empty(),
            half.unread() == Seq::<u8>::empty(),
            half.position() == 0,
    {
        Self {
            arena: Arena::with_capacity(arena_capacity),
            buffer: Vec::with_capacity(buffer_capacity),
            consumed: 0,
        }
    }

    /// How many bytes were not taken yet.
    pub fn unread_len(&self) -> (len: usize)
        requires
            self.wf(),
        ensures
            len == self.unread().len(),
    {
        self.buffer.len() - self.consumed
    }

    /// Makes room before a frame is read. What was not taken yet is kept. The
    /// allocator decides how much room there is; the number that this went by is
    /// returned. A buffer with less room than a chunk is left as it is.
    pub fn begin_frame(&mut self) -> (capacity: usize)
        requires
            old(self).wf(),
        ensures
            final(self).wf(),
            capacity >= old(self).stored().len(),
            final(self).unread() == old(self).unread(),
            if capacity >= 4096 && crowded(
                old(self).position(),
                old(self).stored().len(),
                capacity,
            ) {
                final(self).position() == 0
            } else {
                final(self).position() == old(self).position() && final(self).stored()
                    == old(self).stored()
            },
    {
        let capacity: usize = capacity_of(&self.buffer);
        if capacity >= Self::CHUNK_SIZE {
            self.compact(capacity);
        }
        capacity
    }

    /// Drops the bytes that were taken, where there are any and less than a chunk
    /// of `capacity` is left.
    pub fn compact(&mut self, capacity: usize)
        requires
            old(self).wf(),
            old(self).position() > 0 ==> capacity >= 4096,
        ensures
            final(self).wf(),
            final(self).unread() == old(self).unread(),
            if crowded(old(self).position(), old(self).stored().len(), capacity) {
                final(self).position() == 0
            } else {
                final(self).position() == old(self).position() && final(self).stored()
                    == old(self).stored()
            },
    {
        if self.consumed > 0 && self.buffer.len() > capacity - Self::CHUNK_SIZE {
            drop_front(&mut self.buffer, self.consumed);
            self.consumed = 0;
            assert(self.unread() =~= old(self).unread());
        }
    }

    /// Lends out the buffer, for a read to append to. It is put back by
    /// [`ZeroCopyReadHalf::restore`].
    pub fn lend(&mut self) -> (buffer: Vec<u8>)
        ensures
            buffer@ == old(self).stored(),
            final(self).stored() == Seq::<u8>::empty(),
            final(self).position() == old(self).position(),
    {
        let mut buffer: Vec<u8> = Vec::new();
        std::mem::swap(&mut buffer, &mut self.buffer);
        buffer
    }

    /// How long a buffer has to be to be put back.
    pub fn taken_len(&self) -> (len: usize)
        ensures
            len == self.position(),
    {
        self.consumed
    }

    /// Puts the buffer back, with what a read appended to it.
    pub fn restore(&mut self, buffer: Vec<u8>)
        requires
            buffer@.len() >= old(self).position(),
        ensures
            final(self).wf(),
            final(self).stored() == buffer@,
            final(self).position() == old(self).position(),
    {
        self.buffer = buffer;
    }

    /// Whether the end of the payload can be counted in a `usize`.
    pub fn length_fits(&self, progress: Progress) -> (fits: bool)
        ensures
            fits == (progress matches Progress::Payload { frame, length } ==> self.position()
                + length <= usize::MAX),
    {
        match progress {
            Progress::Payload { frame: _, length } => length <= usize::MAX - self.consumed,
            _ => true,
        }
    }

    /// Whether a read has to follow until `len` bytes are there to be taken.
    fn ensure_read(&self, len: usize) -> (due: bool)
        requires
            self.wf(),
        ensures
            due == (self.unread().len() < len),
    {
        self.buffer.len() - self.consumed < len
    }

    /// One step into a frame. The bytes of the header are taken as soon as they
    /// are there, also where they break a rule.
    pub fn read_frame_inner(&mut self, progress: Progress) -> (stage: Stage)
        requires
            old(self).wf(),
            progress.wf(),
            progress matches Progress::Payload { frame, length } ==> old(self).position() + length
                <= usize::MAX,
        ensures
            final(self).wf(),
            stage == stage_of(progress, old(self).unread()),
            final(self).unread() == old(self).unread().skip(taken_by(progress, old(self).unread())),
            final(self).stored() == old(self).stored(),
            final(self).position() == old(self).position() + taken_by(
                progress,
                old(self).unread(),
            ),
            stage matches Stage::Next(next) ==> next.wf(),
            stage matches Stage::Found(Found::Ready { frame, length }) ==> lawful(
                frame,
                length as int,
            ) && length <= final(self).unread().len(),
    {
        proof {
            steps_stay_lawful(progress, self.unread());
        }
        let ghost unread = self.unread();
        let at: usize = self.consumed;
        let total: usize = self.buffer.len();
        assert(unread.len() == total - at);
        match progress {
            Progress::Start => {
                if self.ensure_read(2) {
                    return Stage::Read;
                }
                let first = self.buffer[at];
                let second = self.buffer[at + 1];
                self.consumed = at + 2;
                assert(self.unread() =~= unread.skip(2));
                let (frame, short) = match read_header(first, second) {
                    Ok(header) => header,
                    Err(violation) => return Stage::Found(Found::Refused(violation)),
                };
                if short == 126 {
                    Stage::Next(Progress::Length { frame, width: 2 })
                } else if short == 127 {
                    Stage::Next(Progress::Length { frame, width: 8 })
                } else {
                    Stage::Next(Progress::Payload { frame, length: short as usize })
                }
            },
            Progress::Length { frame, width } => {
                if self.ensure_read(width) {
                    return Stage::Read;
                }
                let spelling = vstd::slice::slice_subrange(
                    self.buffer.as_slice(),
                    at,
                    at + width,
                );
                assert(spelling@ =~= unread.take(width as int));
                let length: u64 = read_number(spelling);
                self.consumed = at + width;
                assert(self.unread() =~= unread.skip(width as int));
                Stage::Next(Progress::Payload { frame, length: length as usize })
            },
            Progress::Payload { frame, length } => {
                if self.ensure_read(length) {
                    return Stage::Read;
                }
                Stage::Found(Found::Ready { frame, length })
            },
        }
    }

    /// Takes a payload of the given length out of the bytes, and keeps a copy of
    /// it in the arena.
    fn take_payload(&mut self, length: usize) -> (data: &[u8])
        requires
            old(self).wf(),
            length <= old(self).unread().len(),
            allocatable(length as nat),
        ensures
            final(self).wf(),
            data@ == old(self).unread().take(length as int),
            final(self).unread() == old(self).unread().skip(length as int),
            final(self).stored() == old(self).stored(),
            final(self).position() == old(self).position() + length,
    {
        let at: usize = self.consumed;
        let there: usize = self.buffer.len();
        assert(at + length <= there);
        let data = vstd::slice::slice_subrange(self.buffer.as_slice(), at, at + length);
        assert(data@ =~= old(self).unread().take(length as int));
        self.consumed = at + length;
        assert(self.unread() =~= old(self).unread().skip(length as int));
        self.arena.alloc_slice_copy(data)
    }

    /// Ends the reading of a frame: takes its payload, and answers the frame
    /// where an answer is due. `write` gives the bytes of the answer.
    pub fn read_frame(&mut self, write: &mut WriteHalf, found: Found) -> (step: ReadStep<'_>)
        requires
            old(self).wf(),
            found.fits(old(self).unread()),
        ensures
            final(self).wf(),
            final(self).stored() == old(self).stored(),
            final(write).kept() == if step is Send {
                Seq::<u8>::empty()
            } else {
                old(write).kept()
            },
            match found {
                Found::Refused(violation) => {
                    &&& refuses(step, violation)
                    &&& final(self).unread() == old(self).unread()
                    &&& final(self).position() == old(self).position()
                },
                Found::Ready { frame, length } => {
                    &&& answers(step, frame, old(self).unread().take(length as int))
                    &&& final(self).unread() == old(self).unread().skip(length as int)
                    &&& final(self).position() == old(self).position() + length
                },
            },
    {
        let (frame, length) = match found {
            Found::Refused(violation) => return refuse_frame(write, violation),
            Found::Ready { frame, length } => (frame, length),
        };
        let data = self.take_payload(length);
        let read = ArenaFrame { frame, data };
        match answer(frame, data) {
            Answer::Nothing => ReadStep::Done(read),
            Answer::Pong => {
                let pong = Frame { fin: true, opcode: Opcode::Pong };
                let bytes = write.write_control_frame(pong, data);
                ReadStep::Send { bytes, outcome: Ok(read) }
            },
            Answer::Close => {
                let close = Frame { fin: true, opcode: Opcode::Close };
                let bytes = write.write_control_frame(close, data);
                ReadStep::Send { bytes, outcome: Ok(read) }
            },
            Answer::Refuse(violation) => refuse_frame(write, violation),
        }
    }

    /// Takes in a frame of the message that is being read, and says what has to
    /// happen next. `write` gives the bytes of the answer, where one is due.
    pub fn next_msg(
        write: &mut WriteHalf,
        message: &mut PartialMessage,
        frame: ArenaFrame<'_>,
    ) -> (step: MessageStep)
        requires
            acceptable(frame.frame, frame.data@),
        ensures
            follows(step, turn(old(message)@, frame.frame, frame.data@), frame.data@),
            final(message)@ == grown(old(message)@, frame.frame, frame.data@),
            final(write).kept() == if step is Send {
                Seq::<u8>::empty()
            } else {
                old(write).kept()
            },
    {
        match message.take_frame(frame.frame, frame.data) {
            Turn::Continue => MessageStep::ReadFrame,
            Turn::Complete(kind) => MessageStep::Done(Ok(kind)),
            Turn::Refuse(violation) => {
                let payload = protocol_error();
                let bytes = write.send_close(payload.as_slice());
                MessageStep::Send {
                    bytes,
                    outcome: Err(Error::ProtocolViolation(violation.reason())),
                }
            },
            Turn::Closed => {
                let (code, reason) = read_close(frame.data);
                MessageStep::Done(Err(Error::Closed { code, reason }))
            },
        }
    }

    /// Frees the payloads of all frames that were read.
    pub fn reset_arena(&mut self)
        requires
            old(self).wf(),
        ensures
            final(self).wf(),
            final(self).stored() == old(self).stored(),
            final(self).position() == old(self).position(),
    {
        self.arena.reset();
    }
}

/// Answers a frame that breaks the protocol.
fn refuse_frame<'a>(write: &mut WriteHalf, violation: Violation) -> (step: ReadStep<'a>)
    ensures
        refuses(step, violation),
        final(write).kept() == Seq::<u8>::empty(),
{
    let payload = protocol_error();
    let bytes = write.send_close(payload.as_slice());
    ReadStep::Send { bytes, outcome: Err(Error::ProtocolViolation(violation.reason())) }
}

/// `Vec::capacity` says how many bytes the buffer can hold before it has to
/// allocate. The allocator decides on the number; it is never below the number
/// of bytes held.
#[verifier::external_body]
fn capacity_of(buffer: &Vec<u8>) -> (capacity: usize)
    ensures
        capacity >= buffer@.len(),
{
    buffer.capacity()
}

/// Moves the bytes behind the first `count` to the front and drops what is then
/// left over at the end.
fn drop_front(buffer: &mut Vec<u8>, count: usize)
    requires
        count <= old(buffer)@.len(),
    ensures
        final(buffer)@ == old(buffer)@.skip(count as int),
{
    let ghost before = buffer@;
    let kept: usize = buffer.len() - count;
    let mut i: usize = 0;
    while i < kept
        invariant
            i <= kept,
            count + kept == before.len() == buffer@.len(),
            count + kept <= usize::MAX,
            forall|k: int| 0 <= k < i ==> buffer@[k] == before[k + count],
            forall|k: int| i <= k < before.len() ==> buffer@[k] == before[k],
        decreases kept - i,
    {
        buffer[i] = buffer[i + count];
        i = i + 1;
    }
    buffer.truncate(kept);
    assert(buffer@ =~= before.skip(count as int));
}

/// Whether a payload can be sent in one frame.
pub open spec fn fits_frame(data: Seq<u8>) -> bool {
    data.len() + 14 <= isize::MAX
}

/// Turns frames into bytes to be written.
pub struct WriteHalf {
    rng: SmallRng,
    buffer: Vec<u8>,
}

impl WriteHalf {
    /// The bytes in the buffer that the next frame is written into.
    pub closed spec fn kept(&self) -> Seq<u8> {
        self.buffer@
    }

    /// A write half with room for some bytes.
    pub fn with_capacity(capacity: usize) -> (half: Self)
        requires
            capacity <= isize::MAX,
        ensures
            half.kept() == Seq::<u8>::empty(),
    {
        Self { rng: seeded(), buffer: Vec::with_capacity(capacity) }
    }

    /// Takes the buffer out.
    fn take_buffer(&mut self) -> (dst: Vec<u8>)
        ensures
            dst@ == old(self).kept(),
            final(self).kept() == Seq::<u8>::empty(),
    {
        let mut buffer: Vec<u8> = Vec::new();
        std::mem::swap(&mut buffer, &mut self.buffer);
        buffer
    }

    /// The bytes of a final ping frame.
    pub fn send_ping(&mut self, data: &[u8]) -> (bytes: Vec<u8>)
        requires
            fits_frame(data@),
        ensures
            sends(bytes@, last(Opcode::Ping), data@),
            final(self).kept() == Seq::<u8>::empty(),
    {
        self.write_frame(Frame { fin: true, opcode: Opcode::Ping }, data)
    }

    /// The bytes of a final pong frame.
    pub fn send_pong(&mut self, data: &[u8]) -> (bytes: Vec<u8>)
        requires
            fits_frame(data@),
        ensures
            sends(bytes@, last(Opcode::Pong), data@),
            final(self).kept() == Seq::<u8>::empty(),
    {
        self.write_frame(Frame { fin: true, opcode: Opcode::Pong }, data)
    }

    /// The bytes of a binary message.
    pub fn send_binary(&mut self, data: &[u8]) -> (bytes: Vec<u8>)
        requires
            fits_frame(data@),
        ensures
            sends(bytes@, last(Opcode::Binary), data@),
            final(self).kept() == Seq::<u8>::empty(),
    {
        self.write_frame(Frame { fin: true, opcode: Opcode::Binary }, data)
    }

    /// The bytes of a text message.
    pub fn send_text(&mut self, data: &[u8]) -> (bytes: Vec<u8>)
        requires
            fits_frame(data@),
        ensures
            sends(bytes@, last(Opcode::Text), data@),
            final(self).kept() == Seq::<u8>::empty(),
    {
        self.write_frame(Frame { fin: true, opcode: Opcode::Text }, data)
    }

    /// The bytes of a close frame.
    pub fn send_close(&mut self, data: &[u8]) -> (bytes: Vec<u8>)
        requires
            fits_frame(data@),
        ensures
            sends(bytes@, last(Opcode::Close), data@),
            final(self).kept() == Seq::<u8>::empty(),
    {
        self.write_frame(Frame { fin: true, opcode: Opcode::Close }, data)
    }

    /// The bytes of a frame with the payload `data`, under a masking key of its
    /// own.
    pub fn write_frame(&mut self, frame: Frame, data: &[u8]) -> (bytes: Vec<u8>)
        requires
            fits_frame(data@),
        ensures
            sends(bytes@, frame, data@),
            final(self).kept() == Seq::<u8>::empty(),
    {
        let mut dst = self.take_buffer();
        let mask = next_mask(&mut self.rng);
        frame.encode(data, &mut dst, mask);
        assert(mask@.len() == 4 && dst@ == encoded(frame, data@, mask@));
        dst
    }

    /// The bytes of a control frame with the payload `data`, under a masking key
    /// of its own.
    pub fn write_control_frame(&mut self, frame: Frame, data: &[u8]) -> (bytes: Vec<u8>)
        requires
            fits_frame(data@),
        ensures
            exists|mask: Seq<u8>|
                mask.len() == 4 && bytes@ == #[trigger] encoded_control(frame, data@, mask),
            data@.len() <= 125 ==> sends(bytes@, frame, data@),
            final(self).kept() == Seq::<u8>::empty(),
    {
        let mut dst = self.take_buffer();
        let mask = next_mask(&mut self.rng);
        frame.encode_control(data, &mut dst, mask);
        assert(mask@.len() == 4 && dst@ == encoded_control(frame, data@, mask@));
        proof {
            if data@.len() <= 125 {
                control_encoding_is_the_encoding(frame, data@, mask@);
                assert(dst@ == encoded(frame, data@, mask@));
            }
        }
        dst
    }

    /// Takes back the buffer that was written from.
    pub fn written(&mut self, buffer: Vec<u8>)
        ensures
            final(self).kept() == buffer@,
    {
        self.buffer = buffer;
    }
}

/// What has to happen for the reading of a frame to end.
#[derive(Debug)]
pub enum ReadStep<'a> {
    /// The bytes have to be written; then the outcome holds, unless the write
    /// fails (see [`sent`]).
    Send { bytes: Vec<u8>, outcome: ZeroCopyResult<ArenaFrame<'a>> },
    /// The frame is read.
    Done(ArenaFrame<'a>),
}

impl ReadStep<'_> {
    /// The frame that this step yields in the end, where it yields one.
    pub open spec fn yields(self) -> Option<(Frame, Seq<u8>)> {
        match self {
            ReadStep::Send { bytes, outcome } => match outcome {
                Ok(read) => Some((read.frame, read.data@)),
                Err(_) => None,
            },
            ReadStep::Done(read) => Some((read.frame, read.data@)),
        }
    }
}

/// The step sends a close frame that reports a protocol error, and ends with the
/// violation.
pub open spec fn refuses(step: ReadStep, violation: Violation) -> bool {
    &&& step matches ReadStep::Send { bytes, outcome }
    &&& sends(bytes@, last(Opcode::Close), protocol_error_payload())
    &&& outcome matches Err(Error::ProtocolViolation(reason))
    &&& reason@ == violation.text()
}

/// The step sends a final frame with the given opcode and the payload `data`, and
/// ends with the frame that was read.
pub open spec fn echoes(step: ReadStep, opcode: Opcode, frame: Frame, data: Seq<u8>) -> bool {
    &&& step matches ReadStep::Send { bytes, outcome }
    &&& sends(bytes@, last(opcode), data)
    &&& outcome matches Ok(read)
    &&& read.frame == frame
    &&& read.data@ == data
}

/// The step is the right one for a frame that was read.
pub open spec fn answers(step: ReadStep, frame: Frame, data: Seq<u8>) -> bool {
    match answer_to(frame, data) {
        Answer::Nothing => step matches ReadStep::Done(read) && read.frame == frame && read.data@
            == data,
        Answer::Pong => echoes(step, Opcode::Pong, frame, data),
        Answer::Close => echoes(step, Opcode::Close, frame, data),
        Answer::Refuse(violation) => refuses(step, violation),
    }
}

/// What has to happen next for a message to be read.
#[derive(Debug)]
pub enum MessageStep {
    /// Another frame has to be read.
    ReadFrame,
    /// The bytes have to be written; then the outcome holds, unless the write
    /// fails (see [`sent`]).
    Send { bytes: Vec<u8>, outcome: ZeroCopyResult<Message> },
    /// The message is read, or there will be none.
    Done(ZeroCopyResult<Message>),
}

/// `step` is the right one after a frame that meant `turn` for the message.
pub open spec fn follows(step: MessageStep, turn: Turn, data: Seq<u8>) -> bool {
    match turn {
        Turn::Continue => step is ReadFrame,
        Turn::Complete(kind) => step matches MessageStep::Done(Ok(message)) && message == kind,
        Turn::Refuse(violation) => {
            &&& step matches MessageStep::Send { bytes, outcome }
            &&& sends(bytes@, last(Opcode::Close), protocol_error_payload())
            &&& outcome matches Err(Error::ProtocolViolation(reason))
            &&& reason@ == violation.text()
        },
        Turn::Closed => {
            &&& step matches MessageStep::Done(Err(Error::Closed { code, reason }))
            &&& code == close_code(data)
            &&& text_of(reason) == close_reason(data)
        },
    }
}

/// What comes of a step whose bytes were written with the given result: a write
/// that fails takes the place of the outcome.
pub fn sent<T>(result: Result<(), std::io::Error>, outcome: ZeroCopyResult<T>) -> (end:
    ZeroCopyResult<T>)
    ensures
        end == match result {
            Ok(_) => outcome,
            Err(error) => Err::<T, Error>(Error::Io(IoError::Stream(error))),
        },
{
    match result {
        Ok(_) => outcome,
        Err(error) => Err(Error::from(error)),
    }
}

/// A client that hands out payloads from an arena.
///
/// A frame that was read borrows from the read half alone, so that the write half
/// can be used while the frame is looked at.
pub struct ZeroCopyClient {
    pub read_half: ZeroCopyReadHalf,
    pub write_half: WriteHalf,
}

impl ZeroCopyClient {
    /// A client for which nothing has arrived yet.
    pub fn new(config: &ZeroCopyConfig) -> (client: Self)
        requires
            config.read_buffer_capacity <= isize::MAX,
            config.write_buffer_capacity <= isize::MAX,
            allocatable(config.arena_capacity as nat),
        ensures
            client.read_half.wf(),
            client.read_half.stored() == Seq::<u8>::empty(),
            client.read_half.unread() == Seq::<u8>::empty(),
            client.read_half.position() == 0,
            client.write_half.kept() == Seq::<u8>::empty(),
    {
        Self {
            read_half: ZeroCopyReadHalf::with_capacity(
                config.read_buffer_capacity,
                config.arena_capacity,
            ),
            write_half: WriteHalf::with_capacity(config.write_buffer_capacity),
        }
    }

    /// Takes in a frame of the message that is being read, and says what has to
    /// happen next (see [`ZeroCopyReadHalf::next_msg`]).
    pub fn next_msg(
        write_half: &mut WriteHalf,
        message: &mut PartialMessage,
        frame: ArenaFrame<'_>,
    ) -> (step: MessageStep)
        requires
            acceptable(frame.frame, frame.data@),
        ensures
            follows(step, turn(old(message)@, frame.frame, frame.data@), frame.data@),
            final(message)@ == grown(old(message)@, frame.frame, frame.data@),
            final(write_half).kept() == if step is Send {
                Seq::<u8>::empty()
            } else {
                old(write_half).kept()
            },
    {
        ZeroCopyReadHalf::next_msg(write_half, message, frame)
    }

    /// Ends the reading of a frame (see [`ZeroCopyReadHalf::read_frame`]).
    pub fn read_frame(&mut self, found: Found) -> (step: ReadStep<'_>)
        requires
            old(self).read_half.wf(),
            found.fits(old(self).read_half.unread()),
        ensures
            final(self).read_half.wf(),
            final(self).read_half.stored() == old(self).read_half.stored(),
            final(self).write_half.kept() == if step is Send {
                Seq::<u8>::empty()
            } else {
                old(self).write_half.kept()
            },
            match found {
                Found::Refused(violation) => {
                    &&& refuses(step, violation)
                    &&& final(self).read_half.unread() == old(self).read_half.unread()
                    &&& final(self).read_half.position() == old(self).read_half.position()
                },
                Found::Ready { frame, length } => {
                    &&& answers(step, frame, old(self).read_half.unread().take(length as int))
                    &&& final(self).read_half.unread() == old(self).read_half.unread().skip(
                        length as int,
                    )
                    &&& final(self).read_half.position() == old(self).read_half.position()
                        + length
                },
            },
    {
        self.read_half.read_frame(&mut self.write_half, found)
    }

    /// The bytes of a final ping frame.
    pub fn send_ping(&mut self, data: &[u8]) -> (bytes: Vec<u8>)
        requires
            fits_frame(data@),
        ensures
            sends(bytes@, last(Opcode::Ping), data@),
            final(self).read_half == old(self).read_half,
            final(self).write_half.kept() == Seq::<u8>::empty(),
    {
        self.write_half.send_ping(data)
    }

    /// The bytes of a final pong frame.
    pub fn send_pong(&mut self, data: &[u8]) -> (bytes: Vec<u8>)
        requires
            fits_frame(data@),
        ensures
            sends(bytes@, last(Opcode::Pong), data@),
            final(self).read_half == old(self).read_half,
            final(self).write_half.kept() == Seq::<u8>::empty(),
    {
        self.write_half.send_pong(data)
    }

    /// The bytes of a binary message.
    pub fn send_binary(&mut self, data: &[u8]) -> (bytes: Vec<u8>)
        requires
            fits_frame(data@),
        ensures
            sends(bytes@, last(Opcode::Binary), data@),
            final(self).read_half == old(self).read_half,
            final(self).write_half.kept() == Seq::<u8>::empty(),
    {
        self.write_half.send_binary(data)
    }

    /// The bytes of a text message.
    pub fn send_text(&mut self, data: &[u8]) -> (bytes: Vec<u8>)
        requires
            fits_frame(data@),
        ensures
            sends(bytes@, last(Opcode::Text), data@),
            final(self).read_half == old(self).read_half,
            final(self).write_half.kept() == Seq::<u8>::empty(),
    {
        self.write_half.send_text(data)
    }

    /// The bytes of a close frame.
    pub fn send_close(&mut self, data: &[u8]) -> (bytes: Vec<u8>)
        requires
            fits_frame(data@),
        ensures
            sends(bytes@, last(Opcode::Close), data@),
            final(self).read_half == old(self).read_half,
            final(self).write_half.kept() == Seq::<u8>::empty(),
    {
        self.write_half.send_close(data)
    }

    /// The bytes of a frame with the payload `data`.
    pub fn write_frame(&mut self, frame: Frame, data: &[u8]) -> (bytes: Vec<u8>)
        requires
            fits_frame(data@),
        ensures
            sends(bytes@, frame, data@),
            final(self).read_half == old(self).read_half,
            final(self).write_half.kept() == Seq::<u8>::empty(),
    {
        self.write_half.write_frame(frame, data)
    }

    /// Frees the payloads of all frames that were read.
    pub fn reset_arena(&mut self)
        requires
            old(self).read_half.wf(),
        ensures
            final(self).read_half.wf(),
            final(self).read_half.stored() == old(self).read_half.stored(),
            final(self).read_half.position() == old(self).read_half.position(),
            final(self).read_half.unread() == old(self).read_half.unread(),
            final(self).write_half == old(self).write_half,
    {
        self.read_half.reset_arena();
    }
}

/// Where the steps into a frame lead, as far as `unread` lets them, and how many
/// bytes they take, on top of `taken`.
pub open spec fn steps(progress: Progress, unread: Seq<u8>, taken: int) -> (Stage, Progress, int)
    decreases
            match progress {
                Progress::Start => 2int,
                Progress::Length { frame, width } => 1int,
                Progress::Payload { frame, length } => 0int,
            },
{
    match stage_of(progress, unread) {
        Stage::Next(next) => steps(
            next,
            unread.skip(taken_by(progress, unread)),
            taken + taken_by(progress, unread),
        ),
        stage => (stage, progress, taken + taken_by(progress, unread)),
    }
}

/// A step leads to progress that a step can have made, and what is found in the
/// end obeys the rules of the header and is there in full.
pub proof fn steps_stay_lawful(progress: Progress, unread: Seq<u8>)
    requires
        progress.wf(),
    ensures
        stage_of(progress, unread) matches Stage::Next(next) ==> next.wf(),
        stage_of(progress, unread) matches Stage::Found(Found::Ready { frame, length }) ==> lawful(
            frame,
            length as int,
        ) && length <= unread.len(),
{
}

/// The steps into a frame find what the protocol says stands there: they stop
/// short where the frame is not there in full, they refuse what breaks a rule,
/// and else they end right in front of the payload.
pub proof fn steps_find_what_was_sent(bytes: Seq<u8>)
    ensures
        ({
            let (stage, progress, taken) = steps(Progress::Start, bytes, 0);
            match parsed(bytes) {
                Parsed::Short => stage is Read,
                Parsed::Refused(violation) => stage == Stage::Found(Found::Refused(violation))
                    && taken == 2,
                Parsed::Whole { frame, from, to } => stage == Stage::Found(
                    Found::Ready { frame, length: (to - from) as usize },
                ) && taken == from,
            }
        }),
{
    reveal_with_fuel(steps, 3);
    if bytes.len() >= 2 && header_violation(bytes[0], bytes[1]) is None {
        let width = length_width(bytes[1]);
        if width > 0 && bytes.len() >= 2 + width {
            assert(bytes.skip(2).take(width) =~= bytes.subrange(2, 2 + width));
        }
    }
}

/// A frame is the same however its bytes arrive: where the steps stopped to wait
/// for more bytes, they go on as if these had been there from the beginning.
pub proof fn arrival_does_not_matter(progress: Progress, bytes: Seq<u8>, more: Seq<u8>)
    requires
        progress.wf(),
    ensures
        ({
            let (stage, reached, taken) = steps(progress, bytes, 0);
            stage is Read ==> {
                &&& 0 <= taken <= bytes.len()
                &&& steps(progress, bytes + more, 0) == steps(
                    reached,
                    bytes.skip(taken) + more,
                    taken,
                )
            }
        }),
{
    steps_resume(progress, bytes, more, 0);
}

proof fn steps_resume(progress: Progress, bytes: Seq<u8>, more: Seq<u8>, taken: int)
    requires
        progress.wf(),
    ensures
        ({
            let (stage, reached, total) = steps(progress, bytes, taken);
            stage is Read ==> {
                &&& taken <= total <= taken + bytes.len()
                &&& steps(progress, bytes + more, taken) == steps(
                    reached,
                    bytes.skip(total - taken) + more,
                    total,
                )
            }
        }),
    decreases
            match progress {
                Progress::Start => 2int,
                Progress::Length { frame, width } => 1int,
                Progress::Payload { frame, length } => 0int,
            },
{
    let all = bytes + more;
    match stage_of(progress, bytes) {
        Stage::Read => {
            assert(bytes.skip(0) + more =~= all);
        },
        Stage::Next(next) => {
            let used = taken_by(progress, bytes);
            assert(all.take(used) =~= bytes.take(used));
            assert(stage_of(progress, all) == stage_of(progress, bytes));
            assert(all.skip(used) =~= bytes.skip(used) + more);
            steps_resume(next, bytes.skip(used), more, taken + used);
            let (stage, reached, total) = steps(progress, bytes, taken);
            if stage is Read {
                assert(bytes.skip(used).skip(total - taken - used) =~= bytes.skip(total - taken));
            }
        },
        Stage::Found(_) => {},
    }
}

/// Whatever a server may send is read back, whatever its length, with whatever
/// follows left for later.
pub proof fn sent_frame_is_read_back(frame: Frame, data: Seq<u8>, rest: Seq<u8>)
    requires
        sendable(frame, data),
        data.len() <= usize::MAX,
    ensures
        ({
            let bytes = unmasked(frame, data) + rest;
            let (stage, progress, taken) = steps(Progress::Start, bytes, 0);
            &&& stage == Stage::Found(Found::Ready { frame, length: data.len() as usize })
            &&& bytes.skip(taken).take(data.len() as int) == data
            &&& bytes.skip(taken).skip(data.len() as int) == rest
        }),
{
    let bytes = unmasked(frame, data) + rest;
    sent_frame_is_parsed(frame, data, rest);
    steps_find_what_was_sent(bytes);
    if let Parsed::Whole { frame: read, from, to } = parsed(bytes) {
        assert(bytes.skip(from).take(to - from) =~= bytes.subrange(from, to));
        assert(bytes.skip(from).skip(to - from) =~= bytes.skip(to));
    }
}

/// A frame is handed on exactly where it may be: its opcode is in use, and where
/// it is a close frame its payload is in order.
pub proof fn read_frame_is_acceptable(step: ReadStep, frame: Frame, data: Seq<u8>)
    requires
        lawful(frame, data.len() as int),
        answers(step, frame, data),
    ensures
        step.yields() == if acceptable(frame, data) {
            Some((frame, data))
        } else {
            None
        },
{
}

/// A buffer that was lent out and put back with some bytes appended to it makes
/// just these bytes unread, behind those that were.
pub proof fn appended_bytes_are_unread(
    before: ZeroCopyReadHalf,
    after: ZeroCopyReadHalf,
    appended: Seq<u8>,
)
    requires
        before.wf(),
        after.stored() == before.stored() + appended,
        after.position() == before.position(),
    ensures
        after.unread() == before.unread() + appended,
{
    before.position_is_within();
    assert(after.unread() =~= before.unread() + appended);
}

/// A read half in the course of many calls: what it has not taken yet, how far it
/// is into a frame, the frames that were read, and whether one was refused.
#[verifier::ext_equal]
pub struct Reader {
    pub unread: Seq<u8>,
    pub progress: Progress,
    pub frames: Seq<(Frame, Seq<u8>)>,
    pub refused: bool,
}

/// What can happen to a read half.
pub enum Event {
    /// Bytes arrive: the buffer is lent out and put back with them appended.
    Arrive(Seq<u8>),
    /// [`ZeroCopyReadHalf::begin_frame`] or [`ZeroCopyReadHalf::compact`].
    MakeRoom,
    /// [`ZeroCopyReadHalf::read_frame_inner`], and where this finds something
    /// [`ZeroCopyReadHalf::read_frame`].
    Step,
}

/// A read half before anything has arrived.
pub open spec fn new_reader() -> Reader {
    Reader {
        unread: Seq::empty(),
        progress: Progress::Start,
        frames: Seq::empty(),
        refused: false,
    }
}

/// The read half after an event.
pub open spec fn after_event(reader: Reader, event: Event) -> Reader {
    match event {
        Event::Arrive(bytes) => Reader { unread: reader.unread + bytes, ..reader },
        Event::MakeRoom => reader,
        Event::Step => {
            let left = reader.unread.skip(taken_by(reader.progress, reader.unread));
            match stage_of(reader.progress, reader.unread) {
                Stage::Read => reader,
                Stage::Next(next) => Reader { unread: left, progress: next, ..reader },
                Stage::Found(Found::Ready { frame, length }) => Reader {
                    unread: left.skip(length as int),
                    progress: Progress::Start,
                    frames: reader.frames.push((frame, left.take(length as int))),
                    ..reader
                },
                Stage::Found(Found::Refused(_)) => Reader {
                    unread: left,
                    progress: Progress::Start,
                    refused: true,
                    ..reader
                },
            }
        },
    }
}

/// The read half after several events.
pub open spec fn after_events(reader: Reader, events: Seq<Event>) -> Reader
    decreases events.len(),
{
    if events.len() == 0 {
        reader
    } else {
        after_events(after_event(reader, events[0]), events.drop_first())
    }
}

/// All bytes that arrive.
pub open spec fn arrivals(events: Seq<Event>) -> Seq<u8>
    decreases events.len(),
{
    if events.len() == 0 {
        Seq::empty()
    } else {
        let later = arrivals(events.drop_first());
        match events[0] {
            Event::Arrive(bytes) => bytes + later,
            _ => later,
        }
    }
}

/// Frames that a server may send, with lengths that can be counted.
pub open spec fn sendable_frames(frames: Seq<(Frame, Seq<u8>)>) -> bool {
    forall|i: int|
        0 <= i < frames.len() ==> sendable((#[trigger] frames[i]).0, frames[i].1)
            && frames[i].1.len() <= usize::MAX
}

/// `frames` are still to be read, out of the bytes at hand and those that have
/// still to arrive.
spec fn on_track(reader: Reader, frames: Seq<(Frame, Seq<u8>)>, pending: Seq<u8>) -> bool {
    let coming = reader.unread + pending;
    let rest = wire(frames.drop_first());
    &&& !reader.refused
    &&& match reader.progress {
        Progress::Start => coming == wire(frames),
        Progress::Length { frame, width } => {
            &&& frames.len() > 0
            &&& frame == frames[0].0
            &&& frames[0].1.len() >= 126
            &&& width == if frames[0].1.len() < 65536 {
                2int
            } else {
                8int
            }
            &&& coming == spelled(frames[0].1.len(), width as nat) + frames[0].1 + rest
        },
        Progress::Payload { frame, length } => {
            &&& frames.len() > 0
            &&& frame == frames[0].0
            &&& length == frames[0].1.len()
            &&& coming == frames[0].1 + rest
        },
    }
}

proof fn rest_is_sendable(frames: Seq<(Frame, Seq<u8>)>)
    requires
        sendable_frames(frames),
        frames.len() > 0,
    ensures
        sendable_frames(frames.drop_first()),
{
    let rest = frames.drop_first();
    assert forall|i: int| 0 <= i < rest.len() implies sendable((#[trigger] rest[i]).0, rest[i].1)
        && rest[i].1.len() <= usize::MAX by {
        assert(rest[i] == frames[i + 1]);
    }
}

/// A step from the start of a frame stays on track.
proof fn first_step_stays_on_track(
    reader: Reader,
    frames: Seq<(Frame, Seq<u8>)>,
    pending: Seq<u8>,
)
    requires
        sendable_frames(frames),
        on_track(reader, frames, pending),
        reader.progress is Start,
    ensures
        stage_of(reader.progress, reader.unread) !is Found,
        on_track(after_event(reader, Event::Step), frames, pending),
        stage_of(reader.progress, reader.unread) is Read && pending.len() == 0 ==> frames.len()
            == 0 && reader.unread.len() == 0,
{
    let coming = reader.unread + pending;
    if frames.len() == 0 {
        assert(coming.len() == 0);
    } else {
        let (frame, data) = frames[0];
        let rest = wire(frames.drop_first());
        assert(sendable(frames[0].0, frames[0].1));
        spelled_has_width(data.len(), 2);
        spelled_has_width(data.len(), 8);
        assert(coming == unmasked(frame, data) + rest);
        assert(coming[0] == first_byte(frame));
        assert(coming.len() >= 2);
        if reader.unread.len() >= 2 {
            let unread = reader.unread;
            assert(unread[0] == coming[0] && unread[1] == coming[1]);
            assert(header_frame(unread[0]) == frame);
            assert(header_violation(unread[0], unread[1]) is None);
            assert(unread.skip(2) + pending =~= coming.skip(2));
            if data.len() < 126 {
                assert(coming.skip(2) =~= data + rest);
            } else if data.len() < 65536 {
                assert(coming.skip(2) =~= spelled(data.len(), 2) + data + rest);
            } else {
                assert(coming.skip(2) =~= spelled(data.len(), 8) + data + rest);
            }
        }
    }
}

/// A step that reads the length stays on track.
proof fn length_step_stays_on_track(
    reader: Reader,
    frames: Seq<(Frame, Seq<u8>)>,
    pending: Seq<u8>,
)
    requires
        sendable_frames(frames),
        on_track(reader, frames, pending),
        reader.progress is Length,
    ensures
        stage_of(reader.progress, reader.unread) !is Found,
        on_track(after_event(reader, Event::Step), frames, pending),
        stage_of(reader.progress, reader.unread) is Read ==> pending.len() > 0,
{
    let coming = reader.unread + pending;
    let data = frames[0].1;
    let rest = wire(frames.drop_first());
    let width = reader.progress.needs();
    let spelling = spelled(data.len(), width as nat);
    assert(sendable(frames[0].0, frames[0].1));
    spelled_has_width(data.len(), width as nat);
    if reader.unread.len() >= width {
        spans();
        spelled_number_reads_back(data.len(), width as nat);
        assert(reader.unread.take(width) =~= coming.take(width));
        assert(coming.take(width) =~= spelling);
        assert(reader.unread.skip(width) + pending =~= coming.skip(width));
        assert(coming.skip(width) =~= data + rest);
    } else {
        assert(coming.len() >= width);
    }
}

/// A step that reads the payload reads the first frame, and stays on track for
/// the others.
proof fn payload_step_stays_on_track(
    reader: Reader,
    frames: Seq<(Frame, Seq<u8>)>,
    pending: Seq<u8>,
)
    requires
        sendable_frames(frames),
        on_track(reader, frames, pending),
        reader.progress is Payload,
    ensures
        match stage_of(reader.progress, reader.unread) {
            Stage::Read => pending.len() > 0,
            _ => {
                &&& after_event(reader, Event::Step).frames == reader.frames.push(frames[0])
                &&& on_track(after_event(reader, Event::Step), frames.drop_first(), pending)
                &&& after_event(reader, Event::Step).progress is Start
            },
        },
{
    let coming = reader.unread + pending;
    let data = frames[0].1;
    let rest = wire(frames.drop_first());
    let length = data.len() as int;
    if reader.unread.len() >= length {
        assert(reader.unread.skip(0) =~= reader.unread);
        assert(reader.unread.take(length) =~= coming.take(length));
        assert(coming.take(length) =~= data);
        assert(reader.unread.skip(length) + pending =~= coming.skip(length));
        assert(coming.skip(length) =~= rest);
    } else {
        assert(coming.len() >= length);
    }
}

/// What is read from here on, when `frames` are still to come, is the beginning of
/// them. With everything there, and nothing more to be done, it is all of them.
proof fn events_stay_on_track(
    reader: Reader,
    events: Seq<Event>,
    frames: Seq<(Frame, Seq<u8>)>,
    pending: Seq<u8>,
)
    requires
        sendable_frames(frames),
        on_track(reader, frames, arrivals(events) + pending),
    ensures
        ({
            let end = after_events(reader, events);
            let n = end.frames.len() - reader.frames.len();
            &&& 0 <= n <= frames.len()
            &&& end.frames == reader.frames + frames.take(n)
            &&& sendable_frames(frames.skip(n))
            &&& on_track(end, frames.skip(n), pending)
        }),
    decreases events.len(),
{
    if events.len() == 0 {
        assert(arrivals(events) + pending =~= pending);
        assert(frames.take(0) =~= Seq::<(Frame, Seq<u8>)>::empty());
        assert(frames.skip(0) =~= frames);
        assert(reader.frames + frames.take(0) =~= reader.frames);
    } else {
        let next = after_event(reader, events[0]);
        let later = events.drop_first();
        let coming = arrivals(events) + pending;
        let remaining = arrivals(later) + pending;
        match events[0] {
            Event::Arrive(bytes) => {
                assert(next.unread + remaining =~= reader.unread + coming);
                events_stay_on_track(next, later, frames, pending);
            },
            Event::MakeRoom => {
                events_stay_on_track(next, later, frames, pending);
            },
            Event::Step => {
                match reader.progress {
                    Progress::Start => {
                        first_step_stays_on_track(reader, frames, coming);
                    },
                    Progress::Length { frame, width } => {
                        length_step_stays_on_track(reader, frames, coming);
                    },
                    Progress::Payload { frame, length } => {
                        payload_step_stays_on_track(reader, frames, coming);
                    },
                }
                if stage_of(reader.progress, reader.unread) is Found {
                    let rest = frames.drop_first();
                    rest_is_sendable(frames);
                    events_stay_on_track(next, later, rest, pending);
                    let n = after_events(reader, events).frames.len() - reader.frames.len();
                    assert(rest.skip(n - 1) =~= frames.skip(n));
                    assert(next.frames + rest.take(n - 1) =~= reader.frames + frames.take(n));
                } else {
                    events_stay_on_track(next, later, frames, pending);
                }
            },
        }
    }
}

/// Whatever frames a server may send are read in order, each with its own header
/// and payload: no byte is lost, repeated or moved between frames, however the
/// bytes are cut on their way, whenever a step is tried and whenever room is made.
/// What was read is always the beginning of what was sent, and nothing is refused.
/// Once all bytes have arrived and a step has nothing more to do, it is all of it.
pub proof fn frames_are_read_in_order(
    frames: Seq<(Frame, Seq<u8>)>,
    events: Seq<Event>,
    pending: Seq<u8>,
)
    requires
        sendable_frames(frames),
        arrivals(events) + pending == wire(frames),
    ensures
        ({
            let end = after_events(new_reader(), events);
            &&& end.frames.len() <= frames.len()
            &&& end.frames == frames.take(end.frames.len() as int)
            &&& !end.refused
            &&& pending.len() == 0 && stage_of(end.progress, end.unread) is Read ==> {
                &&& end.frames == frames
                &&& end.unread == Seq::<u8>::empty()
                &&& end.progress == Progress::Start
            }
        }),
{
    let start = new_reader();
    let coming = arrivals(events) + pending;
    assert(start.unread + coming =~= coming);
    events_stay_on_track(start, events, frames, pending);
    let end = after_events(start, events);
    let n = end.frames.len() as int;
    assert(start.frames + frames.take(n) =~= frames.take(n));
    if pending.len() == 0 && stage_of(end.progress, end.unread) is Read {
        let rest = frames.skip(n);
        match end.progress {
            Progress::Start => {
                first_step_stays_on_track(end, rest, pending);
                assert(frames.take(n) =~= frames);
                assert(end.unread =~= Seq::<u8>::empty());
            },
            Progress::Length { frame, width } => {
                length_step_stays_on_track(end, rest, pending);
            },
            Progress::Payload { frame, length } => {
                payload_step_stays_on_track(end, rest, pending);
            },
        }
    }
}

/// The read half after some steps, with nothing else in between.
pub open spec fn after_steps(reader: Reader, count: nat) -> Reader
    decreases count,
{
    if count == 0 {
        reader
    } else {
        after_steps(after_event(reader, Event::Step), (count - 1) as nat)
    }
}

proof fn steps_finish(reader: Reader, frames: Seq<(Frame, Seq<u8>)>, count: nat)
    requires
        sendable_frames(frames),
        on_track(reader, frames, Seq::empty()),
        count + match reader.progress {
            Progress::Start => 0int,
            Progress::Length { frame, width } => 1int,
            Progress::Payload { frame, length } => 2int,
        } >= 3 * frames.len(),
    ensures
        after_steps(reader, count).frames == reader.frames + frames,
        after_steps(reader, count).unread == Seq::<u8>::empty(),
    decreases count,
{
    let pending = Seq::<u8>::empty();
    if count == 0 {
        assert(frames =~= Seq::<(Frame, Seq<u8>)>::empty());
        assert(reader.unread + pending =~= reader.unread);
        assert(reader.frames + frames =~= reader.frames);
    } else {
        let next = after_event(reader, Event::Step);
        match reader.progress {
            Progress::Start => {
                first_step_stays_on_track(reader, frames, pending);
                steps_finish(next, frames, (count - 1) as nat);
            },
            Progress::Length { frame, width } => {
                length_step_stays_on_track(reader, frames, pending);
                steps_finish(next, frames, (count - 1) as nat);
            },
            Progress::Payload { frame, length } => {
                payload_step_stays_on_track(reader, frames, pending);
                rest_is_sendable(frames);
                steps_finish(next, frames.drop_first(), (count - 1) as nat);
                assert(next.frames + frames.drop_first() =~= reader.frames + frames);
            },
        }
    }
}

/// Once all bytes have arrived, however they were cut and whatever was done on
/// the way, three steps for each frame read all that is left: all frames have been
/// read then, in order, and no byte is left.
pub proof fn all_frames_are_read(
    frames: Seq<(Frame, Seq<u8>)>,
    events: Seq<Event>,
    count: nat,
)
    requires
        sendable_frames(frames),
        arrivals(events) == wire(frames),
        count >= 3 * frames.len(),
    ensures
        after_steps(after_events(new_reader(), events), count).frames == frames,
        after_steps(after_events(new_reader(), events), count).unread == Seq::<u8>::empty(),
{
    let start = new_reader();
    let pending = Seq::<u8>::empty();
    assert(start.unread + (arrivals(events) + pending) =~= wire(frames));
    events_stay_on_track(start, events, frames, pending);
    let end = after_events(start, events);
    let n = end.frames.len() as int;
    steps_finish(end, frames.skip(n), count);
    assert(start.frames + frames.take(n) + frames.skip(n) =~= frames);
}

/// One turn in the reading of a message: a frame is read, and, where there is one,
/// taken in.
pub struct Round<'a> {
    /// What [`ZeroCopyReadHalf::read_frame_inner`] found in the end.
    pub reading: Reading,
    /// The step that ends the reading of the frame.
    pub read: ReadStep<'a>,
    /// The step that takes the frame in, where there is a frame.
    pub taken: Option<MessageStep>,
}

/// The steps are those that [`ZeroCopyReadHalf::read_frame`] and
/// [`ZeroCopyReadHalf::next_msg`] give.
pub open spec fn takes_place(so_far: Assembly, round: Round) -> bool {
    &&& match round.reading {
        Reading::Refused(violation) => refuses(round.read, violation),
        Reading::Read(frame, data) => lawful(frame, data.len() as int) && answers(
            round.read,
            frame,
            data,
        ),
    }
    &&& match round.read.yields() {
        Some((frame, data)) => round.taken matches Some(step) && follows(
            step,
            turn(so_far, frame, data),
            data,
        ),
        None => round.taken is None,
    }
}

/// What is read in several rounds.
pub open spec fn readings(rounds: Seq<Round>) -> Seq<Reading> {
    Seq::new(rounds.len(), |i: int| rounds[i].reading)
}

/// The rounds make up the reading of one message: each but the last asks for
/// another frame.
pub open spec fn rounds_follow(so_far: Assembly, rounds: Seq<Round>) -> bool
    decreases rounds.len(),
{
    rounds.len() > 0 ==> {
        &&& takes_place(so_far, rounds[0])
        &&& rounds.len() > 1 ==> rounds[0].taken == Some(MessageStep::ReadFrame)
        &&& rounds_follow(conversation::after(so_far, rounds[0].reading), rounds.drop_first())
    }
}

/// What is written in a round, piece by piece.
pub open spec fn written_in(round: Round) -> Seq<Seq<u8>> {
    let answer = match round.read {
        ReadStep::Send { bytes, outcome } => seq![bytes@],
        _ => Seq::empty(),
    };
    match round.taken {
        Some(MessageStep::Send { bytes, outcome }) => answer.push(bytes@),
        _ => answer,
    }
}

/// What is written in several rounds, piece by piece.
pub open spec fn all_written(rounds: Seq<Round>) -> Seq<Seq<u8>>
    decreases rounds.len(),
{
    if rounds.len() == 0 {
        Seq::empty()
    } else {
        written_in(rounds[0]) + all_written(rounds.drop_first())
    }
}

/// The round ends the reading of the message in the given way.
pub open spec fn ends_with(round: Round, ending: Ending) -> bool {
    match ending {
        Ending::Open => round.taken == Some(MessageStep::ReadFrame),
        Ending::Complete(kind) => round.taken matches Some(MessageStep::Done(Ok(message)))
            && message == kind,
        Ending::Violated(violation) => match round.taken {
            None => refuses(round.read, violation),
            Some(step) => step matches MessageStep::Send {
                bytes,
                outcome: Err(Error::ProtocolViolation(reason)),
            } && reason@ == violation.text(),
        },
        Ending::Closed(data) => round.taken matches Some(
            MessageStep::Done(Err(Error::Closed { code, reason })),
        ) && code == close_code(data) && text_of(reason) == close_reason(data),
    }
}

proof fn round_is_answered(so_far: Assembly, round: Round)
    requires
        takes_place(so_far, round),
    ensures
        carries(written_in(round), due(so_far, round.reading)),
        ends_with(round, ending(so_far, round.reading)),
{
}

/// Over the reading of one whole message, whatever is found, a client writes a
/// pong for each ping that it reads, with the same payloads and in the same order,
/// and behind them nothing where the message is complete or the reading goes on,
/// exactly one close frame that reports a protocol error where it ends with a
/// violation, and exactly one close frame that repeats the server's payload where
/// it ends with the connection closed.
pub proof fn message_is_answered_in_full(so_far: Assembly, rounds: Seq<Round>)
    requires
        rounds.len() > 0,
        rounds_follow(so_far, rounds),
    ensures
        carries(
            all_written(rounds),
            pongs(readings(rounds)) + farewell(last_ending(so_far, readings(rounds))),
        ),
        ends_with(rounds.last(), last_ending(so_far, readings(rounds))),
{
    rounds_are_answered(so_far, rounds);
    pongs_and_one_farewell(so_far, readings(rounds));
}

proof fn rounds_are_answered(so_far: Assembly, rounds: Seq<Round>)
    requires
        rounds_follow(so_far, rounds),
    ensures
        one_message(so_far, readings(rounds)),
        carries(all_written(rounds), all_due(so_far, readings(rounds))),
        rounds.len() > 0 ==> ends_with(rounds.last(), last_ending(so_far, readings(rounds))),
    decreases rounds.len(),
{
    if rounds.len() > 0 {
        let rest = rounds.drop_first();
        let then = conversation::after(so_far, rounds[0].reading);
        assert(readings(rounds).drop_first() =~= readings(rest));
        assert(readings(rounds)[0] == rounds[0].reading);
        round_is_answered(so_far, rounds[0]);
        rounds_are_answered(then, rest);
        carries_both(
            written_in(rounds[0]),
            due(so_far, rounds[0].reading),
            all_written(rest),
            all_due(then, readings(rest)),
        );
        if rounds.len() > 1 {
            assert(rest.last() == rounds.last());
        }
    }
}

/// What the end of the reading of a frame comes to: a pong, or a close frame, with
/// the payload of the ping, or the close frame, that is handed on; the close frame
/// for a protocol error where a close frame breaks a rule; and any other frame at
/// once, with nothing sent.
pub proof fn frames_are_answered_by_their_kind(step: ReadStep, frame: Frame, data: Seq<u8>)
    requires
        answers(step, frame, data),
    ensures
        ({
            let number = frame.opcode.number();
            let fault = if number == 8 {
                close_violation(data)
            } else {
                None
            };
            match step {
                ReadStep::Done(read) => {
                    &&& number != 8 && number != 9
                    &&& read.frame == frame
                    &&& read.data@ == data
                },
                ReadStep::Send { bytes, outcome: Ok(read) } => {
                    &&& number == 8 || number == 9
                    &&& fault is None
                    &&& read.frame == frame
                    &&& read.data@ == data
                    &&& number == 9 ==> sends(bytes@, last(Opcode::Pong), data)
                    &&& number == 8 ==> sends(bytes@, last(Opcode::Close), data)
                },
                ReadStep::Send { bytes, outcome: Err(error) } => {
                    &&& fault matches Some(violation)
                    &&& sends(bytes@, last(Opcode::Close), seq![0x03u8, 0xEAu8])
                    &&& error matches Error::ProtocolViolation(reason)
                    &&& reason@ == violation.text()
                },
            }
        }),
{
    protocol_errors_are_number_1002(Opcode::Close);
}

/// A header that breaks a rule is answered with the close frame for a protocol
/// error, and the reading ends with what is wrong.
pub proof fn refusals_say_what_is_wrong(step: ReadStep, violation: Violation)
    requires
        refuses(step, violation),
    ensures
        step matches ReadStep::Send { bytes, outcome: Err(Error::ProtocolViolation(reason)) }
            && sends(bytes@, last(Opcode::Close), seq![0x03u8, 0xEAu8]) && reason@
            == violation.text(),
{
    protocol_errors_are_number_1002(Opcode::Close);
}

/// What each step into a frame does, in terms of the bytes: it waits where there
/// are too few of them, and takes nothing then; else it takes the two bytes of the
/// header, then the bytes that spell the length, and leaves the payload.
pub proof fn steps_take_header_and_length(progress: Progress, unread: Seq<u8>)
    requires
        progress.wf(),
    ensures
        match progress {
            Progress::Start => {
                &&& stage_of(progress, unread) is Read <==> unread.len() < 2
                &&& taken_by(progress, unread) == if unread.len() < 2 {
                    0int
                } else {
                    2int
                }
                &&& unread.len() >= 2 ==> match stage_of(progress, unread) {
                    Stage::Found(Found::Refused(violation)) => header_violation(
                        unread[0],
                        unread[1],
                    ) == Some(violation),
                    Stage::Next(Progress::Payload { frame, length }) => {
                        &&& header_violation(unread[0], unread[1]) is None
                        &&& frame.fin == (unread[0] >= 128)
                        &&& frame.opcode.number() == unread[0] % 16
                        &&& unread[1] <= 125
                        &&& length == unread[1]
                    },
                    Stage::Next(Progress::Length { frame, width }) => {
                        &&& header_violation(unread[0], unread[1]) is None
                        &&& frame.fin == (unread[0] >= 128)
                        &&& frame.opcode.number() == unread[0] % 16
                        &&& unread[1] == 126 && width == 2 || unread[1] == 127 && width == 8
                    },
                    _ => false,
                }
            },
            Progress::Length { frame, width } => {
                &&& stage_of(progress, unread) is Read <==> unread.len() < width
                &&& taken_by(progress, unread) == if unread.len() < width {
                    0int
                } else {
                    width as int
                }
                &&& unread.len() >= width ==> (stage_of(progress, unread) matches Stage::Next(
                    Progress::Payload { frame: same, length },
                ) && same == frame && (width == 2 ==> length == 256 * unread[0] + unread[1]) && (
                width == 8 ==> length == (0x100_0000_0000_0000 * unread[0] + 0x1_0000_0000_0000
                    * unread[1] + 0x100_0000_0000 * unread[2] + 0x1_0000_0000 * unread[3]
                    + 0x100_0000 * unread[4] + 0x1_0000 * unread[5] + 0x100 * unread[6]
                    + unread[7]) as usize))
            },
            Progress::Payload { frame, length } => {
                &&& taken_by(progress, unread) == 0
                &&& stage_of(progress, unread) == if unread.len() < length {
                    Stage::Read
                } else {
                    Stage::Found(Found::Ready { frame, length })
                }
            },
        },
{
    if progress is Start && unread.len() >= 2 {
        header_rules(unread[0], unread[1]);
        if unread[1] < 128 {
            lengths_are_read_from_their_places(unread);
        } else {
            let second = unread[1];
            assert(second >= 128 ==> second & 0x80 != 0) by (bit_vector);
        }
    }
    if let Progress::Length { frame, width } = progress {
        if unread.len() >= width && width == 2 {
            two_bytes_spell(unread.take(2));
        } else if unread.len() >= width {
            eight_bytes_spell(unread.take(8));
        }
    }
}

/// Taken bytes are only dropped where there are any, and where a chunk would not
/// fit behind what is stored.
pub proof fn room_is_made_where_a_chunk_does_not_fit(taken: int, len: nat, capacity: usize)
    ensures
        crowded(taken, len, capacity) <==> taken > 0 && len + 4096 > capacity,
{
}

/// What comes of a frame that was taken in: pings and pongs lead to the next frame,
/// a message is done where it is complete, a close frame ends the reading with the
/// number and the text that it carries, and what is refused is answered with the
/// close frame for a protocol error.
pub proof fn next_step_is_the_right_one(
    so_far: Assembly,
    frame: Frame,
    data: Seq<u8>,
    step: MessageStep,
)
    requires
        acceptable(frame, data),
        follows(step, turn(so_far, frame, data), data),
    ensures
        frame.opcode.number() >= 9 ==> step is ReadFrame,
        step is ReadFrame <==> turn(so_far, frame, data) is Continue,
        step matches MessageStep::Done(Ok(kind)) ==> turn(so_far, frame, data) == Turn::Complete(
            kind,
        ),
        turn(so_far, frame, data) is Complete ==> step matches MessageStep::Done(Ok(_)),
        frame.opcode.number() == 8 <==> (step matches MessageStep::Done(Err(_))),
        step matches MessageStep::Done(Err(error)) ==> {
            &&& error matches Error::Closed { code, reason }
            &&& match code {
                None => data.len() < 2,
                Some(code) => data.len() >= 2 && code.number() == 256 * data[0] + data[1],
            }
            &&& match reason {
                None => data.len() <= 2,
                Some(text) => data.len() > 2 && encode_utf8(text@) == data.skip(2),
            }
        },
        turn(so_far, frame, data) matches Turn::Refuse(violation) ==> {
            &&& step matches MessageStep::Send { bytes, outcome }
            &&& sends(bytes@, last(Opcode::Close), seq![0x03u8, 0xEAu8])
            &&& outcome matches Err(Error::ProtocolViolation(reason))
            &&& reason@ == violation.text()
        },
        step is Send ==> turn(so_far, frame, data) is Refuse,
{
    protocol_errors_are_number_1002(Opcode::Close);
    if frame.opcode is Close {
        close_frames_say_what_they_carry(data);
    }
}

/// What may be handed to the end of a reading: every frame that the rules of the
/// header let through, with a payload that is there and that the arena can take.
pub proof fn lawful_frames_can_be_read(frame: Frame, length: usize, unread: Seq<u8>)
    ensures
        lawful(frame, length as int) <==> {
            let number = frame.opcode.number();
            &&& number <= 2 || 8 <= number <= 10
            &&& number >= 8 ==> frame.fin && length <= 125
            &&& number == 8 ==> length != 1
        },
        (Found::Ready { frame, length }).fits(unread) <==> lawful(frame, length as int) && length
            <= unread.len() && length <= isize::MAX - 8192,
        (Progress::Payload { frame, length }).wf() <==> lawful(frame, length as int),
        (Progress::Length { frame, width: length }).wf() <==> frame.opcode.number() <= 2 && (length
            == 2 || length == 8),
        Progress::Start.wf(),
        fits_frame(unread) <==> unread.len() <= isize::MAX - 14,
{
}

/// The unread bytes are the stored ones from the position on.
pub proof fn unread_bytes_are_stored_behind_the_position(half: ZeroCopyReadHalf)
    requires
        half.wf(),
    ensures
        half.unread().len() == half.stored().len() - half.position(),
        forall|i: int|
            0 <= i < half.unread().len() ==> #[trigger] half.unread()[i] == half.stored()[
                half.position() + i],
{
}

} // verus!
