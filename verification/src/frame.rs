use vstd::prelude::*;
use vstd::utf8::{decode_utf8, encode_utf8, encode_utf8_decode_utf8, valid_utf8};

use crate::endian::{
    eight_bytes_spell, number_of, spans, spelled, spelled_has_width, spelled_number_reads_back, two_bytes_spell,
    write_number,
};
use crate::opcode::Opcode;

verus! {

const MASK_BIT: u8 = 0x80;

/// The kind of a message.
#[derive(Clone, Copy, Debug, PartialEq, Eq, Structural)]
pub enum Message {
    Binary,
    Text,
}

impl Message {
    /// Whether this is a binary message.
    #[must_use]
    pub fn is_binary(self) -> (binary: bool)
        ensures
            binary == (self is Binary),
    {
        matches!(self, Self::Binary)
    }

    /// Whether this is a text message.
    #[must_use]
    pub fn is_text(self) -> (text: bool)
        ensures
            text == (self is Text),
    {
        matches!(self, Self::Text)
    }
}

/// What the first byte of a frame says. The payload is kept apart from it.
#[derive(Clone, Copy, Debug, PartialEq, Eq, Structural)]
pub struct Frame {
    /// Whether this frame is the last one of its message.
    pub fin: bool,
    pub opcode: Opcode,
}

/// `data` under the masking key: each byte combined with the byte of the key
/// whose turn it is.
pub open spec fn masked(data: Seq<u8>, mask: Seq<u8>) -> Seq<u8> {
    Seq::new(data.len(), |i: int| data[i] ^ mask[i % 4])
}

/// The first byte of a frame: the top bit says whether the frame is final, the
/// low four bits are the opcode.
pub open spec fn first_byte(frame: Frame) -> u8 {
    if frame.fin {
        (128 + frame.opcode.number()) as u8
    } else {
        frame.opcode.number()
    }
}

/// The length of a masked payload as the header gives it: in seven bits, or,
/// behind 126, in two bytes, or, behind 127, in eight.
pub open spec fn length_field(len: nat) -> Seq<u8> {
    if len < 126 {
        seq![(128 + len) as u8]
    } else if len < 65536 {
        seq![(128 + 126) as u8] + spelled(len, 2)
    } else {
        seq![(128 + 127) as u8] + spelled(len, 8)
    }
}

/// The frame as a client puts it on the wire.
pub open spec fn encoded(frame: Frame, data: Seq<u8>, mask: Seq<u8>) -> Seq<u8> {
    seq![first_byte(frame)] + length_field(data.len()) + mask + masked(data, mask)
}

/// A control frame as a client puts it on the wire. The length is put into the
/// seven bits behind the mask bit as it is: a payload of more than 125 bytes,
/// which no control frame may have, garbles the byte.
pub open spec fn encoded_control(frame: Frame, data: Seq<u8>, mask: Seq<u8>) -> Seq<u8> {
    seq![first_byte(frame), 0x80u8 | (data.len() as u8)] + mask + masked(data, mask)
}

impl Frame {
    /// What a control frame puts in front of its payload: 2 bytes of header and
    /// 4 of masking key.
    pub const CONTROL_HEADER_LEN: usize = 6;

    /// The most that a frame puts in front of its payload: 2 bytes of header, 8
    /// of length and 4 of masking key.
    pub const MAX_HEADER_LEN: usize = 14;

    /// The first byte of this frame.
    fn head(self) -> (byte: u8)
        ensures
            byte == first_byte(self),
    {
        let number = self.opcode.as_u8();
        let top: u8 = if self.fin {
            1
        } else {
            0
        };
        let byte = (top << 7) | number;
        assert(number < 16 ==> (1u8 << 7) | number == 128 + number && (0u8 << 7) | number == number)
            by (bit_vector);
        byte
    }

    /// Turns a payload at the start of `data` into a control frame that fills
    /// `data`. The last six bytes are room for the header; what they held is
    /// lost.
    pub fn encode_control_slice(self, data: &mut [u8], mask: [u8; 4])
        requires
            old(data)@.len() >= 6,
        ensures
            final(data)@ == encoded_control(self, old(data)@.take(old(data)@.len() - 6), mask@),
    {
        let ghost payload = data@.take(data@.len() - 6);
        let data_len: usize = data.len() - Self::CONTROL_HEADER_LEN;
        mask_data(data, Self::CONTROL_HEADER_LEN, mask);
        assert(data@.skip(6) =~= masked(payload, mask@));
        data[0] = self.head();
        data[1] = MASK_BIT | (data_len as u8);
        put_mask(data, 2, mask);
        assert(data@ =~= encoded_control(self, payload, mask@));
    }

    /// Turns the payload in `data` into a frame.
    pub fn encode_vec(self, data: &mut Vec<u8>, mask: [u8; 4])
        requires
            old(data)@.len() + 14 <= isize::MAX,
        ensures
            final(data)@ == encoded(self, old(data)@, mask@),
    {
        let ghost payload = data@;
        let data_len: usize = data.len();
        let header_len: usize = if data_len < 126 {
            6
        } else if data_len < 65536 {
            8
        } else {
            14
        };
        data.resize(data_len + header_len, 0);
        let ghost grown = data@;
        assert(grown.take(data_len as int) =~= payload);
        let dst = data.as_mut_slice();
        mask_data(dst, header_len, mask);
        assert(dst@.skip(header_len as int) =~= masked(payload, mask@));
        dst[0] = self.head();
        if header_len == 6 {
            dst[1] = MASK_BIT | (data_len as u8);
            put_mask(dst, 2, mask);
            assert(data_len < 126 ==> 0x80u8 | (data_len as u8) == 128 + data_len) by (bit_vector);
            assert(dst@ =~= encoded(self, payload, mask@));
        } else if header_len == 8 {
            dst[1] = MASK_BIT | 126;
            assert(0x80u8 | 126 == 254) by (bit_vector);
            write_number(dst, 2, 2, data_len as u64);
            put_mask(dst, 4, mask);
            proof {
                spelled_has_width(data_len as nat, 2);
            }
            assert(dst@ =~= encoded(self, payload, mask@));
        } else {
            dst[1] = MASK_BIT | 127;
            assert(0x80u8 | 127 == 255) by (bit_vector);
            write_number(dst, 2, 8, data_len as u64);
            put_mask(dst, 10, mask);
            proof {
                spelled_has_width(data_len as nat, 8);
            }
            assert(dst@ =~= encoded(self, payload, mask@));
        }
    }

    /// Puts the frame with the payload `data` into `dst`, whatever `dst` held.
    pub fn encode(self, data: &[u8], dst: &mut Vec<u8>, mask: [u8; 4])
        requires
            data@.len() + 14 <= isize::MAX,
        ensures
            final(dst)@ == encoded(self, data@, mask@),
    {
        dst.clear();
        dst.extend_from_slice(data);
        assert(dst@ =~= data@);
        self.encode_vec(dst, mask);
    }

    /// Puts the control frame with the payload `data` into `dst`, whatever `dst`
    /// held.
    pub fn encode_control(self, data: &[u8], dst: &mut Vec<u8>, mask: [u8; 4])
        requires
            data@.len() + 6 <= isize::MAX,
        ensures
            final(dst)@ == encoded_control(self, data@, mask@),
    {
        dst.clear();
        dst.extend_from_slice(data);
        assert(dst@ =~= data@);
        dst.resize(data.len() + Self::CONTROL_HEADER_LEN, 0);
        assert(dst@.take(dst@.len() - 6) =~= data@);
        self.encode_control_slice(dst.as_mut_slice(), mask);
    }

    /// The text that `data` spells, where `data` is valid UTF-8.
    #[must_use]
    pub fn validate_utf8(data: &[u8]) -> (text: Option<&str>)
        ensures
            text is Some <==> valid_utf8(data@),
            text matches Some(t) ==> t@ == decode_utf8(data@) && encode_utf8(t@) == data@,
    {
        match simdutf8::basic::from_utf8(data) {
            Ok(text) => {
                proof {
                    encode_utf8_decode_utf8(text@);
                }
                Some(text)
            },
            Err(_) => None,
        }
    }
}

/// The error of [`simdutf8::basic::from_utf8`]. It carries nothing.
#[verifier::external_type_specification]
#[verifier::external_body]
pub struct ExUtf8Error(simdutf8::basic::Utf8Error);

/// [`simdutf8::basic::from_utf8`] succeeds on valid UTF-8 and on nothing else,
/// and then hands back the very bytes it was given, as text.
pub assume_specification[ simdutf8::basic::from_utf8 ](input: &[u8]) -> (text: Result<
    &str,
    simdutf8::basic::Utf8Error,
>)
    ensures
        text is Ok <==> valid_utf8(input@),
        text matches Ok(t) ==> encode_utf8(t@) == input@,
;

/// Moves the bytes of `data` up by `header_len` and masks them on the way. The
/// last `header_len` bytes are overwritten, the first ones are left as they were.
fn mask_data(data: &mut [u8], header_len: usize, mask: [u8; 4])
    requires
        header_len <= old(data)@.len(),
    ensures
        final(data)@ == old(data)@.take(header_len as int) + masked(
            old(data)@.take(old(data)@.len() - header_len),
            mask@,
        ),
{
    let ghost before = data@;
    let total: usize = data.len();
    let len: usize = total - header_len;
    let mut i: usize = len;
    while i > 0
        invariant
            total == before.len() == data@.len(),
            header_len <= total,
            len == total - header_len,
            i <= len,
            forall|k: int| 0 <= k < header_len ==> data@[k] == before[k],
            forall|k: int| 0 <= k < i ==> data@[k] == before[k],
            forall|k: int|
                header_len + i <= k < total ==> #[trigger] data@[k] == before[k - header_len]
                    ^ mask@[(k - header_len) % 4],
        decreases i,
    {
        i = i - 1;
        assert(i & 3 == i % 4) by (bit_vector);
        data[i + header_len] = data[i] ^ mask[i & 3];
    }
    assert(data@ =~= before.take(header_len as int) + masked(before.take(len as int), mask@));
}

/// Writes the masking key over `data[at..at + 4]`.
fn put_mask(data: &mut [u8], at: usize, mask: [u8; 4])
    requires
        at + 4 <= old(data)@.len(),
    ensures
        final(data)@ == old(data)@.take(at as int) + mask@ + old(data)@.skip(at + 4),
{
    let ghost before = data@;
    let total: usize = data.len();
    assert(at + 4 <= total);
    data[at] = mask[0];
    data[at + 1] = mask[1];
    data[at + 2] = mask[2];
    data[at + 3] = mask[3];
    assert(data@ =~= before.take(at as int) + mask@ + before.skip(at + 4));
}

/// Masking twice with the same key gives the payload back.
pub proof fn masking_undoes_itself(data: Seq<u8>, mask: Seq<u8>)
    ensures
        masked(masked(data, mask), mask) == data,
{
    assert forall|i: int| 0 <= i < data.len() implies masked(masked(data, mask), mask)[i]
        == data[i] by {
        let b = data[i];
        let m = mask[i % 4];
        assert((b ^ m) ^ m == b) by (bit_vector);
    }
    assert(masked(masked(data, mask), mask) =~= data);
}

/// Where the masking key of a masked frame begins: behind its length.
pub open spec fn mask_offset(bytes: Seq<u8>) -> int {
    if bytes[1] % 128 == 126 {
        4
    } else if bytes[1] % 128 == 127 {
        10
    } else {
        2
    }
}

/// The length of the payload that the header of a masked frame announces.
pub open spec fn announced_len(bytes: Seq<u8>) -> nat {
    if bytes[1] % 128 < 126 {
        (bytes[1] % 128) as nat
    } else {
        number_of(bytes.subrange(2, mask_offset(bytes)))
    }
}

proof fn short_length_reads_back(frame: Frame, data: Seq<u8>, mask: Seq<u8>)
    requires
        mask.len() == 4,
        data.len() < 126,
    ensures
        ({
            let bytes = encoded(frame, data, mask);
            &&& bytes.len() == 6 + data.len()
            &&& bytes[1] == 128 + data.len()
            &&& bytes.subrange(2, 6) == mask
            &&& bytes.skip(6) == masked(data, mask)
        }),
{
    let bytes = encoded(frame, data, mask);
    assert(bytes.subrange(2, 6) =~= mask);
    assert(bytes.skip(6) =~= masked(data, mask));
}

proof fn wide_length_reads_back(frame: Frame, data: Seq<u8>, mask: Seq<u8>, mark: u8, width: nat)
    requires
        mask.len() == 4,
        length_field(data.len()) == seq![mark] + spelled(data.len(), width),
    ensures
        ({
            let bytes = encoded(frame, data, mask);
            let at = 2 + width as int;
            &&& bytes.len() == at + 4 + data.len()
            &&& bytes[1] == mark
            &&& bytes.subrange(2, at) == spelled(data.len(), width)
            &&& bytes.subrange(at, at + 4) == mask
            &&& bytes.skip(at + 4) == masked(data, mask)
        }),
{
    spelled_has_width(data.len(), width);
    let bytes = encoded(frame, data, mask);
    let at = 2 + width as int;
    assert(bytes.subrange(2, at) =~= spelled(data.len(), width));
    assert(bytes.subrange(at, at + 4) =~= mask);
    assert(bytes.skip(at + 4) =~= masked(data, mask));
}

/// Whoever receives a frame that a client sent can read everything back: that
/// it is masked, whether it is final, its opcode, the length of its payload, the
/// key, and, with the key, the payload itself.
pub proof fn encoded_frame_reads_back(frame: Frame, data: Seq<u8>, mask: Seq<u8>)
    requires
        mask.len() == 4,
        data.len() <= u64::MAX,
    ensures
        ({
            let bytes = encoded(frame, data, mask);
            let at = mask_offset(bytes);
            &&& bytes.len() == at + 4 + data.len()
            &&& bytes.len() <= data.len() + 14
            &&& frame.fin == (bytes[0] >= 128)
            &&& frame.opcode.number() == bytes[0] % 16
            &&& (bytes[0] / 16) % 8 == 0
            &&& bytes[1] >= 128
            &&& announced_len(bytes) == data.len()
            &&& bytes.subrange(at, at + 4) == mask
            &&& masked(bytes.skip(at + 4), bytes.subrange(at, at + 4)) == data
        }),
{
    masking_undoes_itself(data, mask);
    assert(encoded(frame, data, mask)[0] == first_byte(frame));
    if data.len() < 126 {
        short_length_reads_back(frame, data, mask);
    } else if data.len() < 65536 {
        wide_length_reads_back(frame, data, mask, 254, 2);
        spans();
        spelled_number_reads_back(data.len(), 2);
    } else {
        wide_length_reads_back(frame, data, mask, 255, 8);
        spans();
        spelled_number_reads_back(data.len(), 8);
    }
}

/// On a payload that a control frame may have, both encodings are the same.
pub proof fn control_encoding_is_the_encoding(frame: Frame, data: Seq<u8>, mask: Seq<u8>)
    requires
        data.len() <= 125,
    ensures
        encoded_control(frame, data, mask) == encoded(frame, data, mask),
{
    let len = data.len() as u8;
    assert(len <= 125 ==> 0x80u8 | len == 128 + len) by (bit_vector);
    assert(encoded_control(frame, data, mask) =~= encoded(frame, data, mask));
}

/// Every byte of a frame as a client puts it on the wire: whether it is final and
/// the opcode, the length with the bit that says that the payload is masked, the
/// key, and each byte of the payload combined with the byte of the key whose turn
/// it is.
pub proof fn encoded_byte_by_byte(frame: Frame, data: Seq<u8>, mask: Seq<u8>)
    requires
        mask.len() == 4,
        data.len() <= u64::MAX,
    ensures
        ({
            let bytes = encoded(frame, data, mask);
            let len = data.len();
            let at: int = if len <= 125 {
                2
            } else if len <= 0xFFFF {
                4
            } else {
                10
            };
            &&& bytes.len() == at + 4 + len
            &&& bytes[0] == frame.opcode.number() + if frame.fin {
                0x80int
            } else {
                0int
            }
            &&& len <= 125 ==> bytes[1] == 0x80 + len
            &&& 126 <= len <= 0xFFFF ==> bytes[1] == 0xFE && 256 * bytes[2] + bytes[3] == len
            &&& len > 0xFFFF ==> bytes[1] == 0xFF && 0x100_0000_0000_0000 * bytes[2]
                + 0x1_0000_0000_0000 * bytes[3] + 0x100_0000_0000 * bytes[4] + 0x1_0000_0000
                * bytes[5] + 0x100_0000 * bytes[6] + 0x1_0000 * bytes[7] + 0x100 * bytes[8]
                + bytes[9] == len
            &&& forall|k: int| 0 <= k < 4 ==> bytes[at + k] == #[trigger] mask[k]
            &&& forall|i: int|
                0 <= i < len ==> bytes[at + 4 + i] == (#[trigger] data[i]) ^ mask[i % 4]
        }),
{
    let bytes = encoded(frame, data, mask);
    let len = data.len();
    assert(bytes[0] == first_byte(frame));
    let at: int = if len <= 125 {
        2
    } else if len <= 0xFFFF {
        4
    } else {
        10
    };
    if len <= 125 {
        short_length_reads_back(frame, data, mask);
    } else if len <= 0xFFFF {
        wide_length_reads_back(frame, data, mask, 254, 2);
        spans();
        spelled_number_reads_back(len, 2);
        two_bytes_spell(bytes.subrange(2, 4));
    } else {
        wide_length_reads_back(frame, data, mask, 255, 8);
        spans();
        spelled_number_reads_back(len, 8);
        eight_bytes_spell(bytes.subrange(2, 10));
    }
    assert forall|k: int| 0 <= k < 4 implies bytes[at + k] == #[trigger] mask[k] by {
        assert(bytes.subrange(at, at + 4)[k] == mask[k]);
    }
    assert forall|i: int| 0 <= i < len implies bytes[at + 4 + i] == (#[trigger] data[i]) ^ mask[i
        % 4] by {
        assert(bytes.skip(at + 4)[i] == masked(data, mask)[i]);
    }
}

/// Every byte of a control frame: two bytes of header, the key, and each byte of
/// the payload combined with the byte of the key whose turn it is.
pub proof fn encoded_control_byte_by_byte(frame: Frame, data: Seq<u8>, mask: Seq<u8>)
    requires
        mask.len() == 4,
    ensures
        ({
            let bytes = encoded_control(frame, data, mask);
            &&& bytes.len() == 6 + data.len()
            &&& bytes[0] == frame.opcode.number() + if frame.fin {
                0x80int
            } else {
                0int
            }
            &&& bytes[1] == 0x80u8 | (data.len() as u8)
            &&& forall|k: int| 0 <= k < 4 ==> bytes[2 + k] == #[trigger] mask[k]
            &&& forall|i: int|
                0 <= i < data.len() ==> bytes[6 + i] == (#[trigger] data[i]) ^ mask[i % 4]
        }),
{
}

} // verus!
