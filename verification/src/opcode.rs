use vstd::prelude::*;

verus! {

/// What a frame is for: the low four bits of its first byte.
#[derive(Clone, Copy, Debug, PartialEq, Eq, Structural)]
pub enum Opcode {
    Continuation,
    Text,
    Binary,
    Reserved3,
    Reserved4,
    Reserved5,
    Reserved6,
    Reserved7,
    Close,
    Ping,
    Pong,
    ReservedB,
    ReservedC,
    ReservedD,
    ReservedE,
    ReservedF,
}

impl Opcode {
    /// The number that stands for this opcode on the wire.
    pub open spec fn number(self) -> u8 {
        match self {
            Opcode::Continuation => 0x0,
            Opcode::Text => 0x1,
            Opcode::Binary => 0x2,
            Opcode::Reserved3 => 0x3,
            Opcode::Reserved4 => 0x4,
            Opcode::Reserved5 => 0x5,
            Opcode::Reserved6 => 0x6,
            Opcode::Reserved7 => 0x7,
            Opcode::Close => 0x8,
            Opcode::Ping => 0x9,
            Opcode::Pong => 0xA,
            Opcode::ReservedB => 0xB,
            Opcode::ReservedC => 0xC,
            Opcode::ReservedD => 0xD,
            Opcode::ReservedE => 0xE,
            Opcode::ReservedF => 0xF,
        }
    }

    /// The opcode with the given number, of which the low four bits count.
    pub open spec fn of(number: u8) -> Opcode {
        match number % 16 {
            0x0 => Opcode::Continuation,
            0x1 => Opcode::Text,
            0x2 => Opcode::Binary,
            0x3 => Opcode::Reserved3,
            0x4 => Opcode::Reserved4,
            0x5 => Opcode::Reserved5,
            0x6 => Opcode::Reserved6,
            0x7 => Opcode::Reserved7,
            0x8 => Opcode::Close,
            0x9 => Opcode::Ping,
            0xA => Opcode::Pong,
            0xB => Opcode::ReservedB,
            0xC => Opcode::ReservedC,
            0xD => Opcode::ReservedD,
            0xE => Opcode::ReservedE,
            _ => Opcode::ReservedF,
        }
    }

    /// Close, ping and pong frames steer the connection and carry no message.
    pub open spec fn spec_is_control(self) -> bool {
        self is Close || self is Ping || self is Pong
    }

    /// Text and binary frames open a message, continuation frames go on with it.
    pub open spec fn spec_is_data(self) -> bool {
        self is Text || self is Binary || self is Continuation
    }

    /// The opcodes that the protocol keeps for later use.
    pub open spec fn spec_is_reserved(self) -> bool {
        !self.spec_is_control() && !self.spec_is_data()
    }

    /// The opcode in the low four bits of the first byte of a frame.
    pub fn from_byte(byte: u8) -> (opcode: Opcode)
        ensures
            opcode == Opcode::of(byte),
    {
        let low = byte & 0x0F;
        assert(low == byte % 16) by (bit_vector)
            requires
                low == byte & 0x0F,
        ;
        match low {
            0x0 => Opcode::Continuation,
            0x1 => Opcode::Text,
            0x2 => Opcode::Binary,
            0x3 => Opcode::Reserved3,
            0x4 => Opcode::Reserved4,
            0x5 => Opcode::Reserved5,
            0x6 => Opcode::Reserved6,
            0x7 => Opcode::Reserved7,
            0x8 => Opcode::Close,
            0x9 => Opcode::Ping,
            0xA => Opcode::Pong,
            0xB => Opcode::ReservedB,
            0xC => Opcode::ReservedC,
            0xD => Opcode::ReservedD,
            0xE => Opcode::ReservedE,
            _ => Opcode::ReservedF,
        }
    }

    /// The number that stands for this opcode on the wire.
    pub fn as_u8(self) -> (number: u8)
        ensures
            number == self.number(),
            number < 16,
    {
        match self {
            Opcode::Continuation => 0x0,
            Opcode::Text => 0x1,
            Opcode::Binary => 0x2,
            Opcode::Reserved3 => 0x3,
            Opcode::Reserved4 => 0x4,
            Opcode::Reserved5 => 0x5,
            Opcode::Reserved6 => 0x6,
            Opcode::Reserved7 => 0x7,
            Opcode::Close => 0x8,
            Opcode::Ping => 0x9,
            Opcode::Pong => 0xA,
            Opcode::ReservedB => 0xB,
            Opcode::ReservedC => 0xC,
            Opcode::ReservedD => 0xD,
            Opcode::ReservedE => 0xE,
            Opcode::ReservedF => 0xF,
        }
    }

    /// Whether this is one of the opcodes that the protocol keeps for later use.
    pub fn is_reserved(self) -> (reserved: bool)
        ensures
            reserved == self.spec_is_reserved(),
    {
        match self {
            Opcode::Continuation
            | Opcode::Text
            | Opcode::Binary
            | Opcode::Close
            | Opcode::Ping
            | Opcode::Pong => false,
            _ => true,
        }
    }

    /// Whether this is a close, ping or pong frame.
    pub fn is_control(self) -> (control: bool)
        ensures
            control == self.spec_is_control(),
    {
        match self {
            Opcode::Close | Opcode::Ping | Opcode::Pong => true,
            _ => false,
        }
    }
}

/// Opcodes and numbers of four bits belong together one to one.
pub proof fn opcode_numbers_are_one_to_one(opcode: Opcode, byte: u8)
    ensures
        opcode.number() < 16,
        Opcode::of(opcode.number()) == opcode,
        Opcode::of(byte).number() == byte % 16,
{
}

/// Which number stands for which opcode, and which of them are control frames,
/// carry data or are reserved.
pub proof fn opcodes_have_their_numbers(opcode: Opcode)
    ensures
        opcode is Continuation <==> opcode.number() == 0,
        opcode is Text <==> opcode.number() == 1,
        opcode is Binary <==> opcode.number() == 2,
        opcode is Close <==> opcode.number() == 8,
        opcode is Ping <==> opcode.number() == 9,
        opcode is Pong <==> opcode.number() == 10,
        opcode.spec_is_data() <==> opcode.number() <= 2,
        opcode.spec_is_control() <==> 8 <= opcode.number() <= 10,
        opcode.spec_is_reserved() <==> 3 <= opcode.number() <= 7 || 11 <= opcode.number() <= 15,
{
}

} // verus!
