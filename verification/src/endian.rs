//! Numbers in network byte order, the most significant byte first.

use vstd::prelude::*;

verus! {

/// The number that `bytes` spell out.
pub open spec fn number_of(bytes: Seq<u8>) -> nat
    decreases bytes.len(),
{
    if bytes.len() == 0 {
        0
    } else {
        256 * number_of(bytes.drop_last()) + bytes.last() as nat
    }
}

/// The last `width` bytes of the spelling of `number`.
pub open spec fn spelled(number: nat, width: nat) -> Seq<u8>
    decreases width,
{
    if width == 0 {
        Seq::empty()
    } else {
        spelled(number / 256, (width - 1) as nat).push((number % 256) as u8)
    }
}

/// How many numbers `width` bytes can spell.
pub open spec fn span(width: nat) -> nat
    decreases width,
{
    if width == 0 {
        1
    } else {
        256 * span((width - 1) as nat)
    }
}

pub(crate) proof fn spelled_has_width(number: nat, width: nat)
    ensures
        spelled(number, width).len() == width,
    decreases width,
{
    if width > 0 {
        spelled_has_width(number / 256, (width - 1) as nat);
    }
}

/// A number that fits the width is read back from its spelling.
pub proof fn spelled_number_reads_back(number: nat, width: nat)
    requires
        number < span(width),
    ensures
        number_of(spelled(number, width)) == number,
    decreases width,
{
    if width > 0 {
        spelled_number_reads_back(number / 256, (width - 1) as nat);
        assert(spelled(number, width).drop_last() =~= spelled(number / 256, (width - 1) as nat));
    }
}

/// Bytes are the spelling of the number they spell out.
pub proof fn read_number_spells_back(bytes: Seq<u8>)
    ensures
        spelled(number_of(bytes), bytes.len()) == bytes,
        number_of(bytes) < span(bytes.len()),
    decreases bytes.len(),
{
    if bytes.len() > 0 {
        read_number_spells_back(bytes.drop_last());
        let high = number_of(bytes.drop_last());
        let low = bytes.last() as nat;
        assert((256 * high + low) / 256 == high);
        assert((256 * high + low) % 256 == low);
        assert(bytes.drop_last().push(bytes.last()) =~= bytes);
    }
}

pub(crate) proof fn spans()
    ensures
        span(1) == 0x100,
        span(2) == 0x1_0000,
        span(8) == 0x1_0000_0000_0000_0000,
{
    reveal_with_fuel(span, 9);
}

pub(crate) proof fn span_grows(narrow: nat, wide: nat)
    requires
        narrow <= wide,
    ensures
        span(narrow) <= span(wide),
    decreases wide,
{
    if narrow < wide {
        span_grows(narrow, (wide - 1) as nat);
    }
}

/// The number that `bytes` spell out.
pub fn read_number(bytes: &[u8]) -> (number: u64)
    requires
        bytes@.len() <= 8,
    ensures
        number == number_of(bytes@),
{
    let mut number: u64 = 0;
    let mut i: usize = 0;
    while i < bytes.len()
        invariant
            i <= bytes@.len() <= 8,
            number == number_of(bytes@.take(i as int)),
        decreases bytes@.len() - i,
    {
        proof {
            let next = bytes@.take(i + 1);
            assert(next.drop_last() =~= bytes@.take(i as int));
            read_number_spells_back(next);
            span_grows((i + 1) as nat, 8);
            spans();
        }
        number = number * 256 + bytes[i] as u64;
        i = i + 1;
    }
    assert(bytes@.take(i as int) =~= bytes@);
    number
}

/// Writes the spelling of `number` over `dst[at..at + width]`.
pub fn write_number(dst: &mut [u8], at: usize, width: usize, number: u64)
    requires
        at + width <= old(dst)@.len(),
    ensures
        final(dst)@ == old(dst)@.take(at as int) + spelled(number as nat, width as nat)
            + old(dst)@.skip(at + width),
{
    let ghost before = dst@;
    let total: usize = dst.len();
    let mut left: usize = width;
    let mut rest: u64 = number;
    proof {
        assert(spelled(rest as nat, left as nat) + Seq::<u8>::empty() =~= spelled(
            number as nat,
            width as nat,
        ));
        assert(dst@.subrange(at + left, at + width) =~= Seq::<u8>::empty());
    }
    while left > 0
        invariant
            left <= width,
            at + width <= total,
            total == before.len(),
            dst@.len() == before.len(),
            dst@.take(at as int) == before.take(at as int),
            dst@.skip(at + width) == before.skip(at + width),
            spelled(rest as nat, left as nat) + dst@.subrange(at + left, at + width) == spelled(
                number as nat,
                width as nat,
            ),
        decreases left,
    {
        let ghost done = dst@.subrange(at + left, at + width);
        let ghost high = spelled((rest / 256) as nat, (left - 1) as nat);
        let ghost low = (rest % 256) as u8;
        let ghost current = dst@;
        left = left - 1;
        dst[at + left] = (rest % 256) as u8;
        rest = rest / 256;
        proof {
            assert(dst@ == current.update(at + left, low));
            assert(dst@.subrange(at + left, at + width) =~= seq![low] + done);
            assert(high.push(low) + done =~= high + (seq![low] + done));
            assert(dst@.take(at as int) =~= current.take(at as int));
            assert(dst@.skip(at + width) =~= current.skip(at + width));
        }
    }
    proof {
        spelled_has_width(number as nat, width as nat);
        assert(spelled(rest as nat, 0) =~= Seq::<u8>::empty());
        assert(dst@ =~= dst@.take(at as int) + dst@.subrange(at as int, at + width) + dst@.skip(
            at + width,
        ));
        assert(spelled(rest as nat, 0) + dst@.subrange(at as int, at + width) =~= dst@.subrange(
            at as int,
            at + width,
        ));
    }
}

/// Every byte behind the others counts 256 times less than the one before it.
pub proof fn bytes_count_by_their_place(bytes: Seq<u8>, byte: u8)
    ensures
        number_of(Seq::<u8>::empty()) == 0,
        number_of(bytes.push(byte)) == 256 * number_of(bytes) + byte,
{
    assert(bytes.push(byte).drop_last() =~= bytes);
}

/// What two bytes spell.
pub proof fn two_bytes_spell(bytes: Seq<u8>)
    requires
        bytes.len() == 2,
    ensures
        number_of(bytes) == 256 * bytes[0] + bytes[1],
{
    let empty = Seq::<u8>::empty();
    bytes_count_by_their_place(empty, bytes[0]);
    bytes_count_by_their_place(empty.push(bytes[0]), bytes[1]);
    assert(empty.push(bytes[0]).push(bytes[1]) =~= bytes);
}

/// What eight bytes spell.
pub proof fn eight_bytes_spell(bytes: Seq<u8>)
    requires
        bytes.len() == 8,
    ensures
        number_of(bytes) == 0x100_0000_0000_0000 * bytes[0] + 0x1_0000_0000_0000 * bytes[1]
            + 0x100_0000_0000 * bytes[2] + 0x1_0000_0000 * bytes[3] + 0x100_0000 * bytes[4]
            + 0x1_0000 * bytes[5] + 0x100 * bytes[6] + bytes[7],
{
    reveal_with_fuel(number_of, 9);
    assert(bytes.drop_last().drop_last().drop_last().drop_last().drop_last().drop_last()
        .drop_last().drop_last().len() == 0);
}

/// The last byte of a spelling is what is left of the number when it is divided by
/// 256, and the bytes before it spell how often 256 goes into it.
pub proof fn spellings_go_byte_by_byte(number: nat, width: nat)
    requires
        width > 0,
    ensures
        spelled(number, 0).len() == 0,
        spelled(number, width).len() == width,
        spelled(number, width).last() == number % 256,
        spelled(number, width).drop_last() == spelled(number / 256, (width - 1) as nat),
{
    spelled_has_width(number, width);
    assert(spelled(number, width).drop_last() =~= spelled(number / 256, (width - 1) as nat));
}

} // verus!
