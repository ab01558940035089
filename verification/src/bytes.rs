//! Little-endian numbers in byte sequences.

use vstd::arithmetic::div_mod::lemma_div_denominator;
use vstd::arithmetic::power::{lemma_pow0, lemma_pow1, lemma_pow_adds, lemma_pow_positive, pow};
use vstd::prelude::*;

verus! {

/// The number of values that `width` bytes can hold.
pub open spec fn byte_range(width: nat) -> nat
    decreases width,
{
    if width == 0 {
        1
    } else {
        256 * byte_range((width - 1) as nat)
    }
}

/// `value` in `width` bytes, low byte first.
pub open spec fn le_bytes(value: nat, width: nat) -> Seq<u8>
    decreases width,
{
    if width == 0 {
        Seq::empty()
    } else {
        seq![(value % 256) as u8] + le_bytes(value / 256, (width - 1) as nat)
    }
}

/// The number that a row of bytes denotes, low byte first.
pub open spec fn le_value(bytes: Seq<u8>) -> nat
    decreases bytes.len(),
{
    if bytes.len() == 0 {
        0
    } else {
        bytes[0] as nat + 256 * le_value(bytes.drop_first())
    }
}

/// A row of bytes written in `width` bytes has that length.
pub proof fn lemma_le_bytes_len(value: nat, width: nat)
    ensures
        le_bytes(value, width).len() == width,
    decreases width,
{
    if width > 0 {
        lemma_le_bytes_len(value / 256, (width - 1) as nat);
    }
}

/// A row of bytes denotes less than its range.
pub proof fn lemma_le_value_bound(bytes: Seq<u8>)
    ensures
        le_value(bytes) < byte_range(bytes.len()),
    decreases bytes.len(),
{
    if bytes.len() > 0 {
        lemma_le_value_bound(bytes.drop_first());
    }
}

/// Reading back what was written gives the number, if it fits.
pub proof fn le_bytes_read_back(value: nat, width: nat)
    requires
        value < byte_range(width),
    ensures
        le_value(le_bytes(value, width)) == value,
        le_bytes(value, width).len() == width,
    decreases width,
{
    lemma_le_bytes_len(value, width);
    if width > 0 {
        let rest = le_bytes(value / 256, (width - 1) as nat);
        le_bytes_read_back(value / 256, (width - 1) as nat);
        assert(le_bytes(value, width).drop_first() =~= rest);
    }
}

/// A number that does not fit is cut to its low bytes.
pub proof fn le_bytes_keep_the_low_bytes(value: nat, width: nat)
    ensures
        le_value(le_bytes(value, width)) == value % byte_range(width),
        le_bytes(value, width).len() == width,
    decreases width,
{
    lemma_le_bytes_len(value, width);
    if width > 0 {
        let rest = le_bytes(value / 256, (width - 1) as nat);
        le_bytes_keep_the_low_bytes(value / 256, (width - 1) as nat);
        lemma_byte_range_grows((width - 1) as nat, (width - 1) as nat);
        vstd::arithmetic::div_mod::lemma_mod_breakdown(
            value as int,
            256,
            byte_range((width - 1) as nat) as int,
        );
        assert(le_bytes(value, width).drop_first() =~= rest);
    }
}

/// Writing the number that a row of bytes denotes gives the same bytes.
pub proof fn le_value_writes_back(bytes: Seq<u8>)
    ensures
        le_bytes(le_value(bytes), bytes.len()) == bytes,
    decreases bytes.len(),
{
    if bytes.len() > 0 {
        le_value_writes_back(bytes.drop_first());
        let value = le_value(bytes);
        assert(value % 256 == bytes[0] as nat);
        assert(value / 256 == le_value(bytes.drop_first()));
        assert(le_bytes(value, bytes.len()) =~= seq![bytes[0]] + bytes.drop_first());
        assert(seq![bytes[0]] + bytes.drop_first() =~= bytes);
    } else {
        assert(bytes =~= Seq::<u8>::empty());
    }
}

/// The bytes of a number stand in the order of their weights: the one at a position is the
/// digit of that power of 256.
pub proof fn low_bytes_come_first(value: nat, width: nat, at: int)
    requires
        0 <= at < width,
    ensures
        le_bytes(value, width)[at] as int == (value as int / pow(256, at as nat)) % 256,
    decreases width,
{
    lemma_le_bytes_len(value, width);
    lemma_le_bytes_len(value / 256, (width - 1) as nat);
    lemma_pow_positive(256, at as nat);
    if at == 0 {
        lemma_pow0(256);
    } else {
        low_bytes_come_first(value / 256, (width - 1) as nat, at - 1);
        lemma_pow_positive(256, (at - 1) as nat);
        lemma_div_denominator(value as int, 256, pow(256, (at - 1) as nat));
        lemma_pow_adds(256, 1, (at - 1) as nat);
        lemma_pow1(256);
        assert(le_bytes(value, width)[at] == le_bytes(value / 256, (width - 1) as nat)[at - 1]);
    }
}

/// Every byte of a row counts with the power of 256 of its position, and nothing else does.
pub proof fn bytes_count_by_their_position(bytes: Seq<u8>)
    ensures
        le_value(Seq::<u8>::empty()) == 0,
        bytes.len() > 0 ==> le_value(bytes) == le_value(bytes.drop_last()) + bytes.last() * pow(
            256,
            (bytes.len() - 1) as nat,
        ),
    decreases bytes.len(),
{
    if bytes.len() == 1 {
        lemma_pow0(256);
        assert(bytes.drop_last() =~= Seq::<u8>::empty());
        assert(bytes.drop_first() =~= Seq::<u8>::empty());
        assert(bytes.last() * pow(256, 0) == bytes.last());
    } else if bytes.len() > 1 {
        let rest = bytes.drop_first();
        bytes_count_by_their_position(rest);
        let n = (bytes.len() - 1) as nat;
        lemma_pow_adds(256, 1, (n - 1) as nat);
        lemma_pow1(256);
        assert(bytes.drop_last().drop_first() =~= rest.drop_last());
        assert(bytes.last() == rest.last());
        let last = bytes.last() as int;
        let p = pow(256, (n - 1) as nat);
        assert(256 * (last * p) == last * (256 * p)) by (nonlinear_arith);
    }
}

/// The values of the usual rows, byte by byte.
pub proof fn usual_rows_are_read_low_byte_first(bytes: Seq<u8>)
    ensures
        bytes.len() == 1 ==> le_value(bytes) == bytes[0],
        bytes.len() == 2 ==> le_value(bytes) == bytes[0] + 0x100 * bytes[1],
        bytes.len() == 4 ==> le_value(bytes) == bytes[0] + 0x100 * bytes[1] + 0x1_0000 * bytes[2]
            + 0x100_0000 * bytes[3],
        bytes.len() == 8 ==> le_value(bytes) == bytes[0] + 0x100 * bytes[1] + 0x1_0000 * bytes[2]
            + 0x100_0000 * bytes[3] + 0x1_0000_0000 * bytes[4] + 0x100_0000_0000 * bytes[5]
            + 0x1_0000_0000_0000 * bytes[6] + 0x100_0000_0000_0000 * bytes[7],
{
    reveal_with_fuel(le_value, 9);
}

/// The ranges of the usual widths.
pub proof fn lemma_byte_ranges()
    ensures
        byte_range(0) == 1,
        byte_range(1) == 0x100,
        byte_range(2) == 0x1_0000,
        byte_range(4) == 0x1_0000_0000,
        byte_range(8) == 0x1_0000_0000_0000_0000,
{
    reveal_with_fuel(byte_range, 9);
}

/// A wider row holds at least as much.
pub proof fn lemma_byte_range_grows(small: nat, large: nat)
    requires
        small <= large,
    ensures
        byte_range(small) <= byte_range(large),
        byte_range(small) >= 1,
    decreases large,
{
    if small < large {
        lemma_byte_range_grows(small, (large - 1) as nat);
    } else if small > 0 {
        lemma_byte_range_grows((small - 1) as nat, (small - 1) as nat);
    }
}

/// Appends `value` in `width` bytes, low byte first.
pub fn push_le(out: &mut Vec<u8>, value: u64, width: usize)
    ensures
        final(out)@ == old(out)@ + le_bytes(value as nat, width as nat),
    decreases width,
{
    if width > 0 {
        out.push((value % 256) as u8);
        push_le(out, value / 256, width - 1);
    }
}

/// Reads `width` bytes from `start`, low byte first.
pub fn read_le(bytes: &[u8], start: usize, width: usize) -> (value: u64)
    requires
        width <= 8,
        start + width <= bytes@.len(),
    ensures
        value == le_value(bytes@.subrange(start as int, start + width)),
    decreases width,
{
    let length: usize = bytes.len();
    if width == 0 {
        0
    } else {
        assert(start < length);
        let rest: u64 = read_le(bytes, start + 1, width - 1);
        let ghost row = bytes@.subrange(start as int, start + width);
        proof {
            assert(row.drop_first() =~= bytes@.subrange(start + 1, start + width));
            lemma_le_value_bound(row);
            lemma_byte_range_grows(width as nat, 8);
            lemma_byte_ranges();
        }
        bytes[start] as u64 + 256 * rest
    }
}

/// Casts to a narrower or another type keep the low bits: an unsigned one is the remainder,
/// and a signed one counts the upper half of its range as negative.
pub proof fn casts_keep_the_low_bits(x: u64, n: i64)
    ensures
        x as u8 == x % 0x100,
        x as u16 == x % 0x1_0000,
        x as u32 == x % 0x1_0000_0000,
        x as u8 as i8 as int == if x % 0x100 < 0x80 {
            (x % 0x100) as int
        } else {
            x % 0x100 - 0x100
        },
        x as u16 as i16 as int == if x % 0x1_0000 < 0x8000 {
            (x % 0x1_0000) as int
        } else {
            x % 0x1_0000 - 0x1_0000
        },
        x as u32 as i32 as int == if x % 0x1_0000_0000 < 0x8000_0000 {
            (x % 0x1_0000_0000) as int
        } else {
            x % 0x1_0000_0000 - 0x1_0000_0000
        },
        x as i64 as int == if x < 0x8000_0000_0000_0000 {
            x as int
        } else {
            x - 0x1_0000_0000_0000_0000
        },
        n as u64 as int == n as int % 0x1_0000_0000_0000_0000,
        n as u32 as int == n as int % 0x1_0000_0000,
{
    assert(x as u8 == x % 0x100 && x as u16 == x % 0x1_0000 && x as u32 == x % 0x1_0000_0000)
        by (bit_vector);
    assert(x as u8 as i8 == if x % 0x100 < 0x80 {
        (x % 0x100) as int
    } else {
        x % 0x100 - 0x100
    }) by (bit_vector);
    assert(x as u16 as i16 == if x % 0x1_0000 < 0x8000 {
        (x % 0x1_0000) as int
    } else {
        x % 0x1_0000 - 0x1_0000
    }) by (bit_vector);
    assert(x as u32 as i32 == if x % 0x1_0000_0000 < 0x8000_0000 {
        (x % 0x1_0000_0000) as int
    } else {
        x % 0x1_0000_0000 - 0x1_0000_0000
    }) by (bit_vector);
    assert(x as i64 == if x < 0x8000_0000_0000_0000 {
        x as int
    } else {
        x - 0x1_0000_0000_0000_0000int
    }) by (bit_vector);
    assert(n as u64 == if n >= 0 {
        n as int
    } else {
        n + 0x1_0000_0000_0000_0000int
    }) by (bit_vector);
    assert(n as u32 == (n as u64) % 0x1_0000_0000) by (bit_vector);
}

} // verus!
