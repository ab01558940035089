//! Reading trace bundles: a magic number, then length-prefixed protobuf events.

use crate::bytes::casts_keep_the_low_bits;
use crate::text::{numeral, push_numeral, utf8_error_text, utf8_text};
use vstd::arithmetic::power::pow;
use vstd::prelude::*;
use vstd::string::*;
use vstd::utf8::{decode_utf8, valid_utf8};

verus! {

/// A power of 128.
pub open spec fn power_of_128(count: nat) -> nat
    decreases count,
{
    if count == 0 {
        1
    } else {
        128 * power_of_128((count - 1) as nat)
    }
}

/// The number that a row of seven-bit groups denotes, low group first. The top bit of
/// each byte does not count.
pub open spec fn groups_value(bytes: Seq<u8>) -> nat
    decreases bytes.len(),
{
    if bytes.len() == 0 {
        0
    } else {
        groups_value(bytes.drop_last()) + power_of_128((bytes.len() - 1) as nat) * (bytes.last()
            as nat % 128)
    }
}

/// Where a variable-length number ends, given that its first `used` bytes do not end
/// it. It has ten bytes at most.
pub open spec fn varint_end(data: Seq<u8>, pos: int, used: nat) -> Result<int, Seq<char>>
    decreases 10 - used,
{
    if used >= 10 {
        Err("varint is too long"@)
    } else if pos + used >= data.len() {
        Err("truncated varint"@)
    } else if data[pos + used] < 128 {
        Ok(pos + used + 1)
    } else {
        varint_end(data, pos, used + 1)
    }
}

/// The variable-length number at a position, cut to sixty-four bits, and where it ends.
pub open spec fn varint_at(data: Seq<u8>, pos: int) -> Result<(u64, int), Seq<char>> {
    match varint_end(data, pos, 0) {
        Ok(end) => Ok(
            (
                (groups_value(data.subrange(pos, end)) % 0x1_0000_0000_0000_0000) as u64,
                end,
            ),
        ),
        Err(error) => Err(error),
    }
}

/// A number ends behind its start and within the data.
pub proof fn lemma_varint_end(data: Seq<u8>, pos: int, used: nat)
    requires
        0 <= pos <= data.len(),
        used <= 10,
    ensures
        varint_end(data, pos, used) matches Ok(end) ==> pos + used < end <= data.len() && end
            <= pos + 10,
    decreases 10 - used,
{
    if used < 10 && pos + used < data.len() && data[pos + used] >= 128 {
        lemma_varint_end(data, pos, used + 1);
    }
}

/// The bytes that encode a number, low group first.
pub open spec fn varint_bytes(value: nat) -> Seq<u8>
    decreases value,
{
    if value < 128 {
        seq![value as u8]
    } else {
        seq![(value % 128 + 128) as u8] + varint_bytes(value / 128)
    }
}

proof fn lemma_single_group(first: u8)
    ensures
        groups_value(seq![first]) == first as nat % 128,
{
    reveal_with_fuel(groups_value, 2);
    let row = seq![first];
    let p = power_of_128(0);
    let low = first as nat % 128;
    assert(row.drop_last() =~= Seq::<u8>::empty());
    assert(p * low == low) by (nonlinear_arith)
        requires
            p == 1,
    ;
}

proof fn lemma_groups_front(first: u8, rest: Seq<u8>)
    ensures
        groups_value(seq![first] + rest) == (first as nat % 128) + 128 * groups_value(rest),
    decreases rest.len(),
{
    let all = seq![first] + rest;
    if rest.len() == 0 {
        lemma_single_group(first);
        assert(all =~= seq![first]);
    } else {
        assert(all.drop_last() =~= seq![first] + rest.drop_last());
        lemma_groups_front(first, rest.drop_last());
        let low = rest.last() as nat % 128;
        let p = power_of_128((rest.len() - 1) as nat);
        let q = power_of_128(rest.len());
        assert(all.last() == rest.last());
        assert(q * low == 128 * (p * low)) by (nonlinear_arith)
            requires
                q == 128 * p,
        ;
    }
}

proof fn lemma_varint_bytes(value: nat)
    ensures
        varint_bytes(value).len() >= 1,
        groups_value(varint_bytes(value)) == value,
        varint_bytes(value).last() < 128,
        forall|i: int|
            0 <= i < varint_bytes(value).len() - 1 ==> #[trigger] varint_bytes(value)[i] >= 128,
    decreases value,
{
    if value < 128 {
        lemma_single_group(value as u8);
    } else {
        lemma_varint_bytes(value / 128);
        let first = (value % 128 + 128) as u8;
        let rest = varint_bytes(value / 128);
        lemma_groups_front(first, rest);
        assert(first as nat % 128 == value % 128);
        let all = varint_bytes(value);
        assert forall|i: int| 0 <= i < all.len() - 1 implies #[trigger] all[i] >= 128 by {
            if i > 0 {
                assert(all[i] == rest[i - 1]);
            }
        }
        assert(all.last() == rest.last());
    }
}

proof fn lemma_varint_len(value: nat, groups: nat)
    requires
        value < power_of_128(groups),
        groups >= 1,
    ensures
        varint_bytes(value).len() <= groups,
    decreases groups,
{
    if value >= 128 {
        assert(power_of_128(1) == 128 * power_of_128(0));
        assert(groups > 1);
        assert(power_of_128(groups) == 128 * power_of_128((groups - 1) as nat));
        lemma_varint_len(value / 128, (groups - 1) as nat);
    }
}

proof fn lemma_varint_end_at(data: Seq<u8>, pos: int, used: nat, length: nat)
    requires
        0 <= pos,
        used < length <= 10,
        pos + length <= data.len(),
        data[pos + length - 1] < 128,
        forall|i: int| pos <= i < pos + length - 1 ==> #[trigger] data[i] >= 128,
    ensures
        varint_end(data, pos, used) == Ok::<int, Seq<char>>(pos + length),
    decreases length - used,
{
    if used + 1 < length {
        assert(data[pos + used] >= 128);
        lemma_varint_end_at(data, pos, used + 1, length);
    }
}

/// Reading a number gives back the one that was written, whatever stands around it.
pub proof fn varint_reads_back(before: Seq<u8>, value: u64, after: Seq<u8>)
    ensures
        varint_at(before + varint_bytes(value as nat) + after, before.len() as int) == Ok::<
            (u64, int),
            Seq<char>,
        >((value, (before.len() + varint_bytes(value as nat).len()) as int)),
{
    let bytes = varint_bytes(value as nat);
    let data = before + bytes + after;
    let pos = before.len() as int;
    lemma_varint_bytes(value as nat);
    assert(power_of_128(10) > u64::MAX) by {
        reveal_with_fuel(power_of_128, 11);
    }
    lemma_varint_len(value as nat, 10);
    assert(data[pos + bytes.len() - 1] == bytes.last());
    assert forall|i: int| pos <= i < pos + bytes.len() - 1 implies #[trigger] data[i] >= 128 by {
        assert(data[i] == bytes[i - pos]);
    }
    lemma_varint_end_at(data, pos, 0, bytes.len());
    assert(data.subrange(pos, pos + bytes.len()) =~= bytes);
}

proof fn lemma_groups_bound(bytes: Seq<u8>)
    ensures
        groups_value(bytes) < power_of_128(bytes.len()),
    decreases bytes.len(),
{
    if bytes.len() > 0 {
        lemma_groups_bound(bytes.drop_last());
        let p = power_of_128((bytes.len() - 1) as nat);
        let low = bytes.last() as nat % 128;
        assert(p * low <= p * 127) by (nonlinear_arith)
            requires
                low <= 127,
        ;
    }
}

proof fn lemma_powers_fit(count: nat)
    requires
        count <= 10,
    ensures
        power_of_128(count) <= 0x40_0000_0000_0000_0000,
{
    reveal_with_fuel(power_of_128, 11);
}

/// Where reading a variable-length number leaves the cursor, also where it fails.
pub open spec fn varint_cursor(data: Seq<u8>, pos: int) -> int {
    match varint_at(data, pos) {
        Ok((_, end)) => end,
        Err(_) => if pos >= data.len() {
            pos
        } else if pos + 10 <= data.len() {
            pos + 10
        } else {
            data.len() as int
        },
    }
}

/// Reads the variable-length number at the cursor.
pub fn read_varint(cursor: &mut usize, data: &[u8]) -> (result: Result<u64, String>)
    ensures
        *final(cursor) == varint_cursor(data@, *old(cursor) as int),
        match (result, varint_at(data@, *old(cursor) as int)) {
            (Ok(value), Ok(expected)) => {
                &&& value == expected.0
                &&& *final(cursor) == expected.1
                &&& *old(cursor) < *final(cursor) <= data@.len()
            },
            (Err(message), Err(expected)) => message@ == expected,
            _ => false,
        },
{
    let start: usize = *cursor;
    let length: usize = data.len();
    if start > length {
        return Err(String::from_str("truncated varint"));
    }
    let mut value: u128 = 0;
    let mut weight: u128 = 1;
    let mut used: usize = 0;
    while used < 10
        invariant
            used <= 10,
            length == data@.len(),
            start == *old(cursor),
            start <= length,
            start + used <= length,
            *cursor == start + used,
            varint_end(data@, start as int, 0) == varint_end(data@, start as int, used as nat),
            value == groups_value(data@.subrange(start as int, start + used)),
            weight == power_of_128(used as nat),
        decreases 10 - used,
    {
        if *cursor >= length {
            return Err(String::from_str("truncated varint"));
        }
        let byte: u8 = data[*cursor];
        let ghost front = data@.subrange(start as int, start + used);
        let ghost row = data@.subrange(start as int, start + used + 1);
        proof {
            assert(row.drop_last() =~= front);
            assert(row.last() == byte);
            lemma_groups_bound(front);
            lemma_groups_bound(row);
            lemma_powers_fit(used as nat);
            lemma_powers_fit((used + 1) as nat);
            assert(weight * (byte as nat % 128) <= weight * 127) by (nonlinear_arith)
                requires
                    byte as nat % 128 <= 127,
            ;
        }
        *cursor = *cursor + 1;
        value = value + weight * ((byte % 128) as u128);
        weight = weight * 128;
        used = used + 1;
        if byte < 128 {
            return Ok((value % 0x1_0000_0000_0000_0000u128) as u64);
        }
    }
    Err(String::from_str("varint is too long"))
}

/// The length-prefixed bytes at a position, and where they end.
pub open spec fn len_at(data: Seq<u8>, pos: int) -> Result<(Seq<u8>, int), Seq<char>> {
    match varint_at(data, pos) {
        Err(error) => Err(error),
        Ok((length, start)) => if start + length > u64::MAX {
            Err("length overflow"@)
        } else if start + length > data.len() {
            Err("truncated length-delimited field"@)
        } else {
            Ok((data.subrange(start, start + length), start + length))
        },
    }
}

/// The length-prefixed text at a position, and where it ends.
pub open spec fn string_at(data: Seq<u8>, pos: int) -> Result<(Seq<char>, int), Seq<char>> {
    match len_at(data, pos) {
        Err(error) => Err(error),
        Ok((bytes, end)) => if valid_utf8(bytes) {
            Ok((decode_utf8(bytes), end))
        } else {
            Err("invalid utf-8 string: "@ + utf8_error_text(bytes))
        },
    }
}

/// Where the field at a position ends, by its wire type.
pub open spec fn skip_at(wire: u64, data: Seq<u8>, pos: int) -> Result<int, Seq<char>> {
    if wire == 0 {
        match varint_at(data, pos) {
            Ok((_, end)) => Ok(end),
            Err(error) => Err(error),
        }
    } else if wire == 1 {
        if pos + 8 > usize::MAX {
            Err("fixed64 skip overflow"@)
        } else if pos + 8 <= data.len() {
            Ok(pos + 8)
        } else {
            Err("truncated fixed64 field"@)
        }
    } else if wire == 2 {
        match len_at(data, pos) {
            Ok((_, end)) => Ok(end),
            Err(error) => Err(error),
        }
    } else if wire == 5 {
        if pos + 4 > usize::MAX {
            Err("fixed32 skip overflow"@)
        } else if pos + 4 <= data.len() {
            Ok(pos + 4)
        } else {
            Err("truncated fixed32 field"@)
        }
    } else {
        Err("unsupported protobuf wire type "@ + numeral(wire as nat, 10))
    }
}

/// Every reader ends behind its start and within the data.
pub proof fn readers_advance(data: Seq<u8>)
    ensures
        forall|pos: int|
            0 <= pos <= data.len() ==> (#[trigger] varint_at(data, pos) matches Ok(found) ==> pos
                < found.1 <= data.len()),
        forall|pos: int|
            0 <= pos <= data.len() ==> (#[trigger] len_at(data, pos) matches Ok(found) ==> pos
                < found.1 <= data.len() && found.0.len() < found.1 - pos),
        forall|pos: int|
            0 <= pos <= data.len() ==> (#[trigger] string_at(data, pos) matches Ok(found) ==> pos
                < found.1 <= data.len()),
        forall|wire: u64, pos: int|
            0 <= pos <= data.len() ==> (#[trigger] skip_at(wire, data, pos) matches Ok(end) ==> pos
                < end <= data.len()),
{
    assert forall|pos: int| 0 <= pos <= data.len() implies (#[trigger] varint_at(
        data,
        pos,
    ) matches Ok(found) ==> pos < found.1 <= data.len()) by {
        lemma_varint_end(data, pos, 0);
    }
}

/// The numbers packed in the rest of some bytes, behind those found already.
pub open spec fn packed_from(bytes: Seq<u8>, pos: int, found: Seq<u64>) -> Result<
    Seq<u64>,
    Seq<char>,
>
    decreases bytes.len() - pos,
{
    if pos < 0 || pos >= bytes.len() {
        Ok(found)
    } else {
        proof {
            readers_advance(bytes);
        }
        match varint_at(bytes, pos) {
            Err(error) => Err(error),
            Ok((value, end)) => packed_from(bytes, end, found.push(value)),
        }
    }
}

/// There are no more packed numbers than bytes.
pub proof fn packed_numbers_are_few(bytes: Seq<u8>, pos: int, found: Seq<u64>)
    requires
        0 <= pos <= bytes.len(),
    ensures
        packed_from(bytes, pos, found) matches Ok(values) ==> values.len() <= found.len()
            + bytes.len() - pos,
    decreases bytes.len() - pos,
{
    readers_advance(bytes);
    if pos < bytes.len() {
        match varint_at(bytes, pos) {
            Err(_) => {},
            Ok((value, end)) => {
                packed_numbers_are_few(bytes, end, found.push(value));
            },
        }
    }
}

/// The numbers of a repeated field at a position, alone or packed, and where it ends.
pub open spec fn repeated_at(wire: u64, data: Seq<u8>, pos: int) -> Result<
    (Seq<u64>, int),
    Seq<char>,
> {
    if wire == 0 {
        match varint_at(data, pos) {
            Ok((value, end)) => Ok((seq![value], end)),
            Err(error) => Err(error),
        }
    } else if wire == 2 {
        match len_at(data, pos) {
            Ok((bytes, end)) => match packed_from(bytes, 0, Seq::empty()) {
                Ok(values) => Ok((values, end)),
                Err(error) => Err(error),
            },
            Err(error) => Err(error),
        }
    } else {
        Err("unsupported repeated uint64 wire type "@ + numeral(wire as nat, 10))
    }
}

/// A repeated field ends behind its start and within the data, and holds no more numbers
/// than bytes.
pub proof fn repeated_advances(wire: u64, data: Seq<u8>, pos: int)
    requires
        0 <= pos <= data.len(),
    ensures
        repeated_at(wire, data, pos) matches Ok(found) ==> pos < found.1 <= data.len()
            && found.0.len() <= found.1 - pos,
{
    readers_advance(data);
    if wire == 2 {
        match len_at(data, pos) {
            Ok((bytes, end)) => {
                packed_numbers_are_few(bytes, 0, Seq::empty());
            },
            Err(_) => {},
        }
    }
}

/// Where reading length-prefixed bytes leaves the cursor, also where it fails.
pub open spec fn len_cursor(data: Seq<u8>, pos: int) -> int {
    match len_at(data, pos) {
        Ok((_, end)) => end,
        Err(_) => varint_cursor(data, pos),
    }
}

/// Reads length-prefixed bytes at the cursor.
pub fn read_len<'a>(cursor: &mut usize, data: &'a [u8]) -> (result: Result<&'a [u8], String>)
    ensures
        *final(cursor) == len_cursor(data@, *old(cursor) as int),
        match (result, len_at(data@, *old(cursor) as int)) {
            (Ok(bytes), Ok(expected)) => {
                &&& bytes@ == expected.0
                &&& *final(cursor) == expected.1
                &&& *final(cursor) <= data@.len()
            },
            (Err(message), Err(expected)) => message@ == expected,
            _ => false,
        },
{
    let length: u64 = match read_varint(cursor, data) {
        Ok(length) => length,
        Err(message) => {
            return Err(message);
        },
    };
    let start: usize = *cursor;
    match (start as u64).checked_add(length) {
        None => Err(String::from_str("length overflow")),
        Some(end) => {
            if end > data.len() as u64 {
                return Err(String::from_str("truncated length-delimited field"));
            }
            *cursor = end as usize;
            Ok(vstd::slice::slice_subrange(data, start, end as usize))
        },
    }
}

/// Reads length-prefixed text at the cursor.
pub fn read_string(cursor: &mut usize, data: &[u8]) -> (result: Result<String, String>)
    ensures
        *final(cursor) == len_cursor(data@, *old(cursor) as int),
        match (result, string_at(data@, *old(cursor) as int)) {
            (Ok(text), Ok(expected)) => {
                &&& text@ == expected.0
                &&& *final(cursor) == expected.1
                &&& *final(cursor) <= data@.len()
            },
            (Err(message), Err(expected)) => message@ == expected,
            _ => false,
        },
{
    match read_len(cursor, data) {
        Err(message) => Err(message),
        Ok(bytes) => match utf8_text(vstd::slice::slice_to_vec(bytes)) {
            Ok(text) => Ok(text),
            Err(error) => {
                let mut message: String = String::from_str("invalid utf-8 string: ");
                message.append(error.as_str());
                Err(message)
            },
        },
    }
}

/// Where passing over a field leaves the cursor, also where it fails.
pub open spec fn skip_cursor(wire: u64, data: Seq<u8>, pos: int) -> int {
    if wire == 0 {
        varint_cursor(data, pos)
    } else if wire == 1 && pos + 8 <= usize::MAX {
        pos + 8
    } else if wire == 2 {
        len_cursor(data, pos)
    } else if wire == 5 && pos + 4 <= usize::MAX {
        pos + 4
    } else {
        pos
    }
}

/// Passes over the field at the cursor.
pub fn skip_field(wire_type: u64, cursor: &mut usize, data: &[u8]) -> (result: Result<(), String>)
    ensures
        *final(cursor) == skip_cursor(wire_type, data@, *old(cursor) as int),
        match (result, skip_at(wire_type, data@, *old(cursor) as int)) {
            (Ok(_), Ok(expected)) => *final(cursor) == expected && *final(cursor) <= data@.len(),
            (Err(message), Err(expected)) => message@ == expected,
            _ => false,
        },
{
    if wire_type == 0 {
        match read_varint(cursor, data) {
            Ok(_) => Ok(()),
            Err(message) => Err(message),
        }
    } else if wire_type == 1 {
        match (*cursor).checked_add(8) {
            None => Err(String::from_str("fixed64 skip overflow")),
            Some(end) => {
                *cursor = end;
                if end <= data.len() {
                    Ok(())
                } else {
                    Err(String::from_str("truncated fixed64 field"))
                }
            },
        }
    } else if wire_type == 2 {
        match read_len(cursor, data) {
            Ok(_) => Ok(()),
            Err(message) => Err(message),
        }
    } else if wire_type == 5 {
        match (*cursor).checked_add(4) {
            None => Err(String::from_str("fixed32 skip overflow")),
            Some(end) => {
                *cursor = end;
                if end <= data.len() {
                    Ok(())
                } else {
                    Err(String::from_str("truncated fixed32 field"))
                }
            },
        }
    } else {
        let mut message: String = String::from_str("unsupported protobuf wire type ");
        push_numeral(&mut message, wire_type, 10);
        Err(message)
    }
}

/// Where reading a repeated field leaves the cursor, also where it fails.
pub open spec fn repeated_cursor(wire: u64, data: Seq<u8>, pos: int) -> int {
    if wire == 0 {
        varint_cursor(data, pos)
    } else if wire == 2 {
        len_cursor(data, pos)
    } else {
        pos
    }
}

/// Reads the numbers of a repeated field at the cursor, alone or packed.
pub fn read_repeated_u64(wire_type: u64, cursor: &mut usize, data: &[u8]) -> (result: Result<
    Vec<u64>,
    String,
>)
    ensures
        *final(cursor) == repeated_cursor(wire_type, data@, *old(cursor) as int),
        match (result, repeated_at(wire_type, data@, *old(cursor) as int)) {
            (Ok(values), Ok(expected)) => {
                &&& values@ == expected.0
                &&& *final(cursor) == expected.1
                &&& *final(cursor) <= data@.len()
            },
            (Err(message), Err(expected)) => message@ == expected,
            _ => false,
        },
{
    if wire_type == 0 {
        match read_varint(cursor, data) {
            Ok(value) => {
                let mut values: Vec<u64> = Vec::new();
                values.push(value);
                assert(values@ =~= seq![value]);
                Ok(values)
            },
            Err(message) => Err(message),
        }
    } else if wire_type == 2 {
        let bytes: &[u8] = match read_len(cursor, data) {
            Ok(bytes) => bytes,
            Err(message) => {
                return Err(message);
            },
        };
        let mut inner: usize = 0;
        let mut values: Vec<u64> = Vec::new();
        while inner < bytes.len()
            invariant
                inner <= bytes@.len(),
                wire_type == 2,
                *cursor <= data@.len(),
                len_at(data@, *old(cursor) as int) == Ok::<(Seq<u8>, int), Seq<char>>(
                    (bytes@, *cursor as int),
                ),
                packed_from(bytes@, 0, Seq::empty()) == packed_from(
                    bytes@,
                    inner as int,
                    values@,
                ),
            decreases bytes@.len() - inner,
        {
            match read_varint(&mut inner, bytes) {
                Ok(value) => {
                    values.push(value);
                },
                Err(message) => {
                    return Err(message);
                },
            }
        }
        Ok(values)
    } else {
        let mut message: String = String::from_str("unsupported repeated uint64 wire type ");
        push_numeral(&mut message, wire_type, 10);
        Err(message)
    }
}

/// A memory access of an instruction.
#[derive(Clone, Copy, Debug, PartialEq, Eq, Structural)]
pub struct MemAccess {
    pub inst_addr: u64,
    pub access_addr: u64,
    pub value: u64,
    pub size: u32,
}

/// An empty message.
pub open spec fn empty_mem_access() -> MemAccess {
    MemAccess {
        inst_addr: 0,
        access_addr: 0,
        value: 0,
        size: 0,
    }
}

/// The message in the rest of some bytes, on top of what was read already. The last
/// value of a field counts; unknown fields are passed over.
pub open spec fn mem_access_from(data: Seq<u8>, pos: int, message: MemAccess) -> Result<
    MemAccess,
    Seq<char>,
>
    decreases data.len() - pos,
{
    if pos < 0 || pos >= data.len() {
        Ok(message)
    } else {
        proof {
            readers_advance(data);
        }
        match varint_at(data, pos) {
            Err(error) => Err(error),
            Ok((key, start)) => {
                let field = key / 8;
                let wire = key % 8;
                if field == 1 && wire == 0 {
                    match varint_at(data, start) {
                        Ok((value, end)) => mem_access_from(
                            data,
                            end,
                            MemAccess { inst_addr: value, ..message },
                        ),
                        Err(error) => Err(error),
                    }
                } else if field == 2 && wire == 0 {
                    match varint_at(data, start) {
                        Ok((value, end)) => mem_access_from(
                            data,
                            end,
                            MemAccess { access_addr: value, ..message },
                        ),
                        Err(error) => Err(error),
                    }
                } else if field == 3 && wire == 0 {
                    match varint_at(data, start) {
                        Ok((value, end)) => mem_access_from(
                            data,
                            end,
                            MemAccess { value, ..message },
                        ),
                        Err(error) => Err(error),
                    }
                } else if field == 4 && wire == 0 {
                    match varint_at(data, start) {
                        Ok((value, end)) => mem_access_from(
                            data,
                            end,
                            MemAccess { size: value as u32, ..message },
                        ),
                        Err(error) => Err(error),
                    }
                } else {
                    match skip_at(wire, data, start) {
                        Ok(end) => mem_access_from(data, end, message),
                        Err(error) => Err(error),
                    }
                }
            },
        }
    }
}

/// Reads the message.
pub fn parse_mem_access(data: &[u8]) -> (result: Result<MemAccess, String>)
    ensures
        match (result, mem_access_from(data@, 0, empty_mem_access())) {
            (Ok(message), Ok(expected)) => message == expected,
            (Err(message), Err(expected)) => message@ == expected,
            _ => false,
        },
{
    let mut cursor: usize = 0;
    let mut message: MemAccess = MemAccess {
        inst_addr: 0,
        access_addr: 0,
        value: 0,
        size: 0,
    };
    while cursor < data.len()
        invariant
            cursor <= data@.len(),
            mem_access_from(data@, 0, empty_mem_access()) == mem_access_from(data@, cursor as int, message),
        decreases data@.len() - cursor,
    {
        proof {
            readers_advance(data@);
        }
        let ghost before = message;
        let key: u64 = match read_varint(&mut cursor, data) {
            Ok(key) => key,
            Err(error) => {
                return Err(error);
            },
        };
        let field: u64 = key / 8;
        let wire: u64 = key % 8;
        if field == 1 && wire == 0 {
            match read_varint(&mut cursor, data) {
                Ok(value) => {
                    message.inst_addr = value;
                },
                Err(error) => {
                    return Err(error);
                },
            }
        } else if field == 2 && wire == 0 {
            match read_varint(&mut cursor, data) {
                Ok(value) => {
                    message.access_addr = value;
                },
                Err(error) => {
                    return Err(error);
                },
            }
        } else if field == 3 && wire == 0 {
            match read_varint(&mut cursor, data) {
                Ok(value) => {
                    message.value = value;
                },
                Err(error) => {
                    return Err(error);
                },
            }
        } else if field == 4 && wire == 0 {
            match read_varint(&mut cursor, data) {
                Ok(value) => {
                    message.size = value as u32;
                },
                Err(error) => {
                    return Err(error);
                },
            }
        } else {
            match skip_field(wire, &mut cursor, data) {
                Ok(_) => {},
                Err(error) => {
                    return Err(error);
                },
            }
        }
    }
    Ok(message)
}

/// A return from code outside of the trace.
#[derive(Clone, Copy, Debug, PartialEq, Eq, Structural)]
pub struct ExternalReturn {
    pub return_addr: u64,
    pub return_value: u64,
}

/// An empty message.
pub open spec fn empty_external_return() -> ExternalReturn {
    ExternalReturn {
        return_addr: 0,
        return_value: 0,
    }
}

/// The message in the rest of some bytes, on top of what was read already. The last
/// value of a field counts; unknown fields are passed over.
pub open spec fn external_return_from(data: Seq<u8>, pos: int, message: ExternalReturn) -> Result<
    ExternalReturn,
    Seq<char>,
>
    decreases data.len() - pos,
{
    if pos < 0 || pos >= data.len() {
        Ok(message)
    } else {
        proof {
            readers_advance(data);
        }
        match varint_at(data, pos) {
            Err(error) => Err(error),
            Ok((key, start)) => {
                let field = key / 8;
                let wire = key % 8;
                if field == 1 && wire == 0 {
                    match varint_at(data, start) {
                        Ok((value, end)) => external_return_from(
                            data,
                            end,
                            ExternalReturn { return_addr: value, ..message },
                        ),
                        Err(error) => Err(error),
                    }
                } else if field == 2 && wire == 0 {
                    match varint_at(data, start) {
                        Ok((value, end)) => external_return_from(
                            data,
                            end,
                            ExternalReturn { return_value: value, ..message },
                        ),
                        Err(error) => Err(error),
                    }
                } else {
                    match skip_at(wire, data, start) {
                        Ok(end) => external_return_from(data, end, message),
                        Err(error) => Err(error),
                    }
                }
            },
        }
    }
}

/// Reads the message.
pub fn parse_external_return(data: &[u8]) -> (result: Result<ExternalReturn, String>)
    ensures
        match (result, external_return_from(data@, 0, empty_external_return())) {
            (Ok(message), Ok(expected)) => message == expected,
            (Err(message), Err(expected)) => message@ == expected,
            _ => false,
        },
{
    let mut cursor: usize = 0;
    let mut message: ExternalReturn = ExternalReturn {
        return_addr: 0,
        return_value: 0,
    };
    while cursor < data.len()
        invariant
            cursor <= data@.len(),
            external_return_from(data@, 0, empty_external_return()) == external_return_from(data@, cursor as int, message),
        decreases data@.len() - cursor,
    {
        proof {
            readers_advance(data@);
        }
        let ghost before = message;
        let key: u64 = match read_varint(&mut cursor, data) {
            Ok(key) => key,
            Err(error) => {
                return Err(error);
            },
        };
        let field: u64 = key / 8;
        let wire: u64 = key % 8;
        if field == 1 && wire == 0 {
            match read_varint(&mut cursor, data) {
                Ok(value) => {
                    message.return_addr = value;
                },
                Err(error) => {
                    return Err(error);
                },
            }
        } else if field == 2 && wire == 0 {
            match read_varint(&mut cursor, data) {
                Ok(value) => {
                    message.return_value = value;
                },
                Err(error) => {
                    return Err(error);
                },
            }
        } else {
            match skip_field(wire, &mut cursor, data) {
                Ok(_) => {},
                Err(error) => {
                    return Err(error);
                },
            }
        }
    }
    Ok(message)
}

/// Code that was not in a module when it ran.
#[derive(Debug)]
pub struct DynamicExecChunk {
    pub start_addr: u64,
    pub end_addr: u64,
    pub perm: u32,
    pub path: String,
    pub chunk_offset: u64,
    pub data_len: usize,
}

/// What a [`DynamicExecChunk`] holds.
#[verifier::ext_equal]
pub struct DynamicExecChunkView {
    pub start_addr: u64,
    pub end_addr: u64,
    pub perm: u32,
    pub path: Seq<char>,
    pub chunk_offset: u64,
    pub data_len: nat,
}

impl DynamicExecChunk {
    pub open spec fn view(&self) -> DynamicExecChunkView {
        DynamicExecChunkView {
            start_addr: self.start_addr,
            end_addr: self.end_addr,
            perm: self.perm,
            path: self.path@,
            chunk_offset: self.chunk_offset,
            data_len: self.data_len as nat,
        }
    }
}

/// An empty message.
pub open spec fn empty_dynamic_exec_chunk() -> DynamicExecChunkView {
    DynamicExecChunkView {
        start_addr: 0,
        end_addr: 0,
        perm: 0,
        path: Seq::empty(),
        chunk_offset: 0,
        data_len: 0,
    }
}

/// The message in the rest of some bytes, on top of what was read already. The last
/// value of a field counts; unknown fields are passed over.
pub open spec fn dynamic_exec_chunk_from(data: Seq<u8>, pos: int, message: DynamicExecChunkView) -> Result<
    DynamicExecChunkView,
    Seq<char>,
>
    decreases data.len() - pos,
{
    if pos < 0 || pos >= data.len() {
        Ok(message)
    } else {
        proof {
            readers_advance(data);
        }
        match varint_at(data, pos) {
            Err(error) => Err(error),
            Ok((key, start)) => {
                let field = key / 8;
                let wire = key % 8;
                if field == 1 && wire == 0 {
                    match varint_at(data, start) {
                        Ok((value, end)) => dynamic_exec_chunk_from(
                            data,
                            end,
                            DynamicExecChunkView { start_addr: value, ..message },
                        ),
                        Err(error) => Err(error),
                    }
                } else if field == 2 && wire == 0 {
                    match varint_at(data, start) {
                        Ok((value, end)) => dynamic_exec_chunk_from(
                            data,
                            end,
                            DynamicExecChunkView { end_addr: value, ..message },
                        ),
                        Err(error) => Err(error),
                    }
                } else if field == 3 && wire == 0 {
                    match varint_at(data, start) {
                        Ok((value, end)) => dynamic_exec_chunk_from(
                            data,
                            end,
                            DynamicExecChunkView { perm: value as u32, ..message },
                        ),
                        Err(error) => Err(error),
                    }
                } else if field == 4 && wire == 2 {
                    match string_at(data, start) {
                        Ok((value, end)) => dynamic_exec_chunk_from(
                            data,
                            end,
                            DynamicExecChunkView { path: value, ..message },
                        ),
                        Err(error) => Err(error),
                    }
                } else if field == 5 && wire == 0 {
                    match varint_at(data, start) {
                        Ok((value, end)) => dynamic_exec_chunk_from(
                            data,
                            end,
                            DynamicExecChunkView { chunk_offset: value, ..message },
                        ),
                        Err(error) => Err(error),
                    }
                } else if field == 6 && wire == 2 {
                    match len_at(data, start) {
                        Ok((value, end)) => dynamic_exec_chunk_from(
                            data,
                            end,
                            DynamicExecChunkView { data_len: value.len(), ..message },
                        ),
                        Err(error) => Err(error),
                    }
                } else {
                    match skip_at(wire, data, start) {
                        Ok(end) => dynamic_exec_chunk_from(data, end, message),
                        Err(error) => Err(error),
                    }
                }
            },
        }
    }
}

/// Reads the message.
pub fn parse_dynamic_exec_chunk(data: &[u8]) -> (result: Result<DynamicExecChunk, String>)
    ensures
        match (result, dynamic_exec_chunk_from(data@, 0, empty_dynamic_exec_chunk())) {
            (Ok(message), Ok(expected)) => message@ == expected,
            (Err(message), Err(expected)) => message@ == expected,
            _ => false,
        },
{
    let mut cursor: usize = 0;
    let mut message: DynamicExecChunk = DynamicExecChunk {
        start_addr: 0,
        end_addr: 0,
        perm: 0,
        path: String::new(),
        chunk_offset: 0,
        data_len: 0,
    };
    assert(message@ =~= empty_dynamic_exec_chunk());
    while cursor < data.len()
        invariant
            cursor <= data@.len(),
            dynamic_exec_chunk_from(data@, 0, empty_dynamic_exec_chunk()) == dynamic_exec_chunk_from(data@, cursor as int, message@),
        decreases data@.len() - cursor,
    {
        proof {
            readers_advance(data@);
        }
        let ghost before = message@;
        let key: u64 = match read_varint(&mut cursor, data) {
            Ok(key) => key,
            Err(error) => {
                return Err(error);
            },
        };
        let field: u64 = key / 8;
        let wire: u64 = key % 8;
        if field == 1 && wire == 0 {
            match read_varint(&mut cursor, data) {
                Ok(value) => {
                    message.start_addr = value;
                },
                Err(error) => {
                    return Err(error);
                },
            }
            assert(message@ =~= DynamicExecChunkView { start_addr: message.start_addr, ..before });
        } else if field == 2 && wire == 0 {
            match read_varint(&mut cursor, data) {
                Ok(value) => {
                    message.end_addr = value;
                },
                Err(error) => {
                    return Err(error);
                },
            }
            assert(message@ =~= DynamicExecChunkView { end_addr: message.end_addr, ..before });
        } else if field == 3 && wire == 0 {
            match read_varint(&mut cursor, data) {
                Ok(value) => {
                    message.perm = value as u32;
                },
                Err(error) => {
                    return Err(error);
                },
            }
            assert(message@ =~= DynamicExecChunkView { perm: message.perm, ..before });
        } else if field == 4 && wire == 2 {
            match read_string(&mut cursor, data) {
                Ok(value) => {
                    message.path = value;
                },
                Err(error) => {
                    return Err(error);
                },
            }
            assert(message@ =~= DynamicExecChunkView { path: message.path@, ..before });
        } else if field == 5 && wire == 0 {
            match read_varint(&mut cursor, data) {
                Ok(value) => {
                    message.chunk_offset = value;
                },
                Err(error) => {
                    return Err(error);
                },
            }
            assert(message@ =~= DynamicExecChunkView { chunk_offset: message.chunk_offset, ..before });
        } else if field == 6 && wire == 2 {
            match read_len(&mut cursor, data) {
                Ok(value) => {
                    message.data_len = value.len();
                },
                Err(error) => {
                    return Err(error);
                },
            }
            assert(message@ =~= DynamicExecChunkView { data_len: message.data_len as nat, ..before });
        } else {
            match skip_field(wire, &mut cursor, data) {
                Ok(_) => {},
                Err(error) => {
                    return Err(error);
                },
            }
        }
    }
    Ok(message)
}

/// The registers at some point of the trace.
#[derive(Debug)]
pub struct TraceContext {
    pub x: Vec<u64>,
    pub sp: u64,
    pub pc: u64,
    pub nzcv: u64,
    pub tpidr_el0: u64,
    pub q_words: usize,
    pub fpcr: u64,
    pub fpsr: u64,
}

/// What a [`TraceContext`] holds.
#[verifier::ext_equal]
pub struct TraceContextView {
    pub x: Seq<u64>,
    pub sp: u64,
    pub pc: u64,
    pub nzcv: u64,
    pub tpidr_el0: u64,
    pub q_words: nat,
    pub fpcr: u64,
    pub fpsr: u64,
}

impl TraceContext {
    pub open spec fn view(&self) -> TraceContextView {
        TraceContextView {
            x: self.x@,
            sp: self.sp,
            pc: self.pc,
            nzcv: self.nzcv,
            tpidr_el0: self.tpidr_el0,
            q_words: self.q_words as nat,
            fpcr: self.fpcr,
            fpsr: self.fpsr,
        }
    }
}

/// An empty message.
pub open spec fn empty_trace_context() -> TraceContextView {
    TraceContextView {
        x: Seq::empty(),
        sp: 0,
        pc: 0,
        nzcv: 0,
        tpidr_el0: 0,
        q_words: 0,
        fpcr: 0,
        fpsr: 0,
    }
}

/// The message in the rest of some bytes, on top of what was read already. The last
/// value of a field counts; unknown fields are passed over.
pub open spec fn trace_context_from(data: Seq<u8>, pos: int, message: TraceContextView) -> Result<
    TraceContextView,
    Seq<char>,
>
    decreases data.len() - pos,
{
    if pos < 0 || pos >= data.len() {
        Ok(message)
    } else {
        proof {
            readers_advance(data);
        }
        match varint_at(data, pos) {
            Err(error) => Err(error),
            Ok((key, start)) => {
                let field = key / 8;
                let wire = key % 8;
                if field == 1 {
                    proof {
                        repeated_advances(wire, data, start);
                    }
                    match repeated_at(wire, data, start) {
                        Ok((value, end)) => trace_context_from(
                            data,
                            end,
                            TraceContextView { x: message.x + value, ..message },
                        ),
                        Err(error) => Err(error),
                    }
                } else if field == 2 && wire == 0 {
                    match varint_at(data, start) {
                        Ok((value, end)) => trace_context_from(
                            data,
                            end,
                            TraceContextView { sp: value, ..message },
                        ),
                        Err(error) => Err(error),
                    }
                } else if field == 3 && wire == 0 {
                    match varint_at(data, start) {
                        Ok((value, end)) => trace_context_from(
                            data,
                            end,
                            TraceContextView { pc: value, ..message },
                        ),
                        Err(error) => Err(error),
                    }
                } else if field == 4 && wire == 0 {
                    match varint_at(data, start) {
                        Ok((value, end)) => trace_context_from(
                            data,
                            end,
                            TraceContextView { nzcv: value, ..message },
                        ),
                        Err(error) => Err(error),
                    }
                } else if field == 5 && wire == 0 {
                    match varint_at(data, start) {
                        Ok((value, end)) => trace_context_from(
                            data,
                            end,
                            TraceContextView { tpidr_el0: value, ..message },
                        ),
                        Err(error) => Err(error),
                    }
                } else if field == 6 {
                    proof {
                        repeated_advances(wire, data, start);
                    }
                    match repeated_at(wire, data, start) {
                        Ok((value, end)) => trace_context_from(
                            data,
                            end,
                            TraceContextView { q_words: message.q_words + value.len(), ..message },
                        ),
                        Err(error) => Err(error),
                    }
                } else if field == 7 && wire == 0 {
                    match varint_at(data, start) {
                        Ok((value, end)) => trace_context_from(
                            data,
                            end,
                            TraceContextView { fpcr: value, ..message },
                        ),
                        Err(error) => Err(error),
                    }
                } else if field == 8 && wire == 0 {
                    match varint_at(data, start) {
                        Ok((value, end)) => trace_context_from(
                            data,
                            end,
                            TraceContextView { fpsr: value, ..message },
                        ),
                        Err(error) => Err(error),
                    }
                } else {
                    match skip_at(wire, data, start) {
                        Ok(end) => trace_context_from(data, end, message),
                        Err(error) => Err(error),
                    }
                }
            },
        }
    }
}

/// Reads the message.
pub fn parse_trace_context(data: &[u8]) -> (result: Result<TraceContext, String>)
    ensures
        match (result, trace_context_from(data@, 0, empty_trace_context())) {
            (Ok(message), Ok(expected)) => message@ == expected,
            (Err(message), Err(expected)) => message@ == expected,
            _ => false,
        },
{
    let mut cursor: usize = 0;
    let mut message: TraceContext = TraceContext {
        x: Vec::new(),
        sp: 0,
        pc: 0,
        nzcv: 0,
        tpidr_el0: 0,
        q_words: 0,
        fpcr: 0,
        fpsr: 0,
    };
    assert(message@ =~= empty_trace_context());
    while cursor < data.len()
        invariant
            cursor <= data@.len(),
            message.q_words <= cursor,
            trace_context_from(data@, 0, empty_trace_context()) == trace_context_from(data@, cursor as int, message@),
        decreases data@.len() - cursor,
    {
        proof {
            readers_advance(data@);
        }
        let ghost before = message@;
        let key: u64 = match read_varint(&mut cursor, data) {
            Ok(key) => key,
            Err(error) => {
                return Err(error);
            },
        };
        let field: u64 = key / 8;
        let wire: u64 = key % 8;
        if field == 1 {
            proof {
                repeated_advances(wire, data@, cursor as int);
            }
            match read_repeated_u64(wire, &mut cursor, data) {
                Ok(mut value) => {
                    message.x.append(&mut value);
                },
                Err(error) => {
                    return Err(error);
                },
            }
            assert(message@ =~= TraceContextView { x: message.x@, ..before });
        } else if field == 2 && wire == 0 {
            match read_varint(&mut cursor, data) {
                Ok(value) => {
                    message.sp = value;
                },
                Err(error) => {
                    return Err(error);
                },
            }
            assert(message@ =~= TraceContextView { sp: message.sp, ..before });
        } else if field == 3 && wire == 0 {
            match read_varint(&mut cursor, data) {
                Ok(value) => {
                    message.pc = value;
                },
                Err(error) => {
                    return Err(error);
                },
            }
            assert(message@ =~= TraceContextView { pc: message.pc, ..before });
        } else if field == 4 && wire == 0 {
            match read_varint(&mut cursor, data) {
                Ok(value) => {
                    message.nzcv = value;
                },
                Err(error) => {
                    return Err(error);
                },
            }
            assert(message@ =~= TraceContextView { nzcv: message.nzcv, ..before });
        } else if field == 5 && wire == 0 {
            match read_varint(&mut cursor, data) {
                Ok(value) => {
                    message.tpidr_el0 = value;
                },
                Err(error) => {
                    return Err(error);
                },
            }
            assert(message@ =~= TraceContextView { tpidr_el0: message.tpidr_el0, ..before });
        } else if field == 6 {
            proof {
                repeated_advances(wire, data@, cursor as int);
            }
            match read_repeated_u64(wire, &mut cursor, data) {
                Ok(value) => {
                    message.q_words = message.q_words + value.len();
                },
                Err(error) => {
                    return Err(error);
                },
            }
            assert(message@ =~= TraceContextView { q_words: message.q_words as nat, ..before });
        } else if field == 7 && wire == 0 {
            match read_varint(&mut cursor, data) {
                Ok(value) => {
                    message.fpcr = value;
                },
                Err(error) => {
                    return Err(error);
                },
            }
            assert(message@ =~= TraceContextView { fpcr: message.fpcr, ..before });
        } else if field == 8 && wire == 0 {
            match read_varint(&mut cursor, data) {
                Ok(value) => {
                    message.fpsr = value;
                },
                Err(error) => {
                    return Err(error);
                },
            }
            assert(message@ =~= TraceContextView { fpsr: message.fpsr, ..before });
        } else {
            match skip_field(wire, &mut cursor, data) {
                Ok(_) => {},
                Err(error) => {
                    return Err(error);
                },
            }
        }
    }
    Ok(message)
}

/// Where the traced module was loaded from and to.
#[derive(Debug)]
pub struct TraceBundleMetadata {
    pub path: String,
    pub module_base: u64,
}

/// What a [`TraceBundleMetadata`] holds.
#[verifier::ext_equal]
pub struct TraceBundleMetadataView {
    pub path: Seq<char>,
    pub module_base: u64,
}

impl TraceBundleMetadata {
    pub open spec fn view(&self) -> TraceBundleMetadataView {
        TraceBundleMetadataView {
            path: self.path@,
            module_base: self.module_base,
        }
    }
}

/// An empty message.
pub open spec fn empty_metadata() -> TraceBundleMetadataView {
    TraceBundleMetadataView {
        path: Seq::empty(),
        module_base: 0,
    }
}

/// The message in the rest of some bytes, on top of what was read already. The last
/// value of a field counts; unknown fields are passed over.
pub open spec fn metadata_from(data: Seq<u8>, pos: int, message: TraceBundleMetadataView) -> Result<
    TraceBundleMetadataView,
    Seq<char>,
>
    decreases data.len() - pos,
{
    if pos < 0 || pos >= data.len() {
        Ok(message)
    } else {
        proof {
            readers_advance(data);
        }
        match varint_at(data, pos) {
            Err(error) => Err(error),
            Ok((key, start)) => {
                let field = key / 8;
                let wire = key % 8;
                if field == 1 && wire == 2 {
                    match string_at(data, start) {
                        Ok((value, end)) => metadata_from(
                            data,
                            end,
                            TraceBundleMetadataView { path: value, ..message },
                        ),
                        Err(error) => Err(error),
                    }
                } else if field == 2 && wire == 0 {
                    match varint_at(data, start) {
                        Ok((value, end)) => metadata_from(
                            data,
                            end,
                            TraceBundleMetadataView { module_base: value, ..message },
                        ),
                        Err(error) => Err(error),
                    }
                } else {
                    match skip_at(wire, data, start) {
                        Ok(end) => metadata_from(data, end, message),
                        Err(error) => Err(error),
                    }
                }
            },
        }
    }
}

/// Reads the message.
pub fn parse_metadata(data: &[u8]) -> (result: Result<TraceBundleMetadata, String>)
    ensures
        match (result, metadata_from(data@, 0, empty_metadata())) {
            (Ok(message), Ok(expected)) => message@ == expected,
            (Err(message), Err(expected)) => message@ == expected,
            _ => false,
        },
{
    let mut cursor: usize = 0;
    let mut message: TraceBundleMetadata = TraceBundleMetadata {
        path: String::new(),
        module_base: 0,
    };
    assert(message@ =~= empty_metadata());
    while cursor < data.len()
        invariant
            cursor <= data@.len(),
            metadata_from(data@, 0, empty_metadata()) == metadata_from(data@, cursor as int, message@),
        decreases data@.len() - cursor,
    {
        proof {
            readers_advance(data@);
        }
        let ghost before = message@;
        let key: u64 = match read_varint(&mut cursor, data) {
            Ok(key) => key,
            Err(error) => {
                return Err(error);
            },
        };
        let field: u64 = key / 8;
        let wire: u64 = key % 8;
        if field == 1 && wire == 2 {
            match read_string(&mut cursor, data) {
                Ok(value) => {
                    message.path = value;
                },
                Err(error) => {
                    return Err(error);
                },
            }
            assert(message@ =~= TraceBundleMetadataView { path: message.path@, ..before });
        } else if field == 2 && wire == 0 {
            match read_varint(&mut cursor, data) {
                Ok(value) => {
                    message.module_base = value;
                },
                Err(error) => {
                    return Err(error);
                },
            }
            assert(message@ =~= TraceBundleMetadataView { module_base: message.module_base, ..before });
        } else {
            match skip_field(wire, &mut cursor, data) {
                Ok(_) => {},
                Err(error) => {
                    return Err(error);
                },
            }
        }
    }
    Ok(message)
}

/// One event of a trace.
#[derive(Debug)]
pub enum Event {
    InstructionAddr(u64),
    MemAccess(MemAccess),
    ExternalReturn(ExternalReturn),
    DynamicExecChunk(DynamicExecChunk),
    TraceContext(TraceContext),
    TraceBundleMetadata(TraceBundleMetadata),
    Unknown,
}

/// What an event holds.
pub enum EventView {
    InstructionAddr(u64),
    MemAccess(MemAccess),
    ExternalReturn(ExternalReturn),
    DynamicExecChunk(DynamicExecChunkView),
    TraceContext(TraceContextView),
    TraceBundleMetadata(TraceBundleMetadataView),
    Unknown,
}

impl Event {
    pub open spec fn view(&self) -> EventView {
        match self {
            Event::InstructionAddr(address) => EventView::InstructionAddr(*address),
            Event::MemAccess(message) => EventView::MemAccess(*message),
            Event::ExternalReturn(message) => EventView::ExternalReturn(*message),
            Event::DynamicExecChunk(message) => EventView::DynamicExecChunk(message@),
            Event::TraceContext(message) => EventView::TraceContext(message@),
            Event::TraceBundleMetadata(message) => EventView::TraceBundleMetadata(message@),
            Event::Unknown => EventView::Unknown,
        }
    }
}

/// The event in one field of an event message, and where the field ends. `None` stands
/// for a field that is passed over.
pub open spec fn event_field(field: u64, wire: u64, data: Seq<u8>, pos: int) -> Result<
    (Option<EventView>, int),
    Seq<char>,
> {
    if field == 1 && wire == 0 {
        match varint_at(data, pos) {
            Ok((value, end)) => Ok((Some(EventView::InstructionAddr(value)), end)),
            Err(error) => Err(error),
        }
    } else if 2 <= field <= 6 && wire == 2 {
        match len_at(data, pos) {
            Err(error) => Err(error),
            Ok((bytes, end)) => if field == 2 {
                match mem_access_from(bytes, 0, empty_mem_access()) {
                    Ok(message) => Ok((Some(EventView::MemAccess(message)), end)),
                    Err(error) => Err(error),
                }
            } else if field == 3 {
                match external_return_from(bytes, 0, empty_external_return()) {
                    Ok(message) => Ok((Some(EventView::ExternalReturn(message)), end)),
                    Err(error) => Err(error),
                }
            } else if field == 4 {
                match dynamic_exec_chunk_from(bytes, 0, empty_dynamic_exec_chunk()) {
                    Ok(message) => Ok((Some(EventView::DynamicExecChunk(message)), end)),
                    Err(error) => Err(error),
                }
            } else if field == 5 {
                match trace_context_from(bytes, 0, empty_trace_context()) {
                    Ok(message) => Ok((Some(EventView::TraceContext(message)), end)),
                    Err(error) => Err(error),
                }
            } else {
                match metadata_from(bytes, 0, empty_metadata()) {
                    Ok(message) => Ok((Some(EventView::TraceBundleMetadata(message)), end)),
                    Err(error) => Err(error),
                }
            },
        }
    } else {
        match skip_at(wire, data, pos) {
            Ok(end) => Ok((None, end)),
            Err(error) => Err(error),
        }
    }
}

/// The event in the rest of some bytes: the last one of those that they hold.
pub open spec fn event_from(data: Seq<u8>, pos: int, event: EventView) -> Result<
    EventView,
    Seq<char>,
>
    decreases data.len() - pos,
{
    if pos < 0 || pos >= data.len() {
        Ok(event)
    } else {
        proof {
            readers_advance(data);
        }
        match varint_at(data, pos) {
            Err(error) => Err(error),
            Ok((key, start)) => match event_field(key / 8, key % 8, data, start) {
                Ok((Some(found), end)) => event_from(data, end, found),
                Ok((None, end)) => event_from(data, end, event),
                Err(error) => Err(error),
            },
        }
    }
}

proof fn lemma_varint_end_inside(
    before: Seq<u8>,
    data: Seq<u8>,
    after: Seq<u8>,
    pos: int,
    used: nat,
)
    requires
        0 <= pos <= data.len(),
        used <= 10,
        varint_end(data, pos, used) is Ok,
    ensures
        varint_end(before + data + after, before.len() + pos, used) == Ok::<int, Seq<char>>(
            before.len() + varint_end(data, pos, used)->Ok_0,
        ),
    decreases 10 - used,
{
    let all = before + data + after;
    assert(all[before.len() + pos + used] == data[pos + used]);
    if data[pos + used] >= 128 {
        lemma_varint_end_inside(before, data, after, pos, used + 1);
    }
}

proof fn lemma_varint_inside(before: Seq<u8>, data: Seq<u8>, after: Seq<u8>, pos: int)
    requires
        0 <= pos <= data.len(),
        varint_at(data, pos) is Ok,
    ensures
        varint_at(before + data + after, before.len() + pos) == Ok::<(u64, int), Seq<char>>(
            (varint_at(data, pos)->Ok_0.0, before.len() + varint_at(data, pos)->Ok_0.1),
        ),
{
    lemma_varint_end_inside(before, data, after, pos, 0);
    lemma_varint_end(data, pos, 0);
    let end = varint_end(data, pos, 0)->Ok_0;
    assert((before + data + after).subrange(before.len() + pos, before.len() + end)
        =~= data.subrange(pos, end));
}

proof fn lemma_len_inside(before: Seq<u8>, data: Seq<u8>, after: Seq<u8>, pos: int)
    requires
        0 <= pos <= data.len(),
        before.len() + data.len() + after.len() <= usize::MAX,
        len_at(data, pos) is Ok,
    ensures
        len_at(before + data + after, before.len() + pos) == Ok::<(Seq<u8>, int), Seq<char>>(
            (len_at(data, pos)->Ok_0.0, before.len() + len_at(data, pos)->Ok_0.1),
        ),
{
    lemma_varint_inside(before, data, after, pos);
    lemma_varint_end(data, pos, 0);
    let (length, start) = varint_at(data, pos)->Ok_0;
    assert((before + data + after).subrange(before.len() + start, before.len() + start + length)
        =~= data.subrange(start, start + length));
}

/// A field that can be read means the same whatever stands around its message.
pub proof fn fields_stand_for_themselves(
    before: Seq<u8>,
    data: Seq<u8>,
    after: Seq<u8>,
    field: u64,
    wire: u64,
    pos: int,
)
    requires
        0 <= pos <= data.len(),
        before.len() + data.len() + after.len() <= usize::MAX,
        event_field(field, wire, data, pos) is Ok,
    ensures
        event_field(field, wire, before + data + after, before.len() + pos) == Ok::<
            (Option<EventView>, int),
            Seq<char>,
        >(
            (
                event_field(field, wire, data, pos)->Ok_0.0,
                before.len() + event_field(field, wire, data, pos)->Ok_0.1,
            ),
        ),
{
    if field == 1 && wire == 0 {
        lemma_varint_inside(before, data, after, pos);
    } else if 2 <= field <= 6 && wire == 2 {
        lemma_len_inside(before, data, after, pos);
    } else if wire == 0 {
        lemma_varint_inside(before, data, after, pos);
    } else if wire == 2 {
        lemma_len_inside(before, data, after, pos);
    }
}

proof fn lemma_event_inside(
    before: Seq<u8>,
    data: Seq<u8>,
    after: Seq<u8>,
    pos: int,
    event: EventView,
)
    requires
        0 <= pos <= data.len(),
        before.len() + data.len() + after.len() <= usize::MAX,
        event_from(data, pos, event) is Ok,
    ensures
        event_from(before + data + after, before.len() + pos, event) == event_from(
            before + data + after,
            (before.len() + data.len()) as int,
            event_from(data, pos, event)->Ok_0,
        ),
    decreases data.len() - pos,
{
    if pos < data.len() {
        readers_advance(data);
        let (key, start) = varint_at(data, pos)->Ok_0;
        lemma_varint_inside(before, data, after, pos);
        fields_stand_for_themselves(before, data, after, key / 8, key % 8, start);
        let (found, end) = event_field(key / 8, key % 8, data, start)->Ok_0;
        match found {
            Some(next) => lemma_event_inside(before, data, after, end, next),
            None => lemma_event_inside(before, data, after, end, event),
        }
    }
}

proof fn lemma_last_event(data: Seq<u8>, pos: int, event: EventView)
    requires
        0 <= pos <= data.len(),
        event_from(data, pos, EventView::Unknown) is Ok,
    ensures
        event_from(data, pos, event) == Ok::<EventView, Seq<char>>(
            if event_from(data, pos, EventView::Unknown)->Ok_0 is Unknown {
                event
            } else {
                event_from(data, pos, EventView::Unknown)->Ok_0
            },
        ),
    decreases data.len() - pos,
{
    if pos < data.len() {
        readers_advance(data);
        let (key, start) = varint_at(data, pos)->Ok_0;
        let (found, end) = event_field(key / 8, key % 8, data, start)->Ok_0;
        match found {
            Some(next) => lemma_known_event_stays(data, end, next),
            None => lemma_last_event(data, end, event),
        }
    }
}

proof fn lemma_known_event_stays(data: Seq<u8>, pos: int, event: EventView)
    requires
        0 <= pos <= data.len(),
        !(event is Unknown),
    ensures
        event_from(data, pos, event) matches Ok(last) ==> !(last is Unknown),
    decreases data.len() - pos,
{
    if pos < data.len() {
        readers_advance(data);
        match varint_at(data, pos) {
            Err(_) => {},
            Ok((key, start)) => match event_field(key / 8, key % 8, data, start) {
                Ok((Some(found), end)) => lemma_known_event_stays(data, end, found),
                Ok((None, end)) => lemma_known_event_stays(data, end, event),
                Err(_) => {},
            },
        }
    }
}

/// Two event messages that are joined hold the event of the second, or that of the first
/// where the second holds none: the last field that is known wins, and one that is not
/// known takes nothing back. No bytes hold no event.
pub proof fn the_last_known_field_wins(first: Seq<u8>, second: Seq<u8>)
    requires
        event_from(first, 0, EventView::Unknown) is Ok,
        event_from(second, 0, EventView::Unknown) is Ok,
        first.len() + second.len() <= usize::MAX,
    ensures
        event_from(first + second, 0, EventView::Unknown) == Ok::<EventView, Seq<char>>(
            if event_from(second, 0, EventView::Unknown)->Ok_0 is Unknown {
                event_from(first, 0, EventView::Unknown)->Ok_0
            } else {
                event_from(second, 0, EventView::Unknown)->Ok_0
            },
        ),
        event_from(Seq::<u8>::empty(), 0, EventView::Unknown) == Ok::<EventView, Seq<char>>(
            EventView::Unknown,
        ),
{
    let none = Seq::<u8>::empty();
    let x = event_from(first, 0, EventView::Unknown)->Ok_0;
    lemma_event_inside(none, first, second, 0, EventView::Unknown);
    assert(none + first + second =~= first + second);
    lemma_last_event(second, 0, x);
    lemma_event_inside(first, second, none, 0, x);
    assert(first + second + none =~= first + second);
}

fn read_event_field(field: u64, wire: u64, cursor: &mut usize, data: &[u8]) -> (result: Result<
    Option<Event>,
    String,
>)
    requires
        *old(cursor) <= data@.len(),
    ensures
        match (result, event_field(field, wire, data@, *old(cursor) as int)) {
            (Ok(event), Ok(expected)) => {
                &&& *final(cursor) == expected.1
                &&& *final(cursor) <= data@.len()
                &&& match (event, expected.0) {
                    (Some(event), Some(expected)) => event@ == expected,
                    (None, None) => true,
                    _ => false,
                }
            },
            (Err(message), Err(expected)) => message@ == expected,
            _ => false,
        },
{
    if field == 1 && wire == 0 {
        return match read_varint(cursor, data) {
            Ok(value) => Ok(Some(Event::InstructionAddr(value))),
            Err(error) => Err(error),
        };
    }
    if 2 <= field && field <= 6 && wire == 2 {
        let bytes: &[u8] = match read_len(cursor, data) {
            Ok(bytes) => bytes,
            Err(error) => {
                return Err(error);
            },
        };
        return if field == 2 {
            match parse_mem_access(bytes) {
                Ok(message) => Ok(Some(Event::MemAccess(message))),
                Err(error) => Err(error),
            }
        } else if field == 3 {
            match parse_external_return(bytes) {
                Ok(message) => Ok(Some(Event::ExternalReturn(message))),
                Err(error) => Err(error),
            }
        } else if field == 4 {
            match parse_dynamic_exec_chunk(bytes) {
                Ok(message) => Ok(Some(Event::DynamicExecChunk(message))),
                Err(error) => Err(error),
            }
        } else if field == 5 {
            match parse_trace_context(bytes) {
                Ok(message) => Ok(Some(Event::TraceContext(message))),
                Err(error) => Err(error),
            }
        } else {
            match parse_metadata(bytes) {
                Ok(message) => Ok(Some(Event::TraceBundleMetadata(message))),
                Err(error) => Err(error),
            }
        };
    }
    match skip_field(wire, cursor, data) {
        Ok(_) => Ok(None),
        Err(error) => Err(error),
    }
}

/// Reads an event.
pub fn parse_event(data: &[u8]) -> (result: Result<Event, String>)
    ensures
        match (result, event_from(data@, 0, EventView::Unknown)) {
            (Ok(event), Ok(expected)) => event@ == expected,
            (Err(message), Err(expected)) => message@ == expected,
            _ => false,
        },
{
    let mut cursor: usize = 0;
    let mut event: Event = Event::Unknown;
    while cursor < data.len()
        invariant
            cursor <= data@.len(),
            event_from(data@, 0, EventView::Unknown) == event_from(
                data@,
                cursor as int,
                event@,
            ),
        decreases data@.len() - cursor,
    {
        proof {
            readers_advance(data@);
        }
        let key: u64 = match read_varint(&mut cursor, data) {
            Ok(key) => key,
            Err(error) => {
                return Err(error);
            },
        };
        match read_event_field(key / 8, key % 8, &mut cursor, data) {
            Ok(Some(found)) => {
                event = found;
            },
            Ok(None) => {},
            Err(error) => {
                return Err(error);
            },
        }
    }
    Ok(event)
}

/// The event at a position of a bundle, and where it ends. Events are numbered from
/// zero.
pub open spec fn bundle_event_at(data: Seq<u8>, pos: int, index: nat) -> Result<
    (EventView, int),
    Seq<char>,
> {
    match varint_at(data, pos) {
        Err(error) => Err(error),
        Ok((length, start)) => if start + length > u64::MAX {
            Err("event length overflow"@)
        } else if start + length > data.len() {
            Err("event "@ + numeral(index, 10) + " is truncated"@)
        } else {
            match event_from(data.subrange(start, start + length), 0, EventView::Unknown) {
                Ok(event) => Ok((event, start + length)),
                Err(error) => Err(
                    "decode event "@ + numeral(index, 10) + " failed: "@ + error,
                ),
            }
        },
    }
}

/// The events in the rest of a bundle, behind those found already, up to the first that
/// cannot be read.
pub open spec fn bundle_events(data: Seq<u8>, pos: int, found: Seq<EventView>) -> (
    Seq<EventView>,
    Option<Seq<char>>,
)
    decreases data.len() - pos,
{
    if pos < 0 || pos >= data.len() {
        (found, None)
    } else {
        proof {
            readers_advance(data);
        }
        match bundle_event_at(data, pos, found.len()) {
            Err(error) => (found, Some(error)),
            Ok((event, end)) => bundle_events(data, end, found.push(event)),
        }
    }
}

/// What a bundle holds, as far as it can be read.
#[derive(Debug)]
pub struct BundleEvents {
    pub events: Vec<Event>,
    pub error: Option<String>,
}

/// Events as they are.
pub open spec fn event_views(events: Seq<Event>) -> Seq<EventView> {
    Seq::new(events.len(), |i: int| events[i]@)
}

/// The optional text as characters.
pub open spec fn optional_text(text: Option<String>) -> Option<Seq<char>> {
    match text {
        Some(text) => Some(text@),
        None => None,
    }
}

fn read_bundle_event(cursor: &mut usize, data: &[u8], index: usize) -> (result: Result<Event, String>)
    requires
        *old(cursor) <= data@.len(),
    ensures
        match (result, bundle_event_at(data@, *old(cursor) as int, index as nat)) {
            (Ok(event), Ok(expected)) => {
                &&& event@ == expected.0
                &&& *final(cursor) == expected.1
                &&& *old(cursor) < *final(cursor) <= data@.len()
            },
            (Err(message), Err(expected)) => message@ == expected,
            _ => false,
        },
{
    let length: u64 = match read_varint(cursor, data) {
        Ok(length) => length,
        Err(message) => {
            return Err(message);
        },
    };
    let start: usize = *cursor;
    match (start as u64).checked_add(length) {
        None => Err(String::from_str("event length overflow")),
        Some(end) => {
            if end > data.len() as u64 {
                let mut message: String = String::from_str("event ");
                push_numeral(&mut message, index as u64, 10);
                message.append(" is truncated");
                return Err(message);
            }
            *cursor = end as usize;
            match parse_event(vstd::slice::slice_subrange(data, start, end as usize)) {
                Ok(event) => Ok(event),
                Err(error) => {
                    let mut message: String = String::from_str("decode event ");
                    push_numeral(&mut message, index as u64, 10);
                    message.append(" failed: ");
                    message.append(error.as_str());
                    Err(message)
                },
            }
        },
    }
}

/// Reads the events of a bundle from `start` on, up to the first that cannot be read.
pub fn read_bundle(data: &[u8], start: usize) -> (bundle: BundleEvents)
    requires
        start <= data@.len(),
    ensures
        event_views(bundle.events@) == bundle_events(data@, start as int, Seq::empty()).0,
        optional_text(bundle.error) == bundle_events(data@, start as int, Seq::empty()).1,
        bundle.events@.len() <= data@.len(),
{
    let mut events: Vec<Event> = Vec::new();
    let mut cursor: usize = start;
    assert(event_views(events@) =~= Seq::<EventView>::empty());
    while cursor < data.len()
        invariant
            start <= cursor <= data@.len(),
            events@.len() <= cursor,
            bundle_events(data@, start as int, Seq::empty()) == bundle_events(
                data@,
                cursor as int,
                event_views(events@),
            ),
        decreases data@.len() - cursor,
    {
        let ghost before = events@;
        match read_bundle_event(&mut cursor, data, events.len()) {
            Ok(event) => {
                events.push(event);
                assert(event_views(events@) =~= event_views(before).push(event@));
            },
            Err(message) => {
                return BundleEvents { events, error: Some(message) };
            },
        }
    }
    BundleEvents { events, error: None }
}

proof fn lemma_tag(before: Seq<u8>, tag: u8, after: Seq<u8>)
    requires
        tag < 128,
    ensures
        varint_at(before + seq![tag] + after, before.len() as int) == Ok::<(u64, int), Seq<char>>(
            (tag as u64, before.len() as int + 1),
        ),
{
    varint_reads_back(before, tag as u64, after);
    assert(varint_bytes(tag as nat) =~= seq![tag]);
}

proof fn lemma_number_field(before: Seq<u8>, tag: u8, value: u64, after: Seq<u8>)
    requires
        tag < 128,
    ensures
        ({
            let data = before + seq![tag] + varint_bytes(value as nat) + after;
            let start = before.len() as int + 1;
            let end = start + varint_bytes(value as nat).len();
            &&& start <= end <= data.len()
            &&& varint_at(data, start - 1) == Ok::<(u64, int), Seq<char>>((tag as u64, start))
            &&& varint_at(data, start) == Ok::<(u64, int), Seq<char>>((value, end))
        }),
{
    let bytes = varint_bytes(value as nat);
    let data = before + seq![tag] + bytes + after;
    lemma_tag(before, tag, bytes + after);
    assert(data =~= before + seq![tag] + (bytes + after));
    varint_reads_back(before + seq![tag], value, after);
}

proof fn lemma_bytes_field(before: Seq<u8>, tag: u8, payload: Seq<u8>, after: Seq<u8>)
    requires
        tag < 128,
        before.len() + payload.len() + after.len() <= 0xffff_ffff_ffff,
    ensures
        ({
            let data = before + seq![tag] + varint_bytes(payload.len()) + payload + after;
            let start = before.len() as int + 1;
            let end = start + varint_bytes(payload.len()).len() + payload.len();
            &&& start < end <= data.len()
            &&& varint_at(data, start - 1) == Ok::<(u64, int), Seq<char>>((tag as u64, start))
            &&& len_at(data, start) == Ok::<(Seq<u8>, int), Seq<char>>((payload, end))
        }),
{
    let length = payload.len() as u64;
    let bytes = varint_bytes(payload.len());
    let data = before + seq![tag] + bytes + payload + after;
    lemma_number_field(before, tag, length, payload + after);
    assert(data =~= before + seq![tag] + bytes + (payload + after));
    lemma_varint_bytes(payload.len());
    assert(power_of_128(10) > u64::MAX) by {
        reveal_with_fuel(power_of_128, 11);
    }
    lemma_varint_len(payload.len(), 10);
    let from = before.len() as int + 1 + bytes.len();
    assert(data.subrange(from, from + payload.len()) =~= payload);
}

/// A number is written in groups of seven bits, the lowest first: every byte but the last
/// is 128 or more, and the group at place `n` counts 128 to the power of `n`.
pub proof fn numbers_are_written_in_groups(value: nat, bytes: Seq<u8>)
    ensures
        varint_bytes(value).len() > 0,
        varint_bytes(value).last() < 128,
        forall|i: int|
            0 <= i < varint_bytes(value).len() - 1 ==> #[trigger] varint_bytes(value)[i] >= 128,
        groups_value(varint_bytes(value)) == value,
        groups_value(Seq::<u8>::empty()) == 0,
        bytes.len() > 0 ==> groups_value(bytes) == groups_value(bytes.drop_last()) + pow(
            128,
            (bytes.len() - 1) as nat,
        ) * (bytes.last() as int % 128),
{
    lemma_varint_bytes(value);
    if bytes.len() > 0 {
        lemma_powers_agree((bytes.len() - 1) as nat);
    }
}

proof fn lemma_powers_agree(count: nat)
    ensures
        power_of_128(count) == pow(128, count),
    decreases count,
{
    reveal(pow);
    if count > 0 {
        lemma_powers_agree((count - 1) as nat);
    }
}

/// A field of a message that is passed over ends where its wire type says: behind its
/// number, behind eight bytes, behind the bytes whose length it gives, or behind four
/// bytes. There are no other wire types.
pub proof fn unknown_fields_end_by_their_wire_type(wire: u64, data: Seq<u8>, pos: int)
    requires
        0 <= pos <= data.len() <= 0xffff_ffff,
    ensures
        wire == 0 ==> (skip_at(wire, data, pos) is Ok <==> varint_at(data, pos) is Ok),
        wire == 0 && varint_at(data, pos) is Ok ==> skip_at(wire, data, pos)->Ok_0 == varint_at(
            data,
            pos,
        )->Ok_0.1,
        wire == 1 ==> (skip_at(wire, data, pos) is Ok <==> data.len() - pos >= 8),
        wire == 1 && data.len() - pos >= 8 ==> skip_at(wire, data, pos)->Ok_0 == pos + 8,
        wire == 2 ==> (skip_at(wire, data, pos) is Ok <==> len_at(data, pos) is Ok),
        wire == 2 && len_at(data, pos) is Ok ==> skip_at(wire, data, pos)->Ok_0 == len_at(
            data,
            pos,
        )->Ok_0.1,
        wire == 5 ==> (skip_at(wire, data, pos) is Ok <==> data.len() - pos >= 4),
        wire == 5 && data.len() - pos >= 4 ==> skip_at(wire, data, pos)->Ok_0 == pos + 4,
        wire == 3 || wire == 4 || wire >= 6 ==> skip_at(wire, data, pos) is Err,
{
}

/// Numbers that are packed are read one after another.
pub proof fn packed_numbers_are_read_in_order(
    before: Seq<u8>,
    value: u64,
    after: Seq<u8>,
    found: Seq<u64>,
)
    ensures
        packed_from(
            before + varint_bytes(value as nat) + after,
            before.len() as int,
            found,
        ) == packed_from(
            before + varint_bytes(value as nat) + after,
            (before.len() + varint_bytes(value as nat).len()) as int,
            found.push(value),
        ),
{
    varint_reads_back(before, value, after);
    lemma_varint_bytes(value as nat);
}

/// The numbers of a memory access go to the fields that their tags name: instruction,
/// accessed address, value and size. Other numbers are passed over.
pub proof fn access_fields_go_to_their_places(
    before: Seq<u8>,
    tag: u8,
    value: u64,
    after: Seq<u8>,
    message: MemAccess,
)
    requires
        tag < 128,
        tag % 8 == 0,
    ensures
        ({
            let data = before + seq![tag] + varint_bytes(value as nat) + after;
            let start = before.len() as int;
            let end = start + 1 + varint_bytes(value as nat).len();
            let read = mem_access_from(data, start, message);
            &&& tag == 0x08 ==> read == mem_access_from(data, end, MemAccess { inst_addr: value, ..message })
            &&& tag == 0x10 ==> read == mem_access_from(data, end, MemAccess { access_addr: value, ..message })
            &&& tag == 0x18 ==> read == mem_access_from(data, end, MemAccess { value, ..message })
            &&& tag == 0x20 ==> read == mem_access_from(data, end, MemAccess { size: (value % 0x1_0000_0000) as u32, ..message })
            &&& tag != 0x08 && tag != 0x10 && tag != 0x18 && tag != 0x20 ==> read == mem_access_from(
                data,
                end,
                message,
            )
            &&& mem_access_from(data, data.len() as int, message) == Ok::<MemAccess, Seq<char>>(message)
        }),
{
    casts_keep_the_low_bits(value, 0);
    lemma_number_field(before, tag, value, after);
    let data = before + seq![tag] + varint_bytes(value as nat) + after;
    assert(before.len() < data.len());
    assert(tag as u64 / 8 == (tag / 8) as u64 && tag as u64 % 8 == 0);
}

/// The numbers of an external return go to the fields that their tags name: the address
/// and the value. Other numbers are passed over.
pub proof fn return_fields_go_to_their_places(
    before: Seq<u8>,
    tag: u8,
    value: u64,
    after: Seq<u8>,
    message: ExternalReturn,
)
    requires
        tag < 128,
        tag % 8 == 0,
    ensures
        ({
            let data = before + seq![tag] + varint_bytes(value as nat) + after;
            let start = before.len() as int;
            let end = start + 1 + varint_bytes(value as nat).len();
            let read = external_return_from(data, start, message);
            &&& tag == 0x08 ==> read == external_return_from(data, end, ExternalReturn { return_addr: value, ..message })
            &&& tag == 0x10 ==> read == external_return_from(data, end, ExternalReturn { return_value: value, ..message })
            &&& tag != 0x08 && tag != 0x10 ==> read == external_return_from(
                data,
                end,
                message,
            )
            &&& external_return_from(data, data.len() as int, message) == Ok::<ExternalReturn, Seq<char>>(message)
        }),
{
    casts_keep_the_low_bits(value, 0);
    lemma_number_field(before, tag, value, after);
    let data = before + seq![tag] + varint_bytes(value as nat) + after;
    assert(before.len() < data.len());
    assert(tag as u64 / 8 == (tag / 8) as u64 && tag as u64 % 8 == 0);
}

/// The numbers of a piece of code go to the fields that their tags name: start, end,
/// permissions and offset. Other numbers are passed over.
pub proof fn chunk_numbers_go_to_their_places(
    before: Seq<u8>,
    tag: u8,
    value: u64,
    after: Seq<u8>,
    message: DynamicExecChunkView,
)
    requires
        tag < 128,
        tag % 8 == 0,
    ensures
        ({
            let data = before + seq![tag] + varint_bytes(value as nat) + after;
            let start = before.len() as int;
            let end = start + 1 + varint_bytes(value as nat).len();
            let read = dynamic_exec_chunk_from(data, start, message);
            &&& tag == 0x08 ==> read == dynamic_exec_chunk_from(data, end, DynamicExecChunkView { start_addr: value, ..message })
            &&& tag == 0x10 ==> read == dynamic_exec_chunk_from(data, end, DynamicExecChunkView { end_addr: value, ..message })
            &&& tag == 0x18 ==> read == dynamic_exec_chunk_from(data, end, DynamicExecChunkView { perm: (value % 0x1_0000_0000) as u32, ..message })
            &&& tag == 0x28 ==> read == dynamic_exec_chunk_from(data, end, DynamicExecChunkView { chunk_offset: value, ..message })
            &&& tag != 0x08 && tag != 0x10 && tag != 0x18 && tag != 0x28 ==> read == dynamic_exec_chunk_from(
                data,
                end,
                message,
            )
            &&& dynamic_exec_chunk_from(data, data.len() as int, message) == Ok::<DynamicExecChunkView, Seq<char>>(message)
        }),
{
    casts_keep_the_low_bits(value, 0);
    lemma_number_field(before, tag, value, after);
    let data = before + seq![tag] + varint_bytes(value as nat) + after;
    assert(before.len() < data.len());
    assert(tag as u64 / 8 == (tag / 8) as u64 && tag as u64 % 8 == 0);
}

/// The numbers of a context go to the fields that their tags name: registers and vector
/// words one by one, the others as they are. Other numbers are passed over.
pub proof fn context_numbers_go_to_their_places(
    before: Seq<u8>,
    tag: u8,
    value: u64,
    after: Seq<u8>,
    message: TraceContextView,
)
    requires
        tag < 128,
        tag % 8 == 0,
    ensures
        ({
            let data = before + seq![tag] + varint_bytes(value as nat) + after;
            let start = before.len() as int;
            let end = start + 1 + varint_bytes(value as nat).len();
            let read = trace_context_from(data, start, message);
            &&& tag == 0x08 ==> read == trace_context_from(data, end, TraceContextView { x: message.x.push(value), ..message })
            &&& tag == 0x10 ==> read == trace_context_from(data, end, TraceContextView { sp: value, ..message })
            &&& tag == 0x18 ==> read == trace_context_from(data, end, TraceContextView { pc: value, ..message })
            &&& tag == 0x20 ==> read == trace_context_from(data, end, TraceContextView { nzcv: value, ..message })
            &&& tag == 0x28 ==> read == trace_context_from(data, end, TraceContextView { tpidr_el0: value, ..message })
            &&& tag == 0x30 ==> read == trace_context_from(data, end, TraceContextView { q_words: message.q_words + 1, ..message })
            &&& tag == 0x38 ==> read == trace_context_from(data, end, TraceContextView { fpcr: value, ..message })
            &&& tag == 0x40 ==> read == trace_context_from(data, end, TraceContextView { fpsr: value, ..message })
            &&& tag != 0x08 && tag != 0x10 && tag != 0x18 && tag != 0x20 && tag != 0x28 && tag != 0x30 && tag != 0x38 && tag != 0x40 ==> read == trace_context_from(
                data,
                end,
                message,
            )
            &&& trace_context_from(data, data.len() as int, message) == Ok::<TraceContextView, Seq<char>>(message)
        }),
{
    casts_keep_the_low_bits(value, 0);
    lemma_number_field(before, tag, value, after);
    let data = before + seq![tag] + varint_bytes(value as nat) + after;
    assert(before.len() < data.len());
    assert(message.x + seq![value] =~= message.x.push(value));
    assert(tag as u64 / 8 == (tag / 8) as u64 && tag as u64 % 8 == 0);
}

/// The number of metadata with the second tag is the module's base. Other numbers are
/// passed over.
pub proof fn metadata_numbers_go_to_their_places(
    before: Seq<u8>,
    tag: u8,
    value: u64,
    after: Seq<u8>,
    message: TraceBundleMetadataView,
)
    requires
        tag < 128,
        tag % 8 == 0,
    ensures
        ({
            let data = before + seq![tag] + varint_bytes(value as nat) + after;
            let start = before.len() as int;
            let end = start + 1 + varint_bytes(value as nat).len();
            let read = metadata_from(data, start, message);
            &&& tag == 0x10 ==> read == metadata_from(data, end, TraceBundleMetadataView { module_base: value, ..message })
            &&& tag != 0x10 ==> read == metadata_from(
                data,
                end,
                message,
            )
            &&& metadata_from(data, data.len() as int, message) == Ok::<TraceBundleMetadataView, Seq<char>>(message)
        }),
{
    casts_keep_the_low_bits(value, 0);
    lemma_number_field(before, tag, value, after);
    let data = before + seq![tag] + varint_bytes(value as nat) + after;
    assert(before.len() < data.len());
    assert(tag as u64 / 8 == (tag / 8) as u64 && tag as u64 % 8 == 0);
}

/// The bytes of a piece of code go to the fields that their tags name: the path is the text
/// that they encode, and of the code only its length is kept. The path of metadata is such
/// a text, too.
pub proof fn texts_go_to_their_places(
    before: Seq<u8>,
    payload: Seq<u8>,
    after: Seq<u8>,
    chunk: DynamicExecChunkView,
    metadata: TraceBundleMetadataView,
)
    requires
        before.len() + payload.len() + after.len() <= 0xffff_ffff_ffff,
    ensures
        ({
            let length = varint_bytes(payload.len());
            let start = before.len() as int;
            let end = start + 1 + length.len() + payload.len();
            let path = before + seq![0x22u8] + length + payload + after;
            let code = before + seq![0x32u8] + length + payload + after;
            let module = before + seq![0x0au8] + length + payload + after;
            &&& valid_utf8(payload) ==> dynamic_exec_chunk_from(path, start, chunk)
                == dynamic_exec_chunk_from(
                path,
                end,
                DynamicExecChunkView { path: decode_utf8(payload), ..chunk },
            )
            &&& !valid_utf8(payload) ==> dynamic_exec_chunk_from(path, start, chunk) is Err
            &&& dynamic_exec_chunk_from(code, start, chunk) == dynamic_exec_chunk_from(
                code,
                end,
                DynamicExecChunkView { data_len: payload.len(), ..chunk },
            )
            &&& valid_utf8(payload) ==> metadata_from(module, start, metadata) == metadata_from(
                module,
                end,
                TraceBundleMetadataView { path: decode_utf8(payload), ..metadata },
            )
            &&& !valid_utf8(payload) ==> metadata_from(module, start, metadata) is Err
        }),
{
    lemma_bytes_field(before, 0x22, payload, after);
    lemma_bytes_field(before, 0x32, payload, after);
    lemma_bytes_field(before, 0x0a, payload, after);
}

/// An event message holds the event that its tag names: an address, or a message of the
/// kind of that tag.
pub proof fn event_fields_name_their_kind(
    before: Seq<u8>,
    payload: Seq<u8>,
    value: u64,
    after: Seq<u8>,
    event: EventView,
)
    requires
        before.len() + payload.len() + after.len() <= 0xffff_ffff_ffff,
    ensures
        ({
            let number = varint_bytes(value as nat);
            let data = before + seq![0x08u8] + number + after;
            event_from(data, before.len() as int, event) == event_from(
                data,
                (before.len() + 1 + number.len()) as int,
                EventView::InstructionAddr(value),
            )
        }),
        ({
            let length = varint_bytes(payload.len());
            let start = before.len() as int;
            let end = start + 1 + length.len() + payload.len();
            let access = before + seq![0x12u8] + length + payload + after;
            let back = before + seq![0x1au8] + length + payload + after;
            let code = before + seq![0x22u8] + length + payload + after;
            let context = before + seq![0x2au8] + length + payload + after;
            let module = before + seq![0x32u8] + length + payload + after;
            &&& mem_access_from(
                payload,
                0,
                MemAccess { inst_addr: 0, access_addr: 0, value: 0, size: 0 },
            ) matches Ok(message) ==> event_from(access, start, event) == event_from(
                access,
                end,
                EventView::MemAccess(message),
            )
            &&& external_return_from(
                payload,
                0,
                ExternalReturn { return_addr: 0, return_value: 0 },
            ) matches Ok(message) ==> event_from(back, start, event) == event_from(
                back,
                end,
                EventView::ExternalReturn(message),
            )
            &&& dynamic_exec_chunk_from(payload, 0, empty_dynamic_exec_chunk()) matches Ok(message)
                ==> event_from(code, start, event) == event_from(
                code,
                end,
                EventView::DynamicExecChunk(message),
            )
            &&& trace_context_from(payload, 0, empty_trace_context()) matches Ok(message)
                ==> event_from(context, start, event) == event_from(
                context,
                end,
                EventView::TraceContext(message),
            )
            &&& metadata_from(payload, 0, empty_metadata()) matches Ok(message) ==> event_from(
                module,
                start,
                event,
            ) == event_from(module, end, EventView::TraceBundleMetadata(message))
        }),
{
    lemma_number_field(before, 0x08, value, after);
    lemma_bytes_field(before, 0x12, payload, after);
    lemma_bytes_field(before, 0x1a, payload, after);
    lemma_bytes_field(before, 0x22, payload, after);
    lemma_bytes_field(before, 0x2a, payload, after);
    lemma_bytes_field(before, 0x32, payload, after);
}

/// A message without fields holds zeros and empty texts.
pub proof fn empty_messages_hold_nothing()
    ensures
        empty_dynamic_exec_chunk() == (DynamicExecChunkView {
            start_addr: 0,
            end_addr: 0,
            perm: 0,
            path: ""@,
            chunk_offset: 0,
            data_len: 0,
        }),
        empty_trace_context() == (TraceContextView {
            x: Seq::empty(),
            sp: 0,
            pc: 0,
            nzcv: 0,
            tpidr_el0: 0,
            q_words: 0,
            fpcr: 0,
            fpsr: 0,
        }),
        empty_metadata() == (TraceBundleMetadataView { path: ""@, module_base: 0 }),
{
    reveal_strlit("");
    assert(""@ =~= Seq::<char>::empty());
}

/// A bundle holds events one after another, each behind its length; a message that is cut
/// off or cannot be read ends the row with an error.
pub proof fn bundles_hold_events_in_order(
    before: Seq<u8>,
    payload: Seq<u8>,
    after: Seq<u8>,
    found: Seq<EventView>,
)
    requires
        before.len() + payload.len() + after.len() <= 0xffff_ffff_ffff,
    ensures
        ({
            let length = varint_bytes(payload.len());
            let data = before + length + payload + after;
            let read = bundle_events(data, before.len() as int, found);
            &&& event_from(payload, 0, EventView::Unknown) matches Ok(event) ==> read
                == bundle_events(
                data,
                (before.len() + length.len() + payload.len()) as int,
                found.push(event),
            )
            &&& event_from(payload, 0, EventView::Unknown) is Err ==> read.0 == found
                && read.1 is Some
            &&& bundle_events(data, data.len() as int, found) == (found, None::<Seq<char>>)
        }),
        ({
            let length = varint_bytes(payload.len() + 1);
            let data = before + length + payload;
            let read = bundle_events(data, before.len() as int, found);
            read.0 == found && read.1 is Some
        }),
{
    let length = varint_bytes(payload.len());
    let data = before + length + payload + after;
    varint_reads_back(before, payload.len() as u64, payload + after);
    assert(data =~= before + length + (payload + after));
    lemma_varint_bytes(payload.len());
    assert(power_of_128(10) > u64::MAX) by {
        reveal_with_fuel(power_of_128, 11);
    }
    lemma_varint_len(payload.len(), 10);
    let from = before.len() as int + length.len();
    assert(data.subrange(from, from + payload.len()) =~= payload);
    varint_reads_back(before, (payload.len() + 1) as u64, payload);
    lemma_varint_bytes(payload.len() + 1);
    lemma_varint_len(payload.len() + 1, 10);
}

} // verus!
