//! Reading and writing text in memory.

use crate::memory_access::{MemoryAccessError, MemoryOperation, EOVERFLOW};
use crate::script::{joined, range_error, type_error, ErrorKind, ScriptError};
use crate::text::{lossy_text, numeral, push_numeral, utf8_lossy};
use crate::utf16::{decode_utf16, encode_utf16, text_units, units_text_from};
use vstd::prelude::*;
use vstd::string::*;
use vstd::utf8::{decode_utf8, encode_utf8, valid_utf8};

verus! {

/// Longest array of bytes that is read.
pub const MAX_READ_SIZE: usize = 1024 * 1024 * 1024;

/// Longest text that is read, in bytes.
pub const MAX_STRING_SIZE: usize = 16 * 1024 * 1024;

/// The longest front of some bytes, up to a length, that is valid UTF-8.
pub open spec fn valid_front(bytes: Seq<u8>, length: nat) -> nat
    decreases length,
{
    if length == 0 || valid_utf8(bytes.take(length as int)) {
        length
    } else {
        valid_front(bytes, (length - 1) as nat)
    }
}

/// `str::from_utf8` succeeds exactly on valid UTF-8, with the text that the bytes encode.
/// Otherwise its error's `valid_up_to` is the largest length whose bytes are valid.
#[verifier::external_body]
fn strict_text(bytes: &[u8]) -> (result: Result<String, usize>)
    ensures
        result is Ok <==> valid_utf8(bytes@),
        result matches Ok(text) ==> text@ == decode_utf8(bytes@),
        result matches Err(count) ==> count == valid_front(bytes@, bytes@.len()),
{
    std::str::from_utf8(bytes).map(|text| text.to_string()).map_err(|error| error.valid_up_to())
}

/// The length that a script gives for a text, in units. A negative one stands for none.
pub open spec fn optional_length_of(length: Option<Option<i64>>, operation: Seq<char>) -> Result<
    Option<usize>,
    (ErrorKind, Seq<char>),
> {
    match length {
        None => Ok(None),
        Some(None) => Err((ErrorKind::TypeError, operation + ": length must be an integer"@)),
        Some(Some(raw)) => if raw < 0 {
            Ok(None)
        } else if raw > MAX_STRING_SIZE {
            Err(
                (
                    ErrorKind::RangeError,
                    operation + ": length exceeds maximum ("@ + numeral(
                        MAX_STRING_SIZE as nat,
                        10,
                    ) + ")"@,
                ),
            )
        } else {
            Ok(Some(raw as usize))
        },
    }
}

/// The length that a script gives for a text: `None` where it gives none, `Some(None)`
/// where what it gives is no integer.
pub fn parse_optional_length(length: Option<Option<i64>>, operation: &str) -> (result: Result<
    Option<usize>,
    ScriptError,
>)
    ensures
        match (result, optional_length_of(length, operation@)) {
            (Ok(found), Ok(expected)) => found == expected,
            (Err(error), Err(expected)) => error@ == expected,
            _ => false,
        },
{
    let raw: i64 = match length {
        None => {
            return Ok(None);
        },
        Some(None) => {
            return Err(
                ScriptError {
                    kind: ErrorKind::TypeError,
                    message: joined(operation, ": length must be an integer"),
                },
            );
        },
        Some(Some(raw)) => raw,
    };
    if raw < 0 {
        return Ok(None);
    }
    if raw as u64 > MAX_STRING_SIZE as u64 {
        let mut message: String = joined(operation, ": length exceeds maximum (");
        push_numeral(&mut message, MAX_STRING_SIZE as u64, 10);
        message.append(")");
        return Err(ScriptError { kind: ErrorKind::RangeError, message });
    }
    Ok(Some(raw as usize))
}

/// The length that a script gives for an array of bytes.
pub fn parse_array_length(length: Option<i64>) -> (result: Result<usize, ScriptError>)
    ensures
        result is Ok <==> length is Some && 0 <= length->0 <= MAX_READ_SIZE,
        result matches Ok(bytes) ==> bytes == length->0,
        length is None ==> result is Err && result->Err_0@ == (
            ErrorKind::TypeError,
            "readByteArray: length must be an integer"@,
        ),
        result is Err && length is Some ==> result->Err_0@ == (
            ErrorKind::RangeError,
            "readByteArray: length must be between 0 and "@ + numeral(MAX_READ_SIZE as nat, 10),
        ),
{
    match length {
        None => Err(type_error("readByteArray: length must be an integer")),
        Some(raw) => {
            if raw < 0 || raw as u64 > MAX_READ_SIZE as u64 {
                let mut message: String = String::from_str(
                    "readByteArray: length must be between 0 and ",
                );
                push_numeral(&mut message, MAX_READ_SIZE as u64, 10);
                return Err(ScriptError { kind: ErrorKind::RangeError, message });
            }
            Ok(raw as usize)
        },
    }
}

/// Whether a terminator stands at a position: a zero byte, or a zero unit of two bytes at
/// an even position.
pub open spec fn terminated_at(bytes: Seq<u8>, unit_size: usize, pos: int) -> bool {
    if unit_size == 1 {
        0 <= pos < bytes.len() && bytes[pos] == 0
    } else {
        0 <= pos && pos + 1 < bytes.len() && pos % 2 == 0 && bytes[pos] == 0 && bytes[pos + 1] == 0
    }
}

/// Whether there is no terminator.
pub open spec fn unterminated(bytes: Seq<u8>, unit_size: usize) -> bool {
    forall|pos: int| !#[trigger] terminated_at(bytes, unit_size, pos)
}

/// A text that is read up to its terminator. Reads never cross a page, so that a text at
/// the end of a mapping can be read.
#[derive(Debug)]
pub struct TerminatedReader {
    pub address: u64,
    pub unit_size: usize,
    pub bytes: Vec<u8>,
}

/// What has to be read next, or why that cannot be.
#[derive(Clone, Copy, Debug, PartialEq, Eq, Structural)]
pub enum ReaderStep {
    Read { address: u64, length: usize },
    Failed(MemoryAccessError),
}

/// The length of the next read: up to the end of the page, and whole units.
pub open spec fn next_read_length(cursor: u64, read: nat, unit_size: usize) -> nat {
    let page = (0x1000 - cursor % 0x1000) as nat;
    let left = (MAX_STRING_SIZE - read) as nat;
    let length = if page <= left {
        page
    } else {
        left
    };
    if unit_size == 2 {
        let whole = (length - length % 2) as nat;
        if whole == 0 {
            2
        } else {
            whole
        }
    } else {
        length
    }
}

impl TerminatedReader {
    /// What has been read holds whole units and no terminator.
    pub open spec fn wf(&self) -> bool {
        &&& self.unit_size == 1 || self.unit_size == 2
        &&& unterminated(self.bytes@, self.unit_size)
        &&& self.unit_size == 2 ==> self.bytes@.len() % 2 == 0
        &&& self.bytes@.len() <= MAX_STRING_SIZE
    }

    /// Begins to read a text of bytes or of units of two bytes.
    pub fn new(address: u64, unit_size: usize) -> (reader: TerminatedReader)
        requires
            unit_size == 1 || unit_size == 2,
        ensures
            reader.wf(),
            reader.address == address,
            reader.unit_size == unit_size,
            reader.bytes@ == Seq::<u8>::empty(),
    {
        TerminatedReader { address, unit_size, bytes: Vec::new() }
    }

    /// What has to be read next. A text that is too long, or that passes the end of
    /// memory, fails.
    pub fn next(&self) -> (step: ReaderStep)
        requires
            self.wf(),
        ensures
            step == if self.bytes@.len() >= MAX_STRING_SIZE {
                ReaderStep::Failed(
                    MemoryAccessError {
                        operation: MemoryOperation::Read,
                        address: if self.address + self.bytes@.len() > u64::MAX {
                            u64::MAX
                        } else {
                            (self.address + self.bytes@.len()) as u64
                        },
                        size: 1,
                        errno: EOVERFLOW,
                    },
                )
            } else if self.address + self.bytes@.len() > u64::MAX {
                ReaderStep::Failed(
                    MemoryAccessError {
                        operation: MemoryOperation::Read,
                        address: self.address,
                        size: self.bytes@.len() as usize,
                        errno: EOVERFLOW,
                    },
                )
            } else {
                ReaderStep::Read {
                    address: (self.address + self.bytes@.len()) as u64,
                    length: next_read_length(
                        (self.address + self.bytes@.len()) as u64,
                        self.bytes@.len(),
                        self.unit_size,
                    ) as usize,
                }
            },
            step matches ReaderStep::Read { length, .. } ==> {
                &&& 0 < length <= 0x1000
                &&& self.unit_size == 2 ==> length % 2 == 0
                &&& self.bytes@.len() + length <= MAX_STRING_SIZE
            },
    {
        let read: usize = self.bytes.len();
        if read >= MAX_STRING_SIZE {
            return ReaderStep::Failed(
                MemoryAccessError {
                    operation: MemoryOperation::Read,
                    address: self.address.saturating_add(read as u64),
                    size: 1,
                    errno: EOVERFLOW,
                },
            );
        }
        let cursor: u64 = match self.address.checked_add(read as u64) {
            Some(cursor) => cursor,
            None => {
                return ReaderStep::Failed(
                    MemoryAccessError {
                        operation: MemoryOperation::Read,
                        address: self.address,
                        size: read,
                        errno: EOVERFLOW,
                    },
                );
            },
        };
        let page: usize = 0x1000 - (cursor % 0x1000) as usize;
        let left: usize = MAX_STRING_SIZE - read;
        let mut length: usize = if page <= left {
            page
        } else {
            left
        };
        if self.unit_size == 2 {
            length = length - length % 2;
            if length == 0 {
                length = 2;
            }
        }
        ReaderStep::Read { address: cursor, length }
    }

    /// Takes in what was read. The result is the text without its terminator, once that
    /// has been found.
    pub fn feed(&mut self, chunk: &[u8]) -> (text: Option<Vec<u8>>)
        requires
            old(self).wf(),
            old(self).unit_size == 2 ==> chunk@.len() % 2 == 0,
            old(self).bytes@.len() + chunk@.len() <= MAX_STRING_SIZE,
        ensures
            match text {
                Some(bytes) => {
                    let all = old(self).bytes@ + chunk@;
                    &&& terminated_at(all, old(self).unit_size, bytes@.len() as int)
                    &&& forall|pos: int|
                        0 <= pos < bytes@.len() ==> !#[trigger] terminated_at(
                            all,
                            old(self).unit_size,
                            pos,
                        )
                    &&& bytes@ == all.take(bytes@.len() as int)
                },
                None => {
                    &&& final(self).wf()
                    &&& final(self).address == old(self).address
                    &&& final(self).unit_size == old(self).unit_size
                    &&& final(self).bytes@ == old(self).bytes@ + chunk@
                },
            },
    {
        let ghost before = self.bytes@;
        let ghost all = before + chunk@;
        let mut index: usize = 0;
        let unit: usize = self.unit_size;
        assert forall|pos: int| 0 <= pos < before.len() implies !#[trigger] terminated_at(
            all,
            unit,
            pos,
        ) by {
            lemma_prefix_unterminated(before, chunk@, unit, pos);
        }
        while chunk.len() - index >= unit
            invariant
                unit == self.unit_size,
                unit == 1 || unit == 2,
                index <= chunk@.len(),
                self.address == old(self).address,
                self.bytes@ == before,
                before == old(self).bytes@,
                unit == old(self).unit_size,
                all == before + chunk@,
                all.len() <= MAX_STRING_SIZE,
                unit == 2 ==> before.len() % 2 == 0 && chunk@.len() % 2 == 0 && index % 2 == 0,
                unterminated(before, unit),
                forall|pos: int|
                    0 <= pos < before.len() + index ==> !#[trigger] terminated_at(all, unit, pos),
            decreases chunk@.len() - index,
        {
            let found: bool = if unit == 1 {
                chunk[index] == 0
            } else {
                chunk[index] == 0 && chunk[index + 1] == 0
            };
            if found {
                let mut bytes: Vec<u8> = Vec::new();
                core::mem::swap(&mut self.bytes, &mut bytes);
                let part: &[u8] = vstd::slice::slice_subrange(chunk, 0, index);
                bytes.extend_from_slice(part);
                assert(bytes@ =~= all.take(before.len() + index));
                assert(terminated_at(all, unit, before.len() + index));
                return Some(bytes);
            }
            let ghost here = before.len() + index;
            index = index + unit;
            assert forall|pos: int| 0 <= pos < before.len() + index implies !#[trigger] terminated_at(
                all,
                unit,
                pos,
            ) by {
                if pos == here {
                    assert(all[here] == chunk@[here - before.len()]);
                    if unit == 2 {
                        assert(all[here + 1] == chunk@[here + 1 - before.len()]);
                    }
                }
            }
        }
        assert forall|pos: int| !#[trigger] terminated_at(all, unit, pos) by {
            if 0 <= pos < before.len() + index {
                assert(!terminated_at(all, unit, pos));
            }
        }
        self.bytes.extend_from_slice(chunk);
        assert(self.bytes@ =~= all);
        None
    }
}

proof fn lemma_prefix_unterminated(bytes: Seq<u8>, more: Seq<u8>, unit_size: usize, pos: int)
    requires
        unterminated(bytes, unit_size),
        unit_size == 1 || unit_size == 2,
        unit_size == 2 ==> bytes.len() % 2 == 0,
        0 <= pos < bytes.len(),
    ensures
        !terminated_at(bytes + more, unit_size, pos),
{
    assert(!terminated_at(bytes, unit_size, pos));
}

/// How many bytes a text of a given length has, or that they cannot be counted.
pub fn text_byte_length(length: usize, unit_size: usize, operation: &str) -> (result: Result<
    usize,
    ScriptError,
>)
    ensures
        result is Ok <==> length * unit_size <= usize::MAX,
        result matches Ok(bytes) ==> bytes == length * unit_size,
        result matches Err(error) ==> error@ == (
            ErrorKind::RangeError,
            operation@ + ": length overflow"@,
        ),
{
    match length.checked_mul(unit_size) {
        Some(bytes) => Ok(bytes),
        None => Err(
            ScriptError {
                kind: ErrorKind::RangeError,
                message: joined(operation, ": length overflow"),
            },
        ),
    }
}

/// The text of bytes that were read as UTF-8. Strict reading refuses bytes that are not
/// valid and says where the valid ones end; other reading replaces them.
pub fn decode_text(bytes: &[u8], strict: bool, operation: &str) -> (result: Result<
    String,
    ScriptError,
>)
    ensures
        valid_utf8(bytes@) ==> result is Ok && result->Ok_0@ == decode_utf8(bytes@),
        !valid_utf8(bytes@) && !strict ==> result is Ok && result->Ok_0@ == utf8_lossy(bytes@),
        !valid_utf8(bytes@) && strict ==> result is Err && result->Err_0@ == (
            ErrorKind::RangeError,
            operation@ + ": invalid UTF-8 at byte "@ + numeral(
                valid_front(bytes@, bytes@.len()),
                10,
            ),
        ),
{
    if !strict {
        return Ok(lossy_text(bytes));
    }
    match strict_text(bytes) {
        Ok(text) => Ok(text),
        Err(count) => {
            let mut message: String = joined(operation, ": invalid UTF-8 at byte ");
            push_numeral(&mut message, count as u64, 10);
            Err(ScriptError { kind: ErrorKind::RangeError, message })
        },
    }
}

/// Bytes as units of two, low byte first. A byte that is left over does not count.
pub open spec fn units_of(bytes: Seq<u8>) -> Seq<u16> {
    Seq::new(bytes.len() / 2, |i: int| (bytes[2 * i] + 256 * bytes[2 * i + 1]) as u16)
}

/// The text of bytes that were read as UTF-16.
pub fn decode_utf16_bytes(bytes: &[u8]) -> (result: Result<String, ScriptError>)
    ensures
        match (result, units_text_from(units_of(bytes@), 0, Seq::empty())) {
            (Ok(text), Some(expected)) => text@ == expected,
            (Err(error), None) => error@ == (
                ErrorKind::RangeError,
                "readUtf16String: invalid UTF-16"@,
            ),
            _ => false,
        },
{
    let length: usize = bytes.len();
    let count: usize = length / 2;
    let mut units: Vec<u16> = Vec::new();
    let mut i: usize = 0;
    while i < count
        invariant
            i <= count,
            length == bytes@.len(),
            count == length / 2,
            units@ == units_of(bytes@).take(i as int),
        decreases count - i,
    {
        units.push(bytes[2 * i] as u16 + 256 * (bytes[2 * i + 1] as u16));
        i = i + 1;
        assert(units@ =~= units_of(bytes@).take(i as int));
    }
    assert(units@ =~= units_of(bytes@));
    match decode_utf16(units.as_slice()) {
        Some(text) => Ok(text),
        None => Err(range_error("readUtf16String: invalid UTF-16")),
    }
}

/// The bytes of units of two, low byte first.
pub open spec fn unit_bytes(units: Seq<u16>) -> Seq<u8> {
    Seq::new(
        2 * units.len(),
        |i: int|
            if i % 2 == 0 {
                (units[i / 2] % 256) as u8
            } else {
                (units[i / 2] / 256) as u8
            },
    )
}

/// Text as it is written to memory: UTF-8 with a zero byte behind it, or UTF-16 with a
/// zero unit.
pub open spec fn written_text(text: Seq<char>, utf16: bool) -> Seq<u8> {
    if utf16 {
        unit_bytes(text_units(text).push(0))
    } else {
        encode_utf8(text).push(0)
    }
}

/// Text as it is written to memory.
pub fn write_string_bytes(text: &str, utf16: bool) -> (bytes: Vec<u8>)
    ensures
        bytes@ == written_text(text@, utf16),
{
    if utf16 {
        let chars: Vec<char> = crate::text::chars_of(text);
        let mut units: Vec<u16> = encode_utf16(chars.as_slice());
        units.push(0);
        let mut bytes: Vec<u8> = Vec::new();
        let mut i: usize = 0;
        while i < units.len()
            invariant
                i <= units@.len(),
                bytes@.len() == 2 * i,
                bytes@ == unit_bytes(units@).take(2 * i as int),
            decreases units@.len() - i,
        {
            bytes.push((units[i] % 256) as u8);
            bytes.push((units[i] / 256) as u8);
            i = i + 1;
            assert(bytes@ =~= unit_bytes(units@).take(2 * i as int));
        }
        assert(bytes@ =~= unit_bytes(units@));
        bytes
    } else {
        let mut bytes: Vec<u8> = vstd::slice::slice_to_vec(text.as_bytes());
        bytes.push(0);
        bytes
    }
}

/// The units of bytes that units were written to are those units.
pub proof fn units_survive_memory(units: Seq<u16>)
    ensures
        units_of(unit_bytes(units)) == units,
{
    assert forall|i: int| 0 <= i < units.len() implies #[trigger] units_of(unit_bytes(units))[i]
        == units[i] by {
        assert(unit_bytes(units)[2 * i] == (units[i] % 256) as u8);
        assert(unit_bytes(units)[2 * i + 1] == (units[i] / 256) as u8);
    }
    assert(units_of(unit_bytes(units)) =~= units);
}

/// Reading the units of a text that was written gives the text.
pub proof fn utf16_text_survives_memory(text: Seq<char>)
    ensures
        units_text_from(units_of(unit_bytes(text_units(text))), 0, Seq::empty()) == Some(text),
{
    units_survive_memory(text_units(text));
    crate::utf16::units_read_back(Seq::empty(), text, Seq::empty());
    assert(Seq::<u16>::empty() + text_units(text) =~= text_units(text));
    assert(Seq::<char>::empty() + text =~= text);
}

/// Units lie in memory low byte first, and are read so.
pub proof fn units_lie_low_byte_first(units: Seq<u16>, bytes: Seq<u8>, at: int)
    ensures
        unit_bytes(units).len() == 2 * units.len(),
        0 <= at < units.len() ==> unit_bytes(units)[2 * at] as int + 256 * unit_bytes(units)[2 * at
            + 1] as int == units[at],
        units_of(bytes).len() == bytes.len() / 2,
        0 <= at < bytes.len() / 2 ==> units_of(bytes)[at] as int == bytes[2 * at] as int + 256
            * bytes[2 * at + 1] as int,
{
    if 0 <= at < units.len() {
        assert((2 * at) / 2 == at && (2 * at + 1) / 2 == at);
    }
}

/// Text that is written ends with a terminator and holds the text in front of it: in UTF-8
/// and a zero byte, or in UTF-16 and two.
pub proof fn written_text_ends_with_zero(text: Seq<char>)
    ensures
        ({
            let bytes = written_text(text, false);
            &&& bytes.len() == encode_utf8(text).len() + 1
            &&& bytes.last() == 0
            &&& bytes.drop_last() == encode_utf8(text)
        }),
        ({
            let bytes = written_text(text, true);
            let end = bytes.len() as int;
            &&& end == 2 * text_units(text).len() + 2
            &&& bytes[end - 1] == 0
            &&& bytes[end - 2] == 0
            &&& units_of(bytes.take(end - 2)) == text_units(text)
        }),
{
    assert(written_text(text, false).drop_last() =~= encode_utf8(text));
    let bytes = written_text(text, true);
    let end = bytes.len() as int;
    let units = text_units(text);
    assert((end - 1) / 2 == units.len() && (end - 2) / 2 == units.len());
    assert(bytes.take(end - 2) =~= unit_bytes(units));
    units_survive_memory(units);
}

/// A read never crosses the end of a page of 4096 bytes unless a single unit lies across it,
/// is not empty while there is room for a text, and reads whole units.
pub proof fn reads_stay_in_their_page(cursor: u64, read: nat, unit_size: usize)
    requires
        read < MAX_STRING_SIZE,
        unit_size == 1 || unit_size == 2,
        unit_size == 2 ==> read % 2 == 0,
    ensures
        ({
            let length = next_read_length(cursor, read, unit_size);
            &&& length > 0
            &&& length % (unit_size as nat) == 0
            &&& read + length <= MAX_STRING_SIZE
            &&& cursor % 4096 + length <= 4096 || unit_size == 2 && length == 2 && cursor % 4096
                == 4095
            &&& read + 4096 <= MAX_STRING_SIZE && unit_size == 1 ==> cursor % 4096 + length == 4096
            &&& read + 4096 <= MAX_STRING_SIZE && unit_size == 2 ==> cursor % 4096 + length >= 4095
        }),
{
}

/// A text of bytes ends at a zero byte, and one of units at two zero bytes that are a unit.
pub proof fn texts_end_at_a_zero_unit(bytes: Seq<u8>, pos: int)
    ensures
        terminated_at(bytes, 1, pos) <==> 0 <= pos < bytes.len() && bytes[pos] == 0,
        terminated_at(bytes, 2, pos) <==> 0 <= pos && pos % 2 == 0 && pos / 2 < bytes.len() / 2
            && units_of(bytes)[pos / 2] == 0,
{
    if 0 <= pos && pos % 2 == 0 && pos / 2 < bytes.len() / 2 {
        assert(2 * (pos / 2) == pos);
    }
}

} // verus!
