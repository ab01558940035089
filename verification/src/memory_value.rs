//! Numbers and addresses in memory.

use crate::bytes::{
    le_bytes, le_bytes_keep_the_low_bytes, le_value, lemma_byte_ranges, lemma_le_bytes_len,
    lemma_le_value_bound, low_bytes_come_first, push_le, read_le,
};
use crate::memory_access::{access_error_text, MemoryAccessError};
use crate::pointer::{
    get_native_pointer_addr, signed_bits, unsigned_bits, value_address, PointerArgument,
};
use crate::script::{joined, ErrorKind, ScriptError};
use crate::text::{digits_value, parsed_u64};
use vstd::arithmetic::power::pow;
use vstd::prelude::*;
use vstd::string::*;

verus! {

/// What is read or written.
#[derive(Clone, Copy, Debug, PartialEq, Eq, Structural)]
pub enum ValueKind {
    S8,
    U8,
    S16,
    U16,
    S32,
    U32,
    S64,
    U64,
    Float,
    Double,
    Pointer,
}

/// A value that was read, as a script sees it. Floating-point numbers come as their bits.
#[derive(Clone, Copy, Debug, PartialEq, Eq, Structural)]
pub enum MemoryValue {
    Int(i32),
    Uint(u32),
    BigInt(i64),
    BigUint(u64),
    Float(u32),
    Double(u64),
    Pointer(u64),
}

/// A value that is to be written, as far as it converts. Floating-point numbers come as
/// their bits.
#[derive(Clone, Copy, Debug, PartialEq, Eq, Structural)]
pub struct WriteArgument {
    pub signed: Option<i64>,
    pub unsigned: Option<u64>,
    pub float: Option<u32>,
    pub double: Option<u64>,
    pub address: Option<u64>,
}

impl ValueKind {
    /// How many bytes a value takes.
    pub open spec fn width(self) -> nat {
        match self {
            ValueKind::S8 | ValueKind::U8 => 1,
            ValueKind::S16 | ValueKind::U16 => 2,
            ValueKind::S32 | ValueKind::U32 | ValueKind::Float => 4,
            ValueKind::S64 | ValueKind::U64 | ValueKind::Double | ValueKind::Pointer => 8,
        }
    }

    /// The name of a value in the names of operations.
    pub open spec fn suffix(self) -> Seq<char> {
        match self {
            ValueKind::S8 => "S8"@,
            ValueKind::U8 => "U8"@,
            ValueKind::S16 => "S16"@,
            ValueKind::U16 => "U16"@,
            ValueKind::S32 => "S32"@,
            ValueKind::U32 => "U32"@,
            ValueKind::S64 => "S64"@,
            ValueKind::U64 => "U64"@,
            ValueKind::Float => "Float"@,
            ValueKind::Double => "Double"@,
            ValueKind::Pointer => "Pointer"@,
        }
    }

    /// How many bytes a value takes.
    pub fn size(self) -> (size: usize)
        ensures
            size == self.width(),
    {
        match self {
            ValueKind::S8 | ValueKind::U8 => 1,
            ValueKind::S16 | ValueKind::U16 => 2,
            ValueKind::S32 | ValueKind::U32 | ValueKind::Float => 4,
            ValueKind::S64 | ValueKind::U64 | ValueKind::Double | ValueKind::Pointer => 8,
        }
    }

    fn suffix_text(self) -> (text: &'static str)
        ensures
            text@ == self.suffix(),
    {
        match self {
            ValueKind::S8 => "S8",
            ValueKind::U8 => "U8",
            ValueKind::S16 => "S16",
            ValueKind::U16 => "U16",
            ValueKind::S32 => "S32",
            ValueKind::U32 => "U32",
            ValueKind::S64 => "S64",
            ValueKind::U64 => "U64",
            ValueKind::Float => "Float",
            ValueKind::Double => "Double",
            ValueKind::Pointer => "Pointer",
        }
    }

    /// The name of the operation that reads such a value.
    pub fn read_name(self) -> (name: String)
        ensures
            name@ == "read"@ + self.suffix(),
    {
        joined("read", self.suffix_text())
    }

    /// The name of the operation that writes such a value.
    pub fn write_name(self) -> (name: String)
        ensures
            name@ == "write"@ + self.suffix(),
    {
        joined("write", self.suffix_text())
    }
}

/// A number with a sign, from one without.
pub open spec fn with_sign(value: int, half: int) -> int {
    if value < half {
        value
    } else {
        value - 2 * half
    }
}

/// Whether a value is what bytes hold.
pub open spec fn value_is(kind: ValueKind, bytes: Seq<u8>, value: MemoryValue) -> bool {
    let number = le_value(bytes) as int;
    match kind {
        ValueKind::S8 => value matches MemoryValue::Int(n) && n == with_sign(number, 0x80),
        ValueKind::U8 | ValueKind::U16 => value matches MemoryValue::Int(n) && n == number,
        ValueKind::S16 => value matches MemoryValue::Int(n) && n == with_sign(number, 0x8000),
        ValueKind::S32 => value matches MemoryValue::Int(n) && n == with_sign(number, 0x8000_0000),
        ValueKind::U32 => value matches MemoryValue::Uint(n) && n == number,
        ValueKind::S64 => value matches MemoryValue::BigInt(n) && n == with_sign(
            number,
            0x8000_0000_0000_0000,
        ),
        ValueKind::U64 => value matches MemoryValue::BigUint(n) && n == number,
        ValueKind::Float => value matches MemoryValue::Float(bits) && bits == number,
        ValueKind::Double => value matches MemoryValue::Double(bits) && bits == number,
        ValueKind::Pointer => value matches MemoryValue::Pointer(addr) && addr == number,
    }
}

/// The value that bytes hold.
pub fn decode_value(kind: ValueKind, bytes: &[u8]) -> (value: MemoryValue)
    requires
        bytes@.len() == kind.width(),
    ensures
        value_is(kind, bytes@, value),
{
    let number: u64 = read_le(bytes, 0, kind.size());
    proof {
        assert(bytes@.subrange(0, bytes@.len() as int) =~= bytes@);
        lemma_le_value_bound(bytes@);
        lemma_byte_ranges();
    }
    match kind {
        ValueKind::S8 => MemoryValue::Int(
            if number < 0x80 {
                number as i32
            } else {
                number as i32 - 0x100
            },
        ),
        ValueKind::U8 | ValueKind::U16 => MemoryValue::Int(number as i32),
        ValueKind::S16 => MemoryValue::Int(
            if number < 0x8000 {
                number as i32
            } else {
                number as i32 - 0x1_0000
            },
        ),
        ValueKind::S32 => MemoryValue::Int(
            if number < 0x8000_0000 {
                number as i32
            } else {
                (number as i64 - 0x1_0000_0000) as i32
            },
        ),
        ValueKind::U32 => MemoryValue::Uint(number as u32),
        ValueKind::S64 => MemoryValue::BigInt(signed_bits(number)),
        ValueKind::U64 => MemoryValue::BigUint(number),
        ValueKind::Float => MemoryValue::Float(number as u32),
        ValueKind::Double => MemoryValue::Double(number),
        ValueKind::Pointer => MemoryValue::Pointer(number),
    }
}

/// The number that is written, if the value converts to one.
pub open spec fn written_number(kind: ValueKind, value: WriteArgument) -> Option<int> {
    match kind {
        ValueKind::S8 | ValueKind::S16 | ValueKind::S32 | ValueKind::S64 => match value.signed {
            Some(number) => Some(number as int),
            None => None,
        },
        ValueKind::U8 | ValueKind::U16 | ValueKind::U32 | ValueKind::U64 => match value.unsigned {
            Some(number) => Some(number as int),
            None => None,
        },
        ValueKind::Float => match value.float {
            Some(bits) => Some(bits as int),
            None => None,
        },
        ValueKind::Double => match value.double {
            Some(bits) => Some(bits as int),
            None => None,
        },
        ValueKind::Pointer => match value.address {
            Some(addr) => Some(addr as int),
            None => None,
        },
    }
}

/// The bytes of a number: one that is too large loses its high bytes.
pub open spec fn number_bytes(kind: ValueKind, number: int) -> Seq<u8> {
    le_bytes((number % 0x1_0000_0000_0000_0000) as nat, kind.width())
}

/// The bytes of a value, if it converts.
pub fn encode_value(kind: ValueKind, value: WriteArgument) -> (bytes: Option<Vec<u8>>)
    ensures
        bytes is Some <==> written_number(kind, value) is Some,
        bytes matches Some(b) ==> b@ == number_bytes(kind, written_number(kind, value)->0),
{
    let bits: Option<u64> = match kind {
        ValueKind::S8 | ValueKind::S16 | ValueKind::S32 | ValueKind::S64 => match value.signed {
            Some(number) => Some(unsigned_bits(number)),
            None => None,
        },
        ValueKind::U8 | ValueKind::U16 | ValueKind::U32 | ValueKind::U64 => value.unsigned,
        ValueKind::Float => match value.float {
            Some(bits) => Some(bits as u64),
            None => None,
        },
        ValueKind::Double => value.double,
        ValueKind::Pointer => value.address,
    };
    match bits {
        Some(bits) => {
            let mut bytes: Vec<u8> = Vec::new();
            push_le(&mut bytes, bits, kind.size());
            assert(bytes@ =~= le_bytes(bits as nat, kind.width()));
            Some(bytes)
        },
        None => None,
    }
}

/// The address that a value stands for: its own, or that of a number.
pub open spec fn argument_address(value: PointerArgument) -> Option<u64> {
    match value_address(value) {
        Some(addr) => Some(addr),
        None => match value {
            PointerArgument::Number { unsigned, .. } => unsigned,
            _ => None,
        },
    }
}

/// The address that a value stands for.
pub fn get_addr_from_arg(value: &PointerArgument) -> (addr: Option<u64>)
    ensures
        addr == argument_address(*value),
{
    match get_native_pointer_addr(value) {
        Some(addr) => Some(addr),
        None => match value {
            PointerArgument::Number { unsigned, .. } => *unsigned,
            _ => None,
        },
    }
}

/// The address of an operation, and how many arguments it takes.
#[derive(Clone, Copy, Debug, PartialEq, Eq, Structural)]
pub struct OperationAddress {
    pub addr: u64,
    pub arguments_taken: usize,
}

/// The address of an operation: that of the pointer that it is called on, or else that of
/// its first argument.
pub open spec fn operation_address(this: PointerArgument, arguments: Seq<PointerArgument>) -> Option<
    OperationAddress,
> {
    match value_address(this) {
        Some(addr) => Some(OperationAddress { addr, arguments_taken: 0 }),
        None => if arguments.len() == 0 {
            None
        } else {
            match argument_address(arguments[0]) {
                Some(addr) => Some(OperationAddress { addr, arguments_taken: 1 }),
                None => None,
            }
        },
    }
}

/// The address of an operation.
pub fn get_addr_this_or_arg(this: &PointerArgument, arguments: &Vec<PointerArgument>) -> (address: Option<
    OperationAddress,
>)
    ensures
        address == operation_address(*this, arguments@),
{
    match get_native_pointer_addr(this) {
        Some(addr) => {
            return Some(OperationAddress { addr, arguments_taken: 0 });
        },
        None => {},
    }
    if arguments.len() < 1 {
        return None;
    }
    match get_addr_from_arg(&arguments[0]) {
        Some(addr) => Some(OperationAddress { addr, arguments_taken: 1 }),
        None => None,
    }
}

fn operation_error(operation: &str, problem: &str) -> (error: ScriptError)
    ensures
        error@ == (ErrorKind::TypeError, operation@ + problem@),
{
    ScriptError { kind: ErrorKind::TypeError, message: joined(operation, problem) }
}

/// Where a value is read.
pub fn memory_read(kind: ValueKind, this: &PointerArgument, arguments: &Vec<PointerArgument>) -> (result:
    Result<u64, ScriptError>)
    ensures
        result is Ok <==> operation_address(*this, arguments@) is Some,
        result matches Ok(addr) ==> addr == operation_address(*this, arguments@)->0.addr,
        result matches Err(error) ==> error@ == (
            ErrorKind::TypeError,
            "read"@ + kind.suffix() + "() requires a pointer"@,
        ),
{
    match get_addr_this_or_arg(this, arguments) {
        Some(address) => Ok(address.addr),
        None => Err(operation_error(kind.read_name().as_str(), "() requires a pointer")),
    }
}

/// That a value could not be read.
pub fn access_error(operation: &str, error: &MemoryAccessError) -> (failure: ScriptError)
    ensures
        failure@ == (ErrorKind::RangeError, operation@ + ": "@ + access_error_text(*error)),
{
    let mut message: String = joined(operation, ": ");
    message.append(error.text().as_str());
    ScriptError { kind: ErrorKind::RangeError, message }
}

/// A write that is to be made.
#[derive(Debug)]
pub struct WriteRequest {
    pub addr: u64,
    pub bytes: Vec<u8>,
    /// Whether the operation was called on a pointer, which is then its result.
    pub returns_this: bool,
}

/// What is wrong with a write.
pub open spec fn write_call_problem(
    kind: ValueKind,
    this: PointerArgument,
    arguments: Seq<PointerArgument>,
    value: WriteArgument,
) -> Option<Seq<char>> {
    match operation_address(this, arguments) {
        None => Some("write"@ + kind.suffix() + "() requires a pointer"@),
        Some(address) => if arguments.len() - address.arguments_taken < 1 {
            Some("write"@ + kind.suffix() + "() requires value argument"@)
        } else if written_number(kind, value) is None {
            Some(
                if kind == ValueKind::Pointer {
                    "writePointer() value must be a NativePointer or integer"@
                } else {
                    "write"@ + kind.suffix() + "(): value has incompatible type"@
                },
            )
        } else {
            None
        },
    }
}

/// What is written where; `value` is the argument behind the address.
pub fn memory_write(
    kind: ValueKind,
    this: &PointerArgument,
    arguments: &Vec<PointerArgument>,
    value: WriteArgument,
) -> (result: Result<WriteRequest, ScriptError>)
    ensures
        result is Ok <==> write_call_problem(kind, *this, arguments@, value) is None,
        result matches Err(error) ==> error@ == (
            ErrorKind::TypeError,
            write_call_problem(kind, *this, arguments@, value)->0,
        ),
        result matches Ok(request) ==> {
            &&& request.addr == operation_address(*this, arguments@)->0.addr
            &&& request.bytes@ == number_bytes(kind, written_number(kind, value)->0)
            &&& request.returns_this == (value_address(*this) is Some)
        },
{
    let address: OperationAddress = match get_addr_this_or_arg(this, arguments) {
        Some(address) => address,
        None => {
            return Err(operation_error(kind.write_name().as_str(), "() requires a pointer"));
        },
    };
    if arguments.len() - address.arguments_taken < 1 {
        return Err(operation_error(kind.write_name().as_str(), "() requires value argument"));
    }
    match encode_value(kind, value) {
        Some(bytes) => {
            let returns_this: bool = get_native_pointer_addr(this).is_some();
            Ok(WriteRequest { addr: address.addr, bytes, returns_this })
        },
        None => Err(
            match kind {
                ValueKind::Pointer => crate::script::type_error(
                    "writePointer() value must be a NativePointer or integer",
                ),
                _ => operation_error(
                    kind.write_name().as_str(),
                    "(): value has incompatible type",
                ),
            },
        ),
    }
}

/// A value that is written and read again is the number that was written, reduced to the
/// bytes that it takes.
pub proof fn values_read_back(kind: ValueKind, argument: WriteArgument, value: MemoryValue)
    requires
        written_number(kind, argument) is Some,
        value_is(kind, number_bytes(kind, written_number(kind, argument)->0), value),
    ensures
        ({
            let number = written_number(kind, argument)->0;
            match kind {
                ValueKind::S8 => value matches MemoryValue::Int(n) && n == with_sign(
                    number % 0x100,
                    0x80,
                ),
                ValueKind::U8 => value matches MemoryValue::Int(n) && n == number % 0x100,
                ValueKind::S16 => value matches MemoryValue::Int(n) && n == with_sign(
                    number % 0x1_0000,
                    0x8000,
                ),
                ValueKind::U16 => value matches MemoryValue::Int(n) && n == number % 0x1_0000,
                ValueKind::S32 => value matches MemoryValue::Int(n) && n == with_sign(
                    number % 0x1_0000_0000,
                    0x8000_0000,
                ),
                ValueKind::U32 => value matches MemoryValue::Uint(n) && n == number
                    % 0x1_0000_0000,
                ValueKind::S64 => value matches MemoryValue::BigInt(n) && n == number,
                ValueKind::U64 => value matches MemoryValue::BigUint(n) && n == number,
                ValueKind::Float => value matches MemoryValue::Float(n) && n == number,
                ValueKind::Double => value matches MemoryValue::Double(n) && n == number,
                ValueKind::Pointer => value matches MemoryValue::Pointer(n) && n == number,
            }
        }),
{
    let m: int = 0x1_0000_0000_0000_0000;
    let number = written_number(kind, argument)->0;
    let low = (number % m) as nat;
    le_bytes_keep_the_low_bytes(low, kind.width());
    lemma_byte_ranges();
    if number >= 0 {
        vstd::arithmetic::div_mod::lemma_small_mod(number as nat, m as nat);
    } else {
        vstd::arithmetic::div_mod::lemma_mod_add_multiples_vanish(number, m);
        vstd::arithmetic::div_mod::lemma_small_mod((number + m) as nat, m as nat);
    }
    let shown = le_value(number_bytes(kind, number)) as int;
    if kind.width() == 1 {
        assert(shown == number % 0x100);
    } else if kind.width() == 2 {
        vstd::arithmetic::div_mod::lemma_mod_multiples_vanish(
            0x1_0000_0000_0000,
            number,
            0x1_0000,
        );
        assert(shown == number % 0x1_0000);
    } else if kind.width() == 4 {
        vstd::arithmetic::div_mod::lemma_mod_multiples_vanish(
            0x1_0000_0000,
            number,
            0x1_0000_0000,
        );
        assert(shown == number % 0x1_0000_0000);
    } else {
        assert(shown == number % m);
    }
}

/// The name of an integer says whether it has a sign and how many bits it takes.
pub proof fn names_tell_sign_and_width(kind: ValueKind)
    ensures
        kind is S8 || kind is S16 || kind is S32 || kind is S64 ==> kind.suffix()[0] as u32 == 0x53,
        kind is U8 || kind is U16 || kind is U32 || kind is U64 ==> kind.suffix()[0] as u32 == 0x55,
        !(kind is Float || kind is Double || kind is Pointer) ==> parsed_u64(
            kind.suffix().skip(1),
            10,
        ) == Some(8 * kind.width()),
        kind is S8 || kind is U8 ==> kind.width() == 1,
        kind is S16 || kind is U16 ==> kind.width() == 2,
        kind is S32 || kind is U32 || kind is Float ==> kind.width() == 4,
        kind is S64 || kind is U64 || kind is Double || kind is Pointer ==> kind.width() == 8,
{
    reveal_strlit("S8");
    reveal_strlit("U8");
    reveal_strlit("S16");
    reveal_strlit("U16");
    reveal_strlit("S32");
    reveal_strlit("U32");
    reveal_strlit("S64");
    reveal_strlit("U64");
    let text = kind.suffix().skip(1);
    reveal_with_fuel(digits_value, 3);
    if kind.width() == 1 {
        assert(text =~= seq!['8']);
        assert(text.drop_last() =~= seq![]);
    } else if !(kind is Float || kind is Double || kind is Pointer) {
        assert(text.drop_last() =~= seq![text[0]]);
        assert(seq![text[0]].drop_last() =~= seq![]);
        assert(digits_value(seq![], 10) == 0);
        assert(digits_value(seq![text[0]], 10) == text[0] as u32 - 0x30);
    }
}

/// An integer that is read is the number in its bytes, low byte first; one with a sign
/// differs from it by the range of its bytes if it is in the upper half. Other values are
/// the bits themselves.
pub proof fn values_are_the_numbers_in_memory(kind: ValueKind, bytes: Seq<u8>, value: MemoryValue)
    requires
        bytes.len() == kind.width(),
        value_is(kind, bytes, value),
    ensures
        kind is S8 ==> value is Int && -0x80 <= value->Int_0 < 0x80 && (le_value(bytes)
            - value->Int_0) % 0x100 == 0,
        kind is S16 ==> value is Int && -0x8000 <= value->Int_0 < 0x8000 && (le_value(bytes)
            - value->Int_0) % 0x1_0000 == 0,
        kind is S32 ==> value is Int && (le_value(bytes) - value->Int_0) % 0x1_0000_0000 == 0,
        kind is S64 ==> value is BigInt && (le_value(bytes) - value->BigInt_0)
            % 0x1_0000_0000_0000_0000 == 0,
        kind is U8 || kind is U16 ==> value is Int && value->Int_0 == le_value(bytes),
        kind is U32 ==> value is Uint && value->Uint_0 == le_value(bytes),
        kind is U64 ==> value is BigUint && value->BigUint_0 == le_value(bytes),
        kind is Float ==> value is Float && value->Float_0 == le_value(bytes),
        kind is Double ==> value is Double && value->Double_0 == le_value(bytes),
        kind is Pointer ==> value is Pointer && value->Pointer_0 == le_value(bytes),
{
    lemma_le_value_bound(bytes);
    lemma_byte_ranges();
}

/// A number in the range of its kind that is written and read again is that number.
pub proof fn values_in_range_survive_memory(
    kind: ValueKind,
    argument: WriteArgument,
    value: MemoryValue,
)
    requires
        written_number(kind, argument) is Some,
        value_is(kind, number_bytes(kind, written_number(kind, argument)->0), value),
    ensures
        kind is S8 && (argument.signed matches Some(n) && -0x80 <= n < 0x80) ==> value
            == MemoryValue::Int(argument.signed->0 as i32),
        kind is S16 && (argument.signed matches Some(n) && -0x8000 <= n < 0x8000) ==> value
            == MemoryValue::Int(argument.signed->0 as i32),
        kind is S32 && (argument.signed matches Some(n) && -0x8000_0000 <= n < 0x8000_0000)
            ==> value == MemoryValue::Int(argument.signed->0 as i32),
        kind is S64 && argument.signed is Some ==> value == MemoryValue::BigInt(
            argument.signed->0,
        ),
        kind is U8 && (argument.unsigned matches Some(n) && n < 0x100) ==> value
            == MemoryValue::Int(argument.unsigned->0 as i32),
        kind is U16 && (argument.unsigned matches Some(n) && n < 0x1_0000) ==> value
            == MemoryValue::Int(argument.unsigned->0 as i32),
        kind is U32 && (argument.unsigned matches Some(n) && n < 0x1_0000_0000) ==> value
            == MemoryValue::Uint(argument.unsigned->0 as u32),
        kind is U64 && argument.unsigned is Some ==> value == MemoryValue::BigUint(
            argument.unsigned->0,
        ),
        kind is Float && argument.float is Some ==> value == MemoryValue::Float(argument.float->0),
        kind is Double && argument.double is Some ==> value == MemoryValue::Double(
            argument.double->0,
        ),
        kind is Pointer && argument.address is Some ==> value == MemoryValue::Pointer(
            argument.address->0,
        ),
{
    values_read_back(kind, argument, value);
}

/// Which values convert: signed integers, unsigned integers, numbers with a fraction and
/// addresses each where their kind is asked for.
pub proof fn values_convert_by_their_kind(kind: ValueKind, argument: WriteArgument)
    ensures
        written_number(kind, argument) is Some <==> {
            ||| (kind is S8 || kind is S16 || kind is S32 || kind is S64) && argument.signed is Some
            ||| (kind is U8 || kind is U16 || kind is U32 || kind is U64)
                && argument.unsigned is Some
            ||| kind is Float && argument.float is Some
            ||| kind is Double && argument.double is Some
            ||| kind is Pointer && argument.address is Some
        },
{
}

/// What is written of a number are as many of its low bytes as its kind takes, low byte
/// first.
pub proof fn numbers_are_written_low_byte_first(kind: ValueKind, number: int, at: int)
    requires
        0 <= at < kind.width(),
        -0x8000_0000_0000_0000 <= number < 0x1_0000_0000_0000_0000,
    ensures
        number_bytes(kind, number).len() == kind.width(),
        number >= 0 ==> number_bytes(kind, number)[at] as int == (number / pow(256, at as nat))
            % 256,
        number < 0 ==> number_bytes(kind, number)[at] as int == ((number
            + 0x1_0000_0000_0000_0000) / pow(256, at as nat)) % 256,
{
    let m: int = 0x1_0000_0000_0000_0000;
    if number >= 0 {
        vstd::arithmetic::div_mod::lemma_small_mod(number as nat, m as nat);
    } else {
        vstd::arithmetic::div_mod::lemma_mod_add_multiples_vanish(number, m);
        vstd::arithmetic::div_mod::lemma_small_mod((number + m) as nat, m as nat);
    }
    lemma_le_bytes_len((number % m) as nat, kind.width());
    low_bytes_come_first((number % m) as nat, kind.width(), at);
}

/// An operation takes the address of the pointer that it is called on, and all its
/// arguments are left; called on anything else it takes the address from its first
/// argument, which is a pointer or an unsigned number.
pub proof fn operations_take_the_first_address(
    this: PointerArgument,
    arguments: Seq<PointerArgument>,
)
    ensures
        this is Pointer ==> operation_address(this, arguments) == Some(
            OperationAddress { addr: this->Pointer_0.addr, arguments_taken: 0 },
        ),
        this is Callable ==> operation_address(this, arguments) == Some(
            OperationAddress { addr: this->Callable_0, arguments_taken: 0 },
        ),
        !(this is Pointer || this is Callable) && arguments.len() == 0 ==> operation_address(
            this,
            arguments,
        ) is None,
        !(this is Pointer || this is Callable) && arguments.len() > 0 ==> {
            let first = arguments[0];
            let address = operation_address(this, arguments);
            &&& first is Pointer ==> address == Some(
                OperationAddress { addr: first->Pointer_0.addr, arguments_taken: 1 },
            )
            &&& first is Callable ==> address == Some(
                OperationAddress { addr: first->Callable_0, arguments_taken: 1 },
            )
            &&& first is Number && first->Number_unsigned is Some ==> address == Some(
                OperationAddress { addr: first->Number_unsigned->0, arguments_taken: 1 },
            )
            &&& first is Number && first->Number_unsigned is None ==> address is None
            &&& first is Text || first is Other ==> address is None
        },
{
}

/// A value is written if there is an address, a value behind it, and that converts.
pub proof fn writes_need_an_address_and_a_value(
    kind: ValueKind,
    this: PointerArgument,
    arguments: Seq<PointerArgument>,
    value: WriteArgument,
)
    ensures
        write_call_problem(kind, this, arguments, value) is None <==> {
            &&& operation_address(this, arguments) is Some
            &&& arguments.len() > operation_address(this, arguments)->0.arguments_taken
            &&& written_number(kind, value) is Some
        },
{
}

} // verus!
