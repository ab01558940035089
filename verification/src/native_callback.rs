//! Native functions that are implemented by scripts.

use crate::bytes::{
    casts_keep_the_low_bits, le_bytes, le_bytes_read_back, le_value, lemma_byte_ranges, push_le,
};
use crate::native_ffi::{scalar_type_of, ScalarType};
use crate::script::{
    joined, range_error, type_error, ErrorKind, ScriptError, ScriptType,
};
use crate::text::same_text;
use vstd::prelude::*;
use vstd::string::*;

verus! {

/// Most arguments that a callback can have.
pub const MAX_CALLBACK_ARGUMENTS: usize = 256;

/// The type of an argument or a result.
#[derive(Clone, Copy, Debug, PartialEq, Eq, Structural)]
pub enum ScalarKind {
    Void,
    Signed { size: u8 },
    Unsigned { size: u8 },
    Pointer,
    Float,
    Double,
}

/// Where the calling convention passes an argument.
#[derive(Clone, Copy, Debug, PartialEq, Eq, Structural)]
pub enum ArgumentLocation {
    Gpr(u8),
    Fpr(u8),
    Stack(u16),
}

/// An argument's type and place.
#[derive(Clone, Copy, Debug, PartialEq, Eq, Structural)]
pub struct ArgumentPlan {
    pub kind: ScalarKind,
    pub location: ArgumentLocation,
}

impl ScalarKind {
    pub open spec fn floating(self) -> bool {
        self == ScalarKind::Float || self == ScalarKind::Double
    }

    /// Whether values of the type travel in floating-point registers.
    pub fn is_floating(self) -> (floating: bool)
        ensures
            floating == self.floating(),
    {
        matches!(self, ScalarKind::Float | ScalarKind::Double)
    }
}

/// The scalar that a type name stands for, other than `void`.
pub open spec fn scalar_named(name: Seq<char>) -> Option<ScalarKind> {
    if name == "bool"@ || name == "char"@ || name == "int8"@ {
        Some(ScalarKind::Signed { size: 1 })
    } else if name == "uchar"@ || name == "uint8"@ {
        Some(ScalarKind::Unsigned { size: 1 })
    } else if name == "short"@ || name == "int16"@ {
        Some(ScalarKind::Signed { size: 2 })
    } else if name == "ushort"@ || name == "uint16"@ {
        Some(ScalarKind::Unsigned { size: 2 })
    } else if name == "int"@ || name == "int32"@ {
        Some(ScalarKind::Signed { size: 4 })
    } else if name == "uint"@ || name == "uint32"@ {
        Some(ScalarKind::Unsigned { size: 4 })
    } else if name == "long"@ || name == "int64"@ || name == "ssize_t"@ {
        Some(ScalarKind::Signed { size: 8 })
    } else if name == "ulong"@ || name == "uint64"@ || name == "size_t"@ {
        Some(ScalarKind::Unsigned { size: 8 })
    } else if name == "pointer"@ {
        Some(ScalarKind::Pointer)
    } else if name == "float"@ {
        Some(ScalarKind::Float)
    } else if name == "double"@ {
        Some(ScalarKind::Double)
    } else {
        None
    }
}

/// Why a type name is refused.
pub open spec fn scalar_error(name: Seq<char>) -> Seq<char> {
    if name == "void"@ {
        "'void' can only be the return type"@
    } else {
        "unknown type '"@ + name + "'"@
    }
}

/// What a type name stands for: `void` only where it is allowed.
pub open spec fn scalar_kind_of(name: Seq<char>, allow_void: bool) -> Result<ScalarKind, Seq<char>> {
    if name == "void"@ && allow_void {
        Ok(ScalarKind::Void)
    } else if name == "void"@ {
        Err(scalar_error(name))
    } else {
        match scalar_named(name) {
            Some(kind) => Ok(kind),
            None => Err(scalar_error(name)),
        }
    }
}

/// What a type name stands for.
pub fn scalar_kind(name: &str, allow_void: bool) -> (result: Result<ScalarKind, String>)
    ensures
        match (result, scalar_kind_of(name@, allow_void)) {
            (Ok(kind), Ok(expected)) => kind == expected,
            (Err(message), Err(expected)) => message@ == expected,
            _ => false,
        },
{
    if same_text(name, "void") {
        if allow_void {
            return Ok(ScalarKind::Void);
        }
        return Err(String::from_str("'void' can only be the return type"));
    }
    if same_text(name, "bool") || same_text(name, "char") || same_text(name, "int8") {
        Ok(ScalarKind::Signed { size: 1 })
    } else if same_text(name, "uchar") || same_text(name, "uint8") {
        Ok(ScalarKind::Unsigned { size: 1 })
    } else if same_text(name, "short") || same_text(name, "int16") {
        Ok(ScalarKind::Signed { size: 2 })
    } else if same_text(name, "ushort") || same_text(name, "uint16") {
        Ok(ScalarKind::Unsigned { size: 2 })
    } else if same_text(name, "int") || same_text(name, "int32") {
        Ok(ScalarKind::Signed { size: 4 })
    } else if same_text(name, "uint") || same_text(name, "uint32") {
        Ok(ScalarKind::Unsigned { size: 4 })
    } else if same_text(name, "long") || same_text(name, "int64") || same_text(name, "ssize_t") {
        Ok(ScalarKind::Signed { size: 8 })
    } else if same_text(name, "ulong") || same_text(name, "uint64") || same_text(name, "size_t") {
        Ok(ScalarKind::Unsigned { size: 8 })
    } else if same_text(name, "pointer") {
        Ok(ScalarKind::Pointer)
    } else if same_text(name, "float") {
        Ok(ScalarKind::Float)
    } else if same_text(name, "double") {
        Ok(ScalarKind::Double)
    } else {
        let mut message: String = joined("unknown type '", name);
        message.append("'");
        Err(message)
    }
}

/// How many of the first `count` kinds travel in floating-point registers.
pub open spec fn floating_before(kinds: Seq<ScalarKind>, count: int) -> nat
    decreases count,
{
    if count <= 0 {
        0
    } else {
        floating_before(kinds, count - 1) + if kinds[count - 1].floating() {
            1nat
        } else {
            0nat
        }
    }
}

/// What does not fit in the eight registers of a class.
pub open spec fn spilled(count: nat) -> nat {
    if count <= 8 {
        0
    } else {
        (count - 8) as nat
    }
}

/// Where the argument at `index` is passed: each class has eight registers, and what
/// does not fit goes to the stack in the order of declaration.
pub open spec fn location_of(kinds: Seq<ScalarKind>, index: int) -> ArgumentLocation {
    let floats = floating_before(kinds, index);
    let others = (index - floats) as nat;
    if kinds[index].floating() && floats < 8 {
        ArgumentLocation::Fpr(floats as u8)
    } else if !kinds[index].floating() && others < 8 {
        ArgumentLocation::Gpr(others as u8)
    } else {
        ArgumentLocation::Stack((spilled(floats) + spilled(others)) as u16)
    }
}

/// The places of all arguments.
pub open spec fn planned(kinds: Seq<ScalarKind>) -> Seq<ArgumentPlan> {
    Seq::new(
        kinds.len(),
        |i: int| ArgumentPlan { kind: kinds[i], location: location_of(kinds, i) },
    )
}

proof fn lemma_floating_bounds(kinds: Seq<ScalarKind>, count: int)
    requires
        0 <= count <= kinds.len(),
    ensures
        floating_before(kinds, count) <= count,
    decreases count,
{
    if count > 0 {
        lemma_floating_bounds(kinds, count - 1);
    }
}

proof fn lemma_floating_steps(kinds: Seq<ScalarKind>, small: int, large: int)
    requires
        0 <= small <= large <= kinds.len(),
    ensures
        floating_before(kinds, small) <= floating_before(kinds, large),
        small - floating_before(kinds, small) <= large - floating_before(kinds, large),
    decreases large,
{
    if small < large {
        lemma_floating_steps(kinds, small, large - 1);
    }
}

/// No two arguments share a place.
pub proof fn argument_places_are_distinct(kinds: Seq<ScalarKind>, i: int, j: int)
    requires
        kinds.len() <= 0xffff,
        0 <= i < j < kinds.len(),
    ensures
        location_of(kinds, i) != location_of(kinds, j),
{
    lemma_floating_bounds(kinds, i);
    lemma_floating_bounds(kinds, j);
    lemma_floating_steps(kinds, i + 1, j);
}

/// Assigns every argument its place.
pub fn plan_arguments(kinds: &[ScalarKind]) -> (plan: Vec<ArgumentPlan>)
    requires
        kinds@.len() <= 0xffff,
    ensures
        plan@ == planned(kinds@),
{
    let mut gpr: u8 = 0;
    let mut fpr: u8 = 0;
    let mut stack: u16 = 0;
    let mut plan: Vec<ArgumentPlan> = Vec::new();
    let mut i: usize = 0;
    while i < kinds.len()
        invariant
            i <= kinds@.len() <= 0xffff,
            floating_before(kinds@, i as int) <= i,
            fpr == if floating_before(kinds@, i as int) < 8 {
                floating_before(kinds@, i as int)
            } else {
                8
            },
            gpr == if i - floating_before(kinds@, i as int) < 8 {
                i - floating_before(kinds@, i as int)
            } else {
                8
            },
            stack == spilled(floating_before(kinds@, i as int)) + spilled(
                (i - floating_before(kinds@, i as int)) as nat,
            ),
            plan@ == Seq::new(
                i as nat,
                |k: int| ArgumentPlan { kind: kinds@[k], location: location_of(kinds@, k) },
            ),
        decreases kinds@.len() - i,
    {
        let kind: ScalarKind = kinds[i];
        let location: ArgumentLocation = if kind.is_floating() {
            if fpr < 8 {
                fpr = fpr + 1;
                ArgumentLocation::Fpr(fpr - 1)
            } else {
                stack = stack + 1;
                ArgumentLocation::Stack(stack - 1)
            }
        } else if gpr < 8 {
            gpr = gpr + 1;
            ArgumentLocation::Gpr(gpr - 1)
        } else {
            stack = stack + 1;
            ArgumentLocation::Stack(stack - 1)
        };
        assert(location == location_of(kinds@, i as int));
        plan.push(ArgumentPlan { kind, location });
        i = i + 1;
        assert(plan@ =~= Seq::new(
            i as nat,
            |k: int| ArgumentPlan { kind: kinds@[k], location: location_of(kinds@, k) },
        ));
    }
    plan
}

/// The scalar that a script's type stands for in a callback.
pub open spec fn callback_type(value: ScriptType, position: Seq<char>, allow_void: bool) -> Result<
    ScalarKind,
    (ErrorKind, Seq<char>),
> {
    match value {
        ScriptType::List(_) => Err(
            (
                ErrorKind::TypeError,
                "NativeCallback: struct-by-value types are not implemented yet"@,
            ),
        ),
        ScriptType::Opaque => Err(
            (
                ErrorKind::TypeError,
                "NativeCallback: "@ + position + " type must be a string"@,
            ),
        ),
        ScriptType::Failed(error) => Err(error@),
        ScriptType::Name(name) | ScriptType::Convertible(name) => match scalar_kind_of(
            name@,
            allow_void,
        ) {
            Ok(kind) => Ok(kind),
            Err(message) => Err((ErrorKind::TypeError, "NativeCallback: "@ + message)),
        },
    }
}

fn read_callback_type(value: &ScriptType, position: &str, allow_void: bool) -> (result: Result<
    ScalarKind,
    ScriptError,
>)
    ensures
        match (result, callback_type(*value, position@, allow_void)) {
            (Ok(kind), Ok(expected)) => kind == expected,
            (Err(error), Err(expected)) => error@ == expected,
            _ => false,
        },
{
    match value {
        ScriptType::List(_) => Err(
            type_error("NativeCallback: struct-by-value types are not implemented yet"),
        ),
        ScriptType::Opaque => {
            let mut message: String = joined("NativeCallback: ", position);
            message.append(" type must be a string");
            Err(ScriptError { kind: ErrorKind::TypeError, message })
        },
        ScriptType::Failed(error) => Err(error.again()),
        ScriptType::Name(name) => match scalar_kind(name.as_str(), allow_void) {
            Ok(kind) => Ok(kind),
            Err(message) => Err(
                ScriptError {
                    kind: ErrorKind::TypeError,
                    message: joined("NativeCallback: ", message.as_str()),
                },
            ),
        },
        ScriptType::Convertible(name) => match scalar_kind(name.as_str(), allow_void) {
            Ok(kind) => Ok(kind),
            Err(message) => Err(
                ScriptError {
                    kind: ErrorKind::TypeError,
                    message: joined("NativeCallback: ", message.as_str()),
                },
            ),
        },
    }
}

/// The first of the argument types that is refused.
pub open spec fn argument_error(types: Seq<ScriptType>) -> Option<(ErrorKind, Seq<char>)>
    decreases types.len(),
{
    if types.len() == 0 {
        None
    } else {
        match argument_error(types.drop_last()) {
            Some(error) => Some(error),
            None => match callback_type(types.last(), "argument"@, false) {
                Ok(_) => None,
                Err(error) => Some(error),
            },
        }
    }
}

/// The scalars that a row of accepted argument types stands for.
pub open spec fn argument_kinds(types: Seq<ScriptType>) -> Seq<ScalarKind> {
    Seq::new(
        types.len(),
        |i: int|
            match callback_type(types[i], "argument"@, false) {
                Ok(kind) => kind,
                Err(_) => ScalarKind::Void,
            },
    )
}

/// Why a signature is refused. A list whose length cannot be read counts as too long.
pub open spec fn signature_error(return_type: ScriptType, arguments: ScriptType) -> Option<
    (ErrorKind, Seq<char>),
> {
    match callback_type(return_type, "return"@, true) {
        Err(error) => Some(error),
        Ok(_) => match arguments {
            ScriptType::List(types) => if types@.len() > MAX_CALLBACK_ARGUMENTS {
                Some((ErrorKind::RangeError, "NativeCallback: too many arguments"@))
            } else {
                argument_error(types@)
            },
            ScriptType::Failed(_) => Some(
                (ErrorKind::RangeError, "NativeCallback: too many arguments"@),
            ),
            _ => Some(
                (ErrorKind::TypeError, "NativeCallback: argument types must be an array"@),
            ),
        },
    }
}

/// The signature of a callback.
#[derive(Debug)]
pub struct CallbackSignature {
    pub return_kind: ScalarKind,
    pub arguments: Vec<ArgumentPlan>,
}

/// Reads the signature of a callback.
pub fn parse_signature(return_type: &ScriptType, arguments: &ScriptType) -> (result: Result<
    CallbackSignature,
    ScriptError,
>)
    ensures
        result is Err <==> signature_error(*return_type, *arguments) is Some,
        result matches Err(error) ==> signature_error(*return_type, *arguments) == Some(error@),
        result matches Ok(signature) ==> {
            &&& callback_type(*return_type, "return"@, true) == Ok::<
                ScalarKind,
                (ErrorKind, Seq<char>),
            >(signature.return_kind)
            &&& signature.arguments@ == planned(argument_kinds(arguments->List_0@))
        },
{
    let return_kind: ScalarKind = match read_callback_type(return_type, "return", true) {
        Ok(kind) => kind,
        Err(error) => {
            return Err(error);
        },
    };
    match arguments {
        ScriptType::List(types) => {
            if types.len() > MAX_CALLBACK_ARGUMENTS {
                return Err(range_error("NativeCallback: too many arguments"));
            }
            let mut kinds: Vec<ScalarKind> = Vec::new();
            let mut i: usize = 0;
            assert(types@.take(0) =~= Seq::<ScriptType>::empty());
            assert(kinds@ =~= argument_kinds(types@).take(0));
            while i < types.len()
                invariant
                    i <= types@.len() <= MAX_CALLBACK_ARGUMENTS,
                    *arguments == ScriptType::List(*types),
                    callback_type(*return_type, "return"@, true) is Ok,
                    argument_error(types@.take(i as int)) is None,
                    kinds@ == argument_kinds(types@).take(i as int),
                decreases types@.len() - i,
            {
                assert(types@.take(i + 1).drop_last() =~= types@.take(i as int));
                match read_callback_type(&types[i], "argument", false) {
                    Ok(kind) => {
                        kinds.push(kind);
                    },
                    Err(error) => {
                        proof {
                            lemma_first_error(types@, i + 1);
                        }
                        return Err(error);
                    },
                }
                i = i + 1;
                assert(kinds@ =~= argument_kinds(types@).take(i as int));
            }
            assert(types@.take(types@.len() as int) =~= types@);
            assert(argument_kinds(types@).take(types@.len() as int) =~= argument_kinds(types@));
            Ok(CallbackSignature { return_kind, arguments: plan_arguments(&kinds) })
        },
        ScriptType::Failed(_) => Err(range_error("NativeCallback: too many arguments")),
        _ => Err(type_error("NativeCallback: argument types must be an array")),
    }
}

proof fn lemma_first_error(types: Seq<ScriptType>, count: int)
    requires
        0 <= count <= types.len(),
        argument_error(types.take(count)) is Some,
    ensures
        argument_error(types) == argument_error(types.take(count)),
    decreases types.len(),
{
    if count < types.len() {
        assert(types.drop_last().take(count) =~= types.take(count));
        lemma_first_error(types.drop_last(), count);
    } else {
        assert(types.take(count) =~= types);
    }
}

/// The calling convention that a script asks for.
#[derive(Debug)]
pub enum AbiArgument {
    /// None, or `undefined` or `null`.
    Unspecified,
    Name(String),
    /// A value that does not convert to a string.
    Opaque,
}

/// Why a calling convention is refused.
pub open spec fn abi_error(abi: AbiArgument) -> Option<Seq<char>> {
    match abi {
        AbiArgument::Unspecified => None,
        AbiArgument::Opaque => Some("NativeCallback: ABI must be a string"@),
        AbiArgument::Name(name) => if name@ == "default"@ || name@ == "sysv"@ {
            None
        } else {
            Some("NativeCallback: unsupported ABI on ARM64 Android"@)
        },
    }
}

/// Checks the calling convention.
pub fn validate_abi(abi: &AbiArgument) -> (result: Result<(), ScriptError>)
    ensures
        result is Ok <==> abi_error(*abi) is None,
        result matches Err(error) ==> abi_error(*abi) is Some && error@ == (
            ErrorKind::TypeError,
            abi_error(*abi)->0,
        ),
{
    match abi {
        AbiArgument::Unspecified => Ok(()),
        AbiArgument::Opaque => Err(type_error("NativeCallback: ABI must be a string")),
        AbiArgument::Name(name) => {
            if same_text(name.as_str(), "default") || same_text(name.as_str(), "sysv") {
                Ok(())
            } else {
                Err(type_error("NativeCallback: unsupported ABI on ARM64 Android"))
            }
        },
    }
}

/// The code of a callback's entry: it loads the address of the callback's data and of
/// the common entry from behind itself and branches to the entry.
pub open spec fn thunk_code(data: u64, entry: u64) -> Seq<u8> {
    le_bytes(0x5800_0090, 4) + le_bytes(0x5800_00b1, 4) + le_bytes(0xd61f_0220, 4) + le_bytes(
        0xd503_201f,
        4,
    ) + le_bytes(data as nat, 8) + le_bytes(entry as nat, 8)
}

/// The code of a callback's entry.
pub fn thunk_bytes(data: u64, entry: u64) -> (code: Vec<u8>)
    ensures
        code@ == thunk_code(data, entry),
{
    let mut code: Vec<u8> = Vec::new();
    push_le(&mut code, 0x5800_0090, 4);
    push_le(&mut code, 0x5800_00b1, 4);
    push_le(&mut code, 0xd61f_0220, 4);
    push_le(&mut code, 0xd503_201f, 4);
    push_le(&mut code, data, 8);
    push_le(&mut code, entry, 8);
    assert(code@ =~= thunk_code(data, entry));
    code
}

/// The registers at the entry of a callback, and its result.
#[derive(Clone, Copy, Debug)]
pub struct NativeCallbackFrame {
    pub gpr: [u64; 8],
    pub fpr: [u64; 8],
    pub caller_sp: u64,
    pub return_address: u64,
    pub result_gpr: u64,
    pub result_fpr: u64,
}

/// Whether a place exists in a frame with the given words on the stack.
pub open spec fn location_exists(location: ArgumentLocation, stack_words: nat) -> bool {
    match location {
        ArgumentLocation::Gpr(index) => index < 8,
        ArgumentLocation::Fpr(index) => index < 8,
        ArgumentLocation::Stack(index) => index < stack_words,
    }
}

/// Every argument has a place where the caller's stack holds the words that do not fit in
/// the registers.
pub proof fn argument_places_exist(kinds: Seq<ScalarKind>, stack_words: nat, index: int)
    requires
        kinds.len() <= 0xffff,
        0 <= index < kinds.len(),
        stack_words >= spilled(floating_before(kinds, kinds.len() as int)) + spilled(
            (kinds.len() - floating_before(kinds, kinds.len() as int)) as nat,
        ),
    ensures
        location_exists(location_of(kinds, index), stack_words),
{
    lemma_floating_bounds(kinds, index);
    lemma_floating_bounds(kinds, index + 1);
    lemma_floating_steps(kinds, index + 1, kinds.len() as int);
}

/// The word in a place of a frame.
pub open spec fn word_in(frame: NativeCallbackFrame, stack: Seq<u64>, location: ArgumentLocation) -> u64 {
    match location {
        ArgumentLocation::Gpr(index) => frame.gpr@[index as int],
        ArgumentLocation::Fpr(index) => frame.fpr@[index as int],
        ArgumentLocation::Stack(index) => stack[index as int],
    }
}

/// The word in the place of an argument; `stack` holds the caller's words.
pub fn raw_argument(frame: &NativeCallbackFrame, stack: &[u64], argument: ArgumentPlan) -> (raw: u64)
    requires
        location_exists(argument.location, stack@.len()),
    ensures
        raw == word_in(*frame, stack@, argument.location),
{
    match argument.location {
        ArgumentLocation::Gpr(index) => frame.gpr[index as usize],
        ArgumentLocation::Fpr(index) => frame.fpr[index as usize],
        ArgumentLocation::Stack(index) => stack[index as usize],
    }
}

/// A value handed to a script. Floating-point values are given by their bits.
#[derive(Clone, Copy, Debug, PartialEq, Eq, Structural)]
pub enum NativeValue {
    Undefined,
    /// A number that is exact in a script's number type.
    Small(i64),
    /// A number that may need a big integer.
    Signed(i64),
    Unsigned(u64),
    Pointer(u64),
    FloatBits(u32),
    DoubleBits(u64),
}

/// The value that a word in an argument's place stands for: narrower types keep the
/// low bits, and signed ones extend their sign.
pub open spec fn argument_value_of(raw: u64, kind: ScalarKind) -> NativeValue {
    match kind {
        ScalarKind::Void => NativeValue::Undefined,
        ScalarKind::Signed { size } => if size == 1 {
            NativeValue::Small(raw as u8 as i8 as i64)
        } else if size == 2 {
            NativeValue::Small(raw as u16 as i16 as i64)
        } else if size == 4 {
            NativeValue::Small(raw as u32 as i32 as i64)
        } else {
            NativeValue::Signed(raw as i64)
        },
        ScalarKind::Unsigned { size } => if size == 1 {
            NativeValue::Small(raw as u8 as i64)
        } else if size == 2 {
            NativeValue::Small(raw as u16 as i64)
        } else if size == 4 {
            NativeValue::Small(raw as u32 as i64)
        } else {
            NativeValue::Unsigned(raw)
        },
        ScalarKind::Pointer => NativeValue::Pointer(raw),
        ScalarKind::Float => NativeValue::FloatBits(raw as u32),
        ScalarKind::Double => NativeValue::DoubleBits(raw),
    }
}

/// The value of an argument.
pub fn argument_value(raw: u64, kind: ScalarKind) -> (value: NativeValue)
    ensures
        value == argument_value_of(raw, kind),
{
    match kind {
        ScalarKind::Void => NativeValue::Undefined,
        ScalarKind::Signed { size } => {
            if size == 1 {
                NativeValue::Small(raw as u8 as i8 as i64)
            } else if size == 2 {
                NativeValue::Small(raw as u16 as i16 as i64)
            } else if size == 4 {
                NativeValue::Small(raw as u32 as i32 as i64)
            } else {
                NativeValue::Signed(raw as i64)
            }
        },
        ScalarKind::Unsigned { size } => {
            if size == 1 {
                NativeValue::Small(raw as u8 as i64)
            } else if size == 2 {
                NativeValue::Small(raw as u16 as i64)
            } else if size == 4 {
                NativeValue::Small(raw as u32 as i64)
            } else {
                NativeValue::Unsigned(raw)
            }
        },
        ScalarKind::Pointer => NativeValue::Pointer(raw),
        ScalarKind::Float => NativeValue::FloatBits(raw as u32),
        ScalarKind::Double => NativeValue::DoubleBits(raw),
    }
}

/// The bits that a result leaves in its register: integers are cut to their size.
pub open spec fn result_bits(kind: ScalarKind, raw: u64) -> u64 {
    match kind {
        ScalarKind::Signed { size } | ScalarKind::Unsigned { size } => if size == 1 {
            raw as u8 as u64
        } else if size == 2 {
            raw as u16 as u64
        } else if size == 4 {
            raw as u32 as u64
        } else {
            raw
        },
        ScalarKind::Float => raw as u32 as u64,
        _ => raw,
    }
}

impl NativeCallbackFrame {
    /// Stores the result of a callback; `raw` is the integer or the bits of the
    /// floating-point value that the script returned.
    pub fn store_result(&mut self, kind: ScalarKind, raw: u64)
        ensures
            final(self).gpr == old(self).gpr,
            final(self).fpr == old(self).fpr,
            final(self).caller_sp == old(self).caller_sp,
            final(self).return_address == old(self).return_address,
            final(self).result_gpr == if kind == ScalarKind::Void || kind.floating() {
                old(self).result_gpr
            } else {
                result_bits(kind, raw)
            },
            final(self).result_fpr == if kind.floating() {
                result_bits(kind, raw)
            } else {
                old(self).result_fpr
            },
    {
        match kind {
            ScalarKind::Void => {},
            ScalarKind::Signed { size } | ScalarKind::Unsigned { size } => {
                self.result_gpr = if size == 1 {
                    raw as u8 as u64
                } else if size == 2 {
                    raw as u16 as u64
                } else if size == 4 {
                    raw as u32 as u64
                } else {
                    raw
                };
            },
            ScalarKind::Pointer => {
                self.result_gpr = raw;
            },
            ScalarKind::Float => {
                self.result_fpr = raw as u32 as u64;
            },
            ScalarKind::Double => {
                self.result_fpr = raw;
            },
        }
    }
}

/// Callbacks and calls read the same type names, and in the same way but for `bool`, which
/// is a signed byte to a callback; they refuse other names with the same words.
pub proof fn callbacks_and_calls_agree_on_names(name: Seq<char>, allow_void: bool)
    ensures
        match (scalar_kind_of(name, allow_void), scalar_type_of(name, allow_void)) {
            (Ok(kind), Ok(called)) => match called {
                ScalarType::Void => kind == ScalarKind::Void,
                ScalarType::Bool => kind == (ScalarKind::Signed { size: 1 }),
                ScalarType::Signed(size) => kind == (ScalarKind::Signed { size }),
                ScalarType::Unsigned(size) => kind == (ScalarKind::Unsigned { size }),
                ScalarType::Pointer => kind == ScalarKind::Pointer,
                ScalarType::Float => kind == ScalarKind::Float,
                ScalarType::Double => kind == ScalarKind::Double,
            },
            (Err(message), Err(called)) => message == called,
            _ => false,
        },
{
}

/// Arguments go to the registers of their class in their order: the first eight floating
/// ones to the floating-point registers, the first eight others to the general ones. The
/// rest go to the stack, each to the place that as many arguments before it have taken.
pub proof fn arguments_fill_registers_in_order(kinds: Seq<ScalarKind>, index: int)
    requires
        kinds.len() <= 0xffff,
        0 <= index < kinds.len(),
    ensures
        planned(kinds).len() == kinds.len(),
        planned(kinds)[index].kind == kinds[index],
        ({
            let floats = kinds.take(index).filter(
                |k: ScalarKind| k is Float || k is Double,
            ).len() as int;
            let others = kinds.take(index).filter(
                |k: ScalarKind| !(k is Float || k is Double),
            ).len() as int;
            let over_floats: int = if floats > 8 {
                floats - 8
            } else {
                0
            };
            let over_others: int = if others > 8 {
                others - 8
            } else {
                0
            };
            let floating = kinds[index] is Float || kinds[index] is Double;
            &&& floating && floats < 8 ==> planned(kinds)[index].location == ArgumentLocation::Fpr(
                floats as u8,
            )
            &&& !floating && others < 8 ==> planned(kinds)[index].location
                == ArgumentLocation::Gpr(others as u8)
            &&& (floating && floats >= 8 || !floating && others >= 8) ==> planned(
                kinds,
            )[index].location == ArgumentLocation::Stack((over_floats + over_others) as u16)
        }),
{
    lemma_classes_add_up(kinds, index);
}

proof fn lemma_classes_add_up(kinds: Seq<ScalarKind>, count: int)
    requires
        0 <= count <= kinds.len(),
    ensures
        floating_before(kinds, count) == kinds.take(count).filter(
            |k: ScalarKind| k is Float || k is Double,
        ).len(),
        count - floating_before(kinds, count) == kinds.take(count).filter(
            |k: ScalarKind| !(k is Float || k is Double),
        ).len(),
    decreases count,
{
    reveal(Seq::filter);
    if count > 0 {
        lemma_classes_add_up(kinds, count - 1);
        assert(kinds.take(count).drop_last() =~= kinds.take(count - 1));
        assert(kinds.take(count).last() == kinds[count - 1]);
    }
}

/// The place of an argument names the word of the frame: the register with that number, or
/// the word of the caller's stack that is as far from its top.
pub proof fn places_name_words(frame: NativeCallbackFrame, stack: Seq<u64>, place: int)
    ensures
        0 <= place < 8 ==> word_in(frame, stack, ArgumentLocation::Gpr(place as u8))
            == frame.gpr@[place],
        0 <= place < 8 ==> word_in(frame, stack, ArgumentLocation::Fpr(place as u8))
            == frame.fpr@[place],
        0 <= place <= 0xffff ==> word_in(frame, stack, ArgumentLocation::Stack(place as u16))
            == stack[place],
{
}

/// An argument's value differs from its word by a multiple of the range of its size, and
/// lies in the range of its type; words of eight bytes, addresses and bits are kept whole.
pub proof fn argument_values_keep_the_low_bits(raw: u64)
    ensures
        argument_value_of(raw, ScalarKind::Signed { size: 1 }) matches NativeValue::Small(value)
            && -0x80 <= value < 0x80 && (raw - value) % 0x100 == 0,
        argument_value_of(raw, ScalarKind::Signed { size: 2 }) matches NativeValue::Small(value)
            && -0x8000 <= value < 0x8000 && (raw - value) % 0x1_0000 == 0,
        argument_value_of(raw, ScalarKind::Signed { size: 4 }) matches NativeValue::Small(value)
            && -0x8000_0000 <= value < 0x8000_0000 && (raw - value) % 0x1_0000_0000 == 0,
        argument_value_of(raw, ScalarKind::Signed { size: 8 }) matches NativeValue::Signed(value)
            && (raw == value || raw - value == 0x1_0000_0000_0000_0000),
        argument_value_of(raw, ScalarKind::Unsigned { size: 1 }) == NativeValue::Small(
            (raw % 0x100) as i64,
        ),
        argument_value_of(raw, ScalarKind::Unsigned { size: 2 }) == NativeValue::Small(
            (raw % 0x1_0000) as i64,
        ),
        argument_value_of(raw, ScalarKind::Unsigned { size: 4 }) == NativeValue::Small(
            (raw % 0x1_0000_0000) as i64,
        ),
        argument_value_of(raw, ScalarKind::Unsigned { size: 8 }) == NativeValue::Unsigned(raw),
        argument_value_of(raw, ScalarKind::Pointer) == NativeValue::Pointer(raw),
        argument_value_of(raw, ScalarKind::Float) == NativeValue::FloatBits(
            (raw % 0x1_0000_0000) as u32,
        ),
        argument_value_of(raw, ScalarKind::Double) == NativeValue::DoubleBits(raw),
        argument_value_of(raw, ScalarKind::Void) == NativeValue::Undefined,
{
    casts_keep_the_low_bits(raw, 0);
}

/// A result is cut to the size of its type, and reads back as the same value as the word
/// that the script gave.
pub proof fn results_are_cut_to_their_size(raw: u64, kind: ScalarKind)
    ensures
        kind == (ScalarKind::Signed { size: 1 }) || kind == (ScalarKind::Unsigned { size: 1 })
            ==> result_bits(kind, raw) == raw % 0x100,
        kind == (ScalarKind::Signed { size: 2 }) || kind == (ScalarKind::Unsigned { size: 2 })
            ==> result_bits(kind, raw) == raw % 0x1_0000,
        kind == (ScalarKind::Signed { size: 4 }) || kind == (ScalarKind::Unsigned { size: 4 })
            || kind is Float ==> result_bits(kind, raw) == raw % 0x1_0000_0000,
        kind == (ScalarKind::Signed { size: 8 }) || kind == (ScalarKind::Unsigned { size: 8 })
            || kind is Pointer || kind is Double ==> result_bits(kind, raw) == raw,
        argument_value_of(result_bits(kind, raw), kind) == argument_value_of(raw, kind),
{
    let bits = result_bits(kind, raw);
    casts_keep_the_low_bits(raw, 0);
    casts_keep_the_low_bits(bits, 0);
}

/// The code of a callback's entry is four instructions, of which the first two load what
/// stands behind the four: the address of the data and that of the common entry.
pub proof fn thunks_hold_their_addresses(data: u64, entry: u64)
    ensures
        thunk_code(data, entry).len() == 32,
        le_value(thunk_code(data, entry).subrange(0, 4)) == 0x5800_0000 + (16int / 4) * 32 + 16,
        le_value(thunk_code(data, entry).subrange(4, 8)) == 0x5800_0000 + ((24int - 4) / 4) * 32 + 17,
        le_value(thunk_code(data, entry).subrange(8, 12)) == 0xd61f_0000 + 17 * 32,
        le_value(thunk_code(data, entry).subrange(12, 16)) == 0xd503_201f,
        le_value(thunk_code(data, entry).subrange(16, 24)) == data,
        le_value(thunk_code(data, entry).subrange(24, 32)) == entry,
{
    let code = thunk_code(data, entry);
    lemma_byte_ranges();
    le_bytes_read_back(0x5800_0090, 4);
    le_bytes_read_back(0x5800_00b1, 4);
    le_bytes_read_back(0xd61f_0220, 4);
    le_bytes_read_back(0xd503_201f, 4);
    le_bytes_read_back(data as nat, 8);
    le_bytes_read_back(entry as nat, 8);
    assert(code.subrange(0, 4) =~= le_bytes(0x5800_0090, 4));
    assert(code.subrange(4, 8) =~= le_bytes(0x5800_00b1, 4));
    assert(code.subrange(8, 12) =~= le_bytes(0xd61f_0220, 4));
    assert(code.subrange(12, 16) =~= le_bytes(0xd503_201f, 4));
    assert(code.subrange(16, 24) =~= le_bytes(data as nat, 8));
    assert(code.subrange(24, 32) =~= le_bytes(entry as nat, 8));
}

/// Why a callback cannot be made, in the order of the checks.
pub open spec fn construct_error(
    argument_count: usize,
    is_function: bool,
    abi: AbiArgument,
    return_type: ScriptType,
    arguments: ScriptType,
) -> Option<(ErrorKind, Seq<char>)> {
    if argument_count < 3 {
        Some(
            (
                ErrorKind::TypeError,
                "NativeCallback requires function, return type, and argument types"@,
            ),
        )
    } else if !is_function {
        Some((ErrorKind::TypeError, "NativeCallback: first argument must be a function"@))
    } else if abi_error(abi) is Some {
        Some((ErrorKind::TypeError, abi_error(abi)->0))
    } else {
        signature_error(return_type, arguments)
    }
}

/// Checks the arguments of the constructor and reads the signature.
pub fn construct_signature(
    argument_count: usize,
    is_function: bool,
    abi: &AbiArgument,
    return_type: &ScriptType,
    arguments: &ScriptType,
) -> (result: Result<CallbackSignature, ScriptError>)
    ensures
        result is Err <==> construct_error(
            argument_count,
            is_function,
            *abi,
            *return_type,
            *arguments,
        ) is Some,
        result matches Err(error) ==> construct_error(
            argument_count,
            is_function,
            *abi,
            *return_type,
            *arguments,
        ) == Some(error@),
        result matches Ok(signature) ==> {
            &&& callback_type(*return_type, "return"@, true) == Ok::<
                ScalarKind,
                (ErrorKind, Seq<char>),
            >(signature.return_kind)
            &&& signature.arguments@ == planned(argument_kinds(arguments->List_0@))
        },
{
    if argument_count < 3 {
        return Err(
            type_error("NativeCallback requires function, return type, and argument types"),
        );
    }
    if !is_function {
        return Err(type_error("NativeCallback: first argument must be a function"));
    }
    match validate_abi(abi) {
        Err(error) => {
            return Err(error);
        },
        Ok(_) => {},
    }
    parse_signature(return_type, arguments)
}

/// A native function that calls into a script.
#[derive(Debug)]
pub struct NativeCallbackData {
    pub id: u64,
    /// The script's context; zero once the script is gone.
    pub context: u64,
    /// The script function; zero once it has been released.
    pub callback: u64,
    pub callback_alive: bool,
    pub signature: CallbackSignature,
    /// The address of the native entry. It stays mapped for the life of the process.
    pub thunk: u64,
    /// How many bytes are mapped for the entry.
    pub mapping_size: u64,
    pub active: bool,
}

/// A script function that has to be released.
#[derive(Clone, Copy, Debug, PartialEq, Eq, Structural)]
pub struct ReleasedCallback {
    pub context: u64,
    pub callback: u64,
}

/// All native functions that scripts have made.
#[derive(Debug)]
pub struct NativeCallbackRegistry {
    pub live: Vec<NativeCallbackData>,
    pub retired: Vec<NativeCallbackData>,
    pub next_id: u64,
}

/// The id that is given out next: zero is skipped.
pub open spec fn nonzero_id(next: u64) -> u64 {
    if next == 0 {
        1
    } else {
        next
    }
}

/// What is left of a callback whose script is gone: its entry and its signature.
pub open spec fn is_retired(before: NativeCallbackData, after: NativeCallbackData) -> bool {
    &&& after.id == before.id
    &&& after.signature == before.signature
    &&& after.thunk == before.thunk
    &&& after.mapping_size == before.mapping_size
    &&& !after.active
    &&& !after.callback_alive
    &&& before.callback_alive ==> after.context == 0 && after.callback == 0
    &&& !before.callback_alive ==> after.context == before.context && after.callback
        == before.callback
}

/// The script functions of a list of callbacks that are still held.
pub open spec fn held_callbacks(callbacks: Seq<NativeCallbackData>) -> Seq<ReleasedCallback>
    decreases callbacks.len(),
{
    if callbacks.len() == 0 {
        Seq::empty()
    } else {
        let front = held_callbacks(callbacks.drop_last());
        let last = callbacks.last();
        if last.callback_alive {
            front.push(ReleasedCallback { context: last.context, callback: last.callback })
        } else {
            front
        }
    }
}

/// The entry of the callback with an id.
pub open spec fn thunk_of(callbacks: Seq<NativeCallbackData>, id: u64) -> Option<u64>
    decreases callbacks.len(),
{
    if callbacks.len() == 0 {
        None
    } else if callbacks.last().id == id {
        Some(callbacks.last().thunk)
    } else {
        thunk_of(callbacks.drop_last(), id)
    }
}

/// A callback keeps its address when others are published.
pub proof fn callbacks_keep_their_addresses(
    callbacks: Seq<NativeCallbackData>,
    data: NativeCallbackData,
    id: u64,
)
    requires
        id != data.id,
    ensures
        thunk_of(callbacks.push(data), id) == thunk_of(callbacks, id),
        thunk_of(callbacks.push(data), data.id) == Some(data.thunk),
{
    assert(callbacks.push(data).drop_last() =~= callbacks);
}

impl NativeCallbackRegistry {
    pub fn new() -> (registry: NativeCallbackRegistry)
        ensures
            registry.live@.len() == 0,
            registry.retired@.len() == 0,
            registry.next_id == 1,
    {
        NativeCallbackRegistry { live: Vec::new(), retired: Vec::new(), next_id: 1 }
    }

    /// A new id. It is never zero.
    pub fn next_callback_id(&mut self) -> (id: u64)
        ensures
            id == nonzero_id(old(self).next_id),
            id != 0,
            final(self).next_id == if id == u64::MAX {
                0
            } else {
                (id + 1) as u64
            },
            final(self).live == old(self).live,
            final(self).retired == old(self).retired,
    {
        let id: u64 = if self.next_id == 0 {
            1
        } else {
            self.next_id
        };
        self.next_id = id.wrapping_add(1);
        id
    }

    /// Publishes a callback whose native entry exists.
    pub fn publish(&mut self, data: NativeCallbackData)
        ensures
            final(self).live@ == old(self).live@.push(data),
            final(self).retired == old(self).retired,
            final(self).next_id == old(self).next_id,
            thunk_of(final(self).live@, data.id) == Some(data.thunk),
    {
        self.live.push(data);
    }

    /// The native address of the callback with an id.
    pub fn native_callback_address(&self, id: u64) -> (address: Option<u64>)
        ensures
            address == thunk_of(self.live@, id),
    {
        let mut i: usize = self.live.len();
        assert(self.live@.take(i as int) =~= self.live@);
        while i > 0
            invariant
                i <= self.live@.len(),
                thunk_of(self.live@, id) == thunk_of(self.live@.take(i as int), id),
            decreases i,
        {
            assert(self.live@.take(i as int).drop_last() =~= self.live@.take(i - 1));
            assert(self.live@.take(i as int).last() == self.live@[i - 1]);
            if self.live[i - 1].id == id {
                return Some(self.live[i - 1].thunk);
            }
            i = i - 1;
        }
        None
    }

    /// Stops all callbacks from entering their scripts.
    pub fn cut_native_callbacks(&mut self)
        ensures
            final(self).live@.len() == old(self).live@.len(),
            forall|i: int|
                0 <= i < final(self).live@.len() ==> #[trigger] final(self).live@[i] == (
                NativeCallbackData { active: false, ..old(self).live@[i] }),
            final(self).retired == old(self).retired,
            final(self).next_id == old(self).next_id,
    {
        let ghost before = self.live@;
        let mut i: usize = 0;
        while i < self.live.len()
            invariant
                i <= self.live@.len(),
                self.live@.len() == before.len(),
                self.retired == old(self).retired,
                self.next_id == old(self).next_id,
                forall|k: int|
                    0 <= k < i ==> #[trigger] self.live@[k] == (NativeCallbackData {
                        active: false,
                        ..before[k]
                    }),
                forall|k: int| i <= k < before.len() ==> #[trigger] self.live@[k] == before[k],
            decreases self.live@.len() - i,
        {
            self.live[i].active = false;
            i = i + 1;
        }
    }

    /// Retires all callbacks and hands out the script functions to release. The native
    /// entries stay: native code may still hold their addresses.
    pub fn free_native_callbacks(&mut self) -> (released: Vec<ReleasedCallback>)
        ensures
            final(self).live@.len() == 0,
            final(self).next_id == old(self).next_id,
            final(self).retired@.len() == old(self).retired@.len() + old(self).live@.len(),
            forall|i: int|
                0 <= i < old(self).retired@.len() ==> #[trigger] final(self).retired@[i] == old(
                    self).retired@[i],
            forall|i: int|
                0 <= i < old(self).live@.len() ==> is_retired(
                    #[trigger] old(self).live@[i],
                    final(self).retired@[old(self).retired@.len() + i],
                ),
            released@ == held_callbacks(old(self).live@),
    {
        let mut callbacks: Vec<NativeCallbackData> = Vec::new();
        core::mem::swap(&mut self.live, &mut callbacks);
        let ghost all = callbacks@;
        let ghost earlier = self.retired@;
        let mut released: Vec<ReleasedCallback> = Vec::new();
        assert(all.take(0) =~= Seq::<NativeCallbackData>::empty());
        for callback in it: callbacks
            invariant
                it.seq() == all,
                self.live@.len() == 0,
                self.next_id == old(self).next_id,
                self.retired@.len() == earlier.len() + it.index(),
                forall|i: int| 0 <= i < earlier.len() ==> #[trigger] self.retired@[i] == earlier[i],
                forall|i: int|
                    0 <= i < it.index() ==> is_retired(
                        #[trigger] all[i],
                        self.retired@[earlier.len() + i],
                    ),
                released@ == held_callbacks(all.take(it.index() as int)),
        {
            let ghost done = it.index() as int;
            assert(all.take(done + 1).drop_last() =~= all.take(done));
            assert(all.take(done + 1).last() == callback);
            let mut retired: NativeCallbackData = callback;
            retired.active = false;
            if retired.callback_alive {
                released.push(
                    ReleasedCallback { context: retired.context, callback: retired.callback },
                );
                retired.callback_alive = false;
                retired.callback = 0;
                retired.context = 0;
            }
            self.retired.push(retired);
        }
        assert(all.take(all.len() as int) =~= all);
        released
    }
}

/// A callback is made of a function, a result type and a list of up to 256 argument types
/// that are not void, all of them scalars, under the only calling convention.
pub proof fn callbacks_are_made_of_scalars(
    argument_count: usize,
    is_function: bool,
    abi: AbiArgument,
    return_type: ScriptType,
    types: Vec<ScriptType>,
)
    ensures
        construct_error(
            argument_count,
            is_function,
            abi,
            return_type,
            ScriptType::List(types),
        ) is None <==> {
            &&& argument_count >= 3
            &&& is_function
            &&& abi is Unspecified || (abi is Name && (abi->Name_0@ == "default"@ || abi->Name_0@
                == "sysv"@))
            &&& callback_type(return_type, "return"@, true) is Ok
            &&& types@.len() <= 256
            &&& forall|i: int|
                0 <= i < types@.len() ==> callback_type(
                    #[trigger] types@[i],
                    "argument"@,
                    false,
                ) is Ok
        },
{
    lemma_no_argument_error(types@);
}

proof fn lemma_no_argument_error(types: Seq<ScriptType>)
    ensures
        argument_error(types) is None <==> forall|i: int|
            0 <= i < types.len() ==> callback_type(#[trigger] types[i], "argument"@, false) is Ok,
    decreases types.len(),
{
    if types.len() > 0 {
        let front = types.drop_last();
        lemma_no_argument_error(front);
        assert(forall|i: int| 0 <= i < front.len() ==> #[trigger] front[i] == types[i]);
        assert(types.last() == types[types.len() - 1]);
        if argument_error(types) is None {
            assert forall|i: int| 0 <= i < types.len() implies callback_type(
                #[trigger] types[i],
                "argument"@,
                false,
            ) is Ok by {
                if i < front.len() {
                    assert(callback_type(front[i], "argument"@, false) is Ok);
                }
            }
        }
        if forall|i: int|
            0 <= i < types.len() ==> callback_type(#[trigger] types[i], "argument"@, false) is Ok {
            assert forall|i: int| 0 <= i < front.len() implies callback_type(
                #[trigger] front[i],
                "argument"@,
                false,
            ) is Ok by {
                assert(callback_type(types[i], "argument"@, false) is Ok);
            }
        }
    }
}

/// The type of an argument or a result is a name, or something that converts to one, and no
/// list; it stands for what the name stands for.
pub proof fn callback_types_are_names(value: ScriptType, position: Seq<char>, allow_void: bool)
    ensures
        value is List || value is Opaque || value is Failed ==> callback_type(
            value,
            position,
            allow_void,
        ) is Err,
        value matches ScriptType::Name(name) ==> (callback_type(value, position, allow_void) is Ok
            <==> scalar_type_of(name@, allow_void) is Ok),
        value matches ScriptType::Convertible(name) ==> (callback_type(value, position, allow_void)
            is Ok <==> scalar_type_of(name@, allow_void) is Ok),
        value matches ScriptType::Name(name) ==> (callback_type(
            value,
            position,
            allow_void,
        ) matches Ok(kind) ==> scalar_kind_of(name@, allow_void) == Ok::<ScalarKind, Seq<char>>(
            kind,
        )),
{
}

/// The script functions to release are those of the callbacks that still hold one; numbers
/// of callbacks are never zero.
pub proof fn held_functions_are_released(
    callbacks: Seq<NativeCallbackData>,
    data: NativeCallbackData,
    next: u64,
)
    ensures
        held_callbacks(Seq::empty()) == Seq::<ReleasedCallback>::empty(),
        data.callback_alive ==> held_callbacks(callbacks.push(data)) == held_callbacks(
            callbacks,
        ).push(ReleasedCallback { context: data.context, callback: data.callback }),
        !data.callback_alive ==> held_callbacks(callbacks.push(data)) == held_callbacks(callbacks),
        nonzero_id(next) != 0,
        next != 0 ==> nonzero_id(next) == next,
{
    assert(callbacks.push(data).drop_last() =~= callbacks);
}

} // verus!
