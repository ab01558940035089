//! What scripts may ask of symbols, call stacks and instructions.

use crate::memory_access::{access_error_text, MemoryAccessError};
use crate::script::{internal_error, joined, ErrorKind, ScriptError};
use crate::text::{prefixed_hex, push_prefixed_hex};
use vstd::prelude::*;
use vstd::string::*;

verus! {

/// The registers of a thread.
#[derive(Clone, Copy, Debug)]
pub struct DiagnosticsCpuContext {
    pub pc: u64,
    pub sp: u64,
    pub nzcv: u64,
    pub x: [u64; 29],
    pub fp: u64,
    pub lr: u64,
}

/// The code addresses of the embedder's functions that answer scripts.
#[derive(Clone, Copy, Debug, PartialEq, Eq, Structural)]
pub struct DiagnosticsBackend {
    pub debug_symbol_from_address: u64,
    pub debug_symbol_from_name: u64,
    pub debug_symbol_get_function_by_name: u64,
    pub debug_symbol_find_functions_named: u64,
    pub debug_symbol_find_functions_matching: u64,
    pub debug_symbol_load: u64,
    pub backtrace: u64,
    pub parse_instruction: u64,
    pub enumerate_module_api_matches: u64,
}

/// Where the embedder's functions are kept.
#[derive(Clone, Copy, Debug, PartialEq, Eq, Structural)]
pub struct DiagnosticsSlot {
    pub backend: Option<DiagnosticsBackend>,
}

/// Makes the embedder's functions available to scripts.
pub fn install_diagnostics_backend(slot: &mut DiagnosticsSlot, backend: DiagnosticsBackend)
    ensures
        final(slot).backend == Some(backend),
{
    slot.backend = Some(backend);
}

/// Makes the embedder's functions available to scripts.
pub fn install_quickjs_backend(slot: &mut DiagnosticsSlot, backend: DiagnosticsBackend)
    ensures
        final(slot).backend == Some(backend),
{
    install_diagnostics_backend(slot, backend);
}

/// The embedder's functions, if there are any.
pub fn backend_or_throw(slot: &DiagnosticsSlot) -> (result: Result<
    DiagnosticsBackend,
    ScriptError,
>)
    ensures
        result is Ok <==> slot.backend is Some,
        result matches Ok(backend) ==> slot.backend == Some(backend),
        result matches Err(error) ==> error@ == (
            ErrorKind::InternalError,
            "diagnostics backend is not available"@,
        ),
{
    match slot.backend {
        Some(backend) => Ok(backend),
        None => Err(internal_error("diagnostics backend is not available")),
    }
}

/// An argument that has to be a string.
#[derive(Debug)]
pub enum TextArgument {
    Missing,
    /// A value of another type.
    Other,
    /// A string that could not be read.
    Unreadable,
    Text(String),
}

/// What is wrong with an argument that has to be a string.
pub open spec fn text_argument_problem(argument: TextArgument, name: Seq<char>) -> Option<
    Seq<char>,
> {
    match argument {
        TextArgument::Missing => Some(name + " is required"@),
        TextArgument::Other => Some(name + " must be a string"@),
        TextArgument::Unreadable => Some("failed to read "@ + name),
        TextArgument::Text(_) => None,
    }
}

/// An argument that has to be a string.
pub fn string_argument(argument: TextArgument, name: &str) -> (result: Result<String, ScriptError>)
    ensures
        result is Err <==> text_argument_problem(argument, name@) is Some,
        result matches Ok(text) ==> argument == TextArgument::Text(text),
        result matches Err(error) ==> {
            &&& error@.0 == ErrorKind::InternalError
            &&& Some(error@.1) == text_argument_problem(argument, name@)
        },
{
    let message: String = match argument {
        TextArgument::Missing => joined(name, " is required"),
        TextArgument::Other => joined(name, " must be a string"),
        TextArgument::Unreadable => joined("failed to read ", name),
        TextArgument::Text(text) => {
            return Ok(text);
        },
    };
    Err(ScriptError { kind: ErrorKind::InternalError, message })
}

/// What a script passes as the registers of a thread.
#[derive(Debug)]
pub enum ContextArgument {
    /// Null, undefined or nothing.
    Absent,
    /// A value that is no object.
    Other,
    Registers(ContextRegisters),
}

/// The registers that an object of a script gives, each if it converts to an address.
#[derive(Debug)]
pub struct ContextRegisters {
    pub pc: Option<u64>,
    pub sp: Option<u64>,
    pub nzcv: Option<u64>,
    /// From `x0` to `x30`.
    pub x: [Option<u64>; 31],
    pub fp: Option<u64>,
    pub lr: Option<u64>,
}

/// A register that is zero unless it is given.
pub open spec fn given(register: Option<u64>) -> u64 {
    match register {
        Some(value) => value,
        None => 0,
    }
}

fn register_or_zero(register: Option<u64>) -> (value: u64)
    ensures
        value == given(register),
{
    match register {
        Some(value) => value,
        None => 0,
    }
}

/// Whether a context holds what a script gave: a register that is not given is zero; the
/// frame pointer and the link register also go by their numbers.
pub open spec fn context_of(context: DiagnosticsCpuContext, registers: ContextRegisters) -> bool {
    &&& context.pc == given(registers.pc)
    &&& context.sp == given(registers.sp)
    &&& context.nzcv == given(registers.nzcv)
    &&& forall|i: int| 0 <= i < 29 ==> #[trigger] context.x@[i] == given(registers.x@[i])
    &&& context.fp == given(
        if registers.fp is Some {
            registers.fp
        } else {
            registers.x@[29]
        },
    )
    &&& context.lr == given(
        if registers.lr is Some {
            registers.lr
        } else {
            registers.x@[30]
        },
    )
}

/// The registers of a thread as a script gives them, if it does.
pub fn parse_cpu_context(argument: &ContextArgument) -> (result: Result<
    Option<DiagnosticsCpuContext>,
    ScriptError,
>)
    ensures
        result is Err <==> *argument is Other,
        result matches Err(error) ==> error@ == (
            ErrorKind::InternalError,
            "cpuContext must be an object or null"@,
        ),
        result matches Ok(context) ==> match *argument {
            ContextArgument::Registers(registers) => context is Some && context_of(
                context->0,
                registers,
            ),
            _ => context is None,
        },
{
    match argument {
        ContextArgument::Absent => Ok(None),
        ContextArgument::Other => Err(internal_error("cpuContext must be an object or null")),
        ContextArgument::Registers(registers) => {
            let mut x: [u64; 29] = [0u64; 29];
            let mut i: usize = 0;
            while i < 29
                invariant
                    i <= 29,
                    forall|k: int| 0 <= k < i ==> #[trigger] x@[k] == given(registers.x@[k]),
                decreases 29 - i,
            {
                x[i] = register_or_zero(registers.x[i]);
                i = i + 1;
            }
            let fp: Option<u64> = if registers.fp.is_some() {
                registers.fp
            } else {
                registers.x[29]
            };
            let lr: Option<u64> = if registers.lr.is_some() {
                registers.lr
            } else {
                registers.x[30]
            };
            Ok(
                Some(
                    DiagnosticsCpuContext {
                        pc: register_or_zero(registers.pc),
                        sp: register_or_zero(registers.sp),
                        nzcv: register_or_zero(registers.nzcv),
                        x,
                        fp: register_or_zero(fp),
                        lr: register_or_zero(lr),
                    },
                ),
            )
        },
    }
}

/// How a call stack is walked.
#[derive(Clone, Copy, Debug, PartialEq, Eq, Structural)]
pub enum BacktracerKind {
    Accurate,
    Fuzzy,
}

/// A number that a script passes.
#[derive(Clone, Copy, Debug, PartialEq, Eq, Structural)]
pub enum NumberArgument {
    Missing,
    /// A value that does not convert.
    Other,
    Signed(i64),
    Unsigned(u64),
}

/// What a script asks of a call stack: the number of the walker and the limit, where zero
/// stands for none.
#[derive(Clone, Copy, Debug, PartialEq, Eq, Structural)]
pub struct BacktraceQuery {
    pub kind: u32,
    pub limit: usize,
}

/// The walker that a script asks for.
pub open spec fn walker_number(argument: NumberArgument) -> Option<u32> {
    match argument {
        NumberArgument::Missing => Some(1),
        NumberArgument::Signed(value) => if value == 1 || value == 2 {
            Some(value as u32)
        } else {
            None
        },
        _ => None,
    }
}

/// The limit that a script asks for.
pub open spec fn walk_limit(argument: NumberArgument) -> Option<usize> {
    match argument {
        NumberArgument::Missing => Some(0),
        NumberArgument::Unsigned(value) => if value <= usize::MAX {
            Some(value as usize)
        } else {
            None
        },
        _ => None,
    }
}

/// What a script asks of a call stack.
pub fn js_thread_backtrace(slot: &DiagnosticsSlot, kind: NumberArgument, limit: NumberArgument) -> (result:
    Result<BacktraceQuery, ScriptError>)
    ensures
        result is Ok <==> walker_number(kind) is Some && walk_limit(limit) is Some
            && slot.backend is Some,
        result matches Ok(query) ==> Some(query.kind) == walker_number(kind) && Some(query.limit)
            == walk_limit(limit),
        result matches Err(error) ==> error@ == (
            ErrorKind::InternalError,
            if walker_number(kind) is None {
                "invalid backtracer enum value"@
            } else if walk_limit(limit) is None {
                "backtrace limit must be an unsigned integer"@
            } else {
                "diagnostics backend is not available"@
            },
        ),
{
    let number: u32 = match kind {
        NumberArgument::Missing => 1,
        NumberArgument::Signed(value) => if value == 1 || value == 2 {
            value as u32
        } else {
            return Err(internal_error("invalid backtracer enum value"));
        },
        _ => {
            return Err(internal_error("invalid backtracer enum value"));
        },
    };
    let most: usize = match limit {
        NumberArgument::Missing => 0,
        NumberArgument::Unsigned(value) => if value <= usize::MAX as u64 {
            value as usize
        } else {
            return Err(internal_error("backtrace limit must be an unsigned integer"));
        },
        _ => {
            return Err(internal_error("backtrace limit must be an unsigned integer"));
        },
    };
    match backend_or_throw(slot) {
        Ok(_) => Ok(BacktraceQuery { kind: number, limit: most }),
        Err(error) => Err(error),
    }
}

/// The most return addresses that a walk has room for.
pub const WALK_ROOM: usize = 16;

/// The walker for a number.
pub fn backtracer_kind(kind: u32) -> (result: Result<BacktracerKind, String>)
    ensures
        result is Ok <==> kind == 1 || kind == 2,
        result matches Ok(walker) ==> walker == if kind == 1 {
            BacktracerKind::Accurate
        } else {
            BacktracerKind::Fuzzy
        },
        result matches Err(error) ==> error@ == "invalid backtracer enum value"@,
{
    if kind == 1 {
        Ok(BacktracerKind::Accurate)
    } else if kind == 2 {
        Ok(BacktracerKind::Fuzzy)
    } else {
        Err(String::from_str("invalid backtracer enum value"))
    }
}

/// The limit to walk with, if the walker is available; none if there is no limit.
pub fn backtrace(walker: BacktracerKind, available: bool, limit: usize) -> (result: Result<
    Option<u32>,
    String,
>)
    ensures
        result is Ok <==> available,
        result matches Ok(most) ==> most == if limit == 0 {
            None::<u32>
        } else if limit < WALK_ROOM {
            Some(limit as u32)
        } else {
            Some(WALK_ROOM as u32)
        },
        result matches Err(error) ==> error@
            == "backtracer not yet available for this platform; please try Thread.backtrace(context, Backtracer."@
            + (if walker == BacktracerKind::Accurate {
            "FUZZY"@
        } else {
            "ACCURATE"@
        }) + ")"@,
{
    if !available {
        let alternative: &'static str = match walker {
            BacktracerKind::Accurate => "FUZZY",
            BacktracerKind::Fuzzy => "ACCURATE",
        };
        let mut error: String = String::from_str(
            "backtracer not yet available for this platform; please try Thread.backtrace(context, Backtracer.",
        );
        error.append(alternative);
        error.append(")");
        return Err(error);
    }
    if limit == 0 {
        Ok(None)
    } else if limit < WALK_ROOM {
        Ok(Some(limit as u32))
    } else {
        Ok(Some(WALK_ROOM as u32))
    }
}

/// The return addresses of a walk, of which `len` are said to hold.
pub fn return_addresses(items: &[u64], len: u32) -> (addresses: Vec<u64>)
    ensures
        addresses@ == items@.take(
            if len <= items@.len() {
                len as int
            } else {
                items@.len() as int
            },
        ),
{
    let count: usize = if (len as u64) < items.len() as u64 {
        len as usize
    } else {
        items.len()
    };
    let addresses: Vec<u64> = vstd::slice::slice_to_vec(
        vstd::slice::slice_subrange(items, 0, count),
    );
    assert(addresses@ =~= items@.take(count as int));
    addresses
}

/// That an instruction's bytes could not be read.
pub fn unreadable_instruction(address: u64, error: &MemoryAccessError) -> (failure: ScriptError)
    ensures
        failure@ == (
            ErrorKind::InternalError,
            "unable to read instruction at "@ + prefixed_hex(address as nat) + ": "@
                + access_error_text(*error),
        ),
{
    let mut message: String = String::from_str("unable to read instruction at ");
    push_prefixed_hex(&mut message, address);
    message.append(": ");
    message.append(error.text().as_str());
    ScriptError { kind: ErrorKind::InternalError, message }
}

/// A question about a name, and the functions that answer it.
#[derive(Debug)]
pub struct TextQuery {
    pub text: String,
    pub backend: DiagnosticsBackend,
}

/// Checks a question about a name. The name is looked at before the embedder's functions.
pub fn text_query(slot: &DiagnosticsSlot, argument: TextArgument, name: &str) -> (result: Result<
    TextQuery,
    ScriptError,
>)
    ensures
        match text_argument_problem(argument, name@) {
            Some(problem) => result is Err && result->Err_0@ == (
                ErrorKind::InternalError,
                problem,
            ),
            None => match slot.backend {
                Some(backend) => result is Ok && result->Ok_0.backend == backend && argument
                    == TextArgument::Text(result->Ok_0.text),
                None => result is Err && result->Err_0@ == (
                    ErrorKind::InternalError,
                    "diagnostics backend is not available"@,
                ),
            },
        },
{
    let text: String = match string_argument(argument, name) {
        Ok(text) => text,
        Err(error) => {
            return Err(error);
        },
    };
    match backend_or_throw(slot) {
        Ok(backend) => Ok(TextQuery { text, backend }),
        Err(error) => Err(error),
    }
}

/// A question about an address, and the functions that answer it.
#[derive(Clone, Copy, Debug)]
pub struct AddressQuery {
    pub address: u64,
    pub backend: DiagnosticsBackend,
}

/// Checks a question about the symbol at an address. One that does not convert comes as
/// the error for it.
pub fn js_debug_symbol_from_address(
    slot: &DiagnosticsSlot,
    argument_count: usize,
    address: Result<u64, ScriptError>,
) -> (result: Result<AddressQuery, ScriptError>)
    ensures
        if argument_count < 1 {
            result is Err && result->Err_0@ == (ErrorKind::InternalError, "address is required"@)
        } else {
            match address {
                Err(error) => result is Err && result->Err_0 == error,
                Ok(address) => match slot.backend {
                    Some(backend) => result is Ok && result->Ok_0 == (AddressQuery {
                        address,
                        backend,
                    }),
                    None => result is Err && result->Err_0@ == (
                        ErrorKind::InternalError,
                        "diagnostics backend is not available"@,
                    ),
                },
            }
        },
{
    if argument_count < 1 {
        return Err(internal_error("address is required"));
    }
    let address: u64 = match address {
        Ok(address) => address,
        Err(error) => {
            return Err(error);
        },
    };
    match backend_or_throw(slot) {
        Ok(backend) => Ok(AddressQuery { address, backend }),
        Err(error) => Err(error),
    }
}

/// Checks a question about the instruction at an address, which carries no tag. `read` is
/// whether its bytes could be read; they are read before the embedder's functions are
/// looked for.
pub fn js_instruction_parse(
    slot: &DiagnosticsSlot,
    argument_count: usize,
    address: Result<u64, ScriptError>,
    read: Result<(), MemoryAccessError>,
) -> (result: Result<AddressQuery, ScriptError>)
    ensures
        if argument_count < 1 {
            result is Err && result->Err_0@ == (ErrorKind::InternalError, "address is required"@)
        } else {
            match (address, read) {
                (Err(error), _) => result is Err && result->Err_0 == error,
                (Ok(address), Err(error)) => result is Err && result->Err_0@ == (
                    ErrorKind::InternalError,
                    "unable to read instruction at "@ + prefixed_hex(address as nat) + ": "@
                        + access_error_text(error),
                ),
                (Ok(address), Ok(_)) => match slot.backend {
                    Some(backend) => result is Ok && result->Ok_0 == (AddressQuery {
                        address,
                        backend,
                    }),
                    None => result is Err && result->Err_0@ == (
                        ErrorKind::InternalError,
                        "diagnostics backend is not available"@,
                    ),
                },
            }
        },
{
    if argument_count < 1 {
        return Err(internal_error("address is required"));
    }
    let address: u64 = match address {
        Ok(address) => address,
        Err(error) => {
            return Err(error);
        },
    };
    match read {
        Err(error) => {
            return Err(unreadable_instruction(address, &error));
        },
        Ok(_) => {},
    }
    match backend_or_throw(slot) {
        Ok(backend) => Ok(AddressQuery { address, backend }),
        Err(error) => Err(error),
    }
}

/// Walkers are the first and the second, and the first is meant where none is given; a limit
/// is an unsigned number, and there is none where it is not given.
pub proof fn walkers_and_limits_are_numbers(value: i64, limit: u64)
    ensures
        walker_number(NumberArgument::Missing) == Some(1u32),
        value == 1 || value == 2 ==> walker_number(NumberArgument::Signed(value)) == Some(
            value as u32,
        ),
        value != 1 && value != 2 ==> walker_number(NumberArgument::Signed(value)) is None,
        walker_number(NumberArgument::Other) is None,
        walk_limit(NumberArgument::Missing) == Some(0usize),
        limit <= usize::MAX ==> walk_limit(NumberArgument::Unsigned(limit)) == Some(limit as usize),
        walk_limit(NumberArgument::Other) is None,
{
}

/// A script's context gives each register under its name; one that is left out is zero. The
/// frame pointer and the link register may also be given by their numbers, but their names
/// count first.
pub proof fn contexts_hold_what_is_given(
    context: DiagnosticsCpuContext,
    registers: ContextRegisters,
    at: int,
)
    requires
        context_of(context, registers),
        0 <= at < 29,
    ensures
        registers.x@[at] matches Some(value) ==> context.x@[at] == value,
        registers.x@[at] is None ==> context.x@[at] == 0,
        registers.pc matches Some(value) ==> context.pc == value,
        registers.pc is None ==> context.pc == 0,
        registers.sp matches Some(value) ==> context.sp == value,
        registers.sp is None ==> context.sp == 0,
        registers.nzcv matches Some(value) ==> context.nzcv == value,
        registers.nzcv is None ==> context.nzcv == 0,
        registers.fp matches Some(value) ==> context.fp == value,
        registers.fp is None && registers.x@[29] is Some ==> context.fp == registers.x@[29]->0,
        registers.fp is None && registers.x@[29] is None ==> context.fp == 0,
        registers.lr matches Some(value) ==> context.lr == value,
        registers.lr is None && registers.x@[30] is Some ==> context.lr == registers.x@[30]->0,
        registers.lr is None && registers.x@[30] is None ==> context.lr == 0,
{
}

} // verus!
