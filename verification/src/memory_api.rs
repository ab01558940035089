//! The memory operations that scripts call: what they check, and in which order.

use crate::memory_access::{
    access_error_text, copy_memory, copy_problem, parse_dup_size, parse_size, CopyPlan,
    MemoryAccessError, MAX_OPERATION_SIZE, MAX_OWNED_ALLOCATION,
};
use crate::memory_alloc::{
    alloc_options_of, alloc_plan_of, check_patch, covering_pages, format_protection, memory_alloc,
    memory_protect, parse_alloc_options, protect_plan_of, protection_text, AllocOptions, AllocPlan,
    OptionsArgument, PageRange, ProtectPlan, MAX_ALLOCATION,
};
use crate::memory_pattern::MatchPattern;
use crate::memory_pointers::{parse_range_size, Range, MAX_RANGE};
use crate::memory_scan::{ScanCursor, ScanJob, ScanJobs};
use crate::memory_text::{
    optional_length_of, parse_array_length, parse_optional_length, text_byte_length,
    write_string_bytes, written_text, MAX_READ_SIZE,
};
use crate::memory_value::{
    argument_address, get_addr_from_arg, get_addr_this_or_arg, operation_address,
    OperationAddress,
};
use crate::pointer::{get_native_pointer_addr, value_address, PointerArgument};
use crate::script::{internal_error, joined, range_error, type_error, ErrorKind, ScriptError};
use crate::text::{numeral, prefixed_hex, push_numeral, push_prefixed_hex};
use std::collections::HashSet;
use vstd::prelude::*;
use vstd::string::*;

verus! {

broadcast use vstd::std_specs::hash::group_hash_axioms;

/// How memory is allocated for a script, or why not. Options are the second argument.
pub open spec fn script_alloc(
    argument_count: usize,
    size: Option<i64>,
    options: OptionsArgument,
    page_size: u64,
) -> Result<AllocPlan, (ErrorKind, Seq<char>)> {
    if argument_count < 1 {
        Err((ErrorKind::TypeError, "Memory.alloc() requires 1 argument: size"@))
    } else {
        let given = if argument_count >= 2 {
            options
        } else {
            OptionsArgument::Unspecified
        };
        alloc_plan_of(size, alloc_options_of(given), page_size)
    }
}

/// How memory is allocated for a script.
pub fn js_memory_alloc(
    argument_count: usize,
    size: Option<i64>,
    options: &OptionsArgument,
    page_size: u64,
) -> (result: Result<AllocPlan, ScriptError>)
    requires
        page_size > 0,
    ensures
        match (result, script_alloc(argument_count, size, *options, page_size)) {
            (Ok(plan), Ok(expected)) => plan == expected,
            (Err(error), Err(expected)) => error@ == expected,
            _ => false,
        },
{
    if argument_count < 1 {
        return Err(type_error("Memory.alloc() requires 1 argument: size"));
    }
    let options: Result<AllocOptions, ScriptError> = if argument_count >= 2 {
        parse_alloc_options(options)
    } else {
        parse_alloc_options(&OptionsArgument::Unspecified)
    };
    memory_alloc(size, options, page_size)
}

/// What an allocation came to; zero stands for no memory.
pub fn alloc_outcome(plan: AllocPlan, address: u64) -> (result: Result<u64, ScriptError>)
    ensures
        result is Ok <==> address != 0,
        result matches Ok(found) ==> found == address,
        result matches Err(error) ==> error@ == (
            ErrorKind::InternalError,
            if plan is Near {
                "Memory.alloc() unable to allocate free page(s) near address"@
            } else {
                "Memory.alloc() out of memory"@
            },
        ),
{
    if address != 0 {
        return Ok(address);
    }
    Err(
        match plan {
            AllocPlan::Near { .. } => internal_error(
                "Memory.alloc() unable to allocate free page(s) near address",
            ),
            _ => internal_error("Memory.alloc() out of memory"),
        },
    )
}

/// What a contract says of a text that may be missing.
pub open spec fn given(text: Option<&str>) -> Option<Seq<char>> {
    match text {
        Some(text) => Some(text@),
        None => None,
    }
}

/// What a change of protection for a script comes to. An address that does not convert
/// comes as the error for it.
pub fn js_memory_protect(
    argument_count: usize,
    address: Result<u64, ScriptError>,
    size: Option<i64>,
    protection: Option<&str>,
    page_size: Option<u64>,
) -> (result: Result<Option<ProtectPlan>, ScriptError>)
    requires
        page_size matches Some(page) ==> page > 0,
    ensures
        argument_count < 3 ==> result is Err && result->Err_0@ == (
            ErrorKind::TypeError,
            "Memory.protect(addr, size, protection) requires 3 arguments"@,
        ),
        argument_count >= 3 && address is Err ==> result is Err && result->Err_0
            == address->Err_0,
        argument_count >= 3 && address is Ok ==> match (
            result,
            protect_plan_of(address->Ok_0, size, given(protection), page_size),
        ) {
            (Ok(plan), Ok(expected)) => plan == expected,
            (Err(error), Err(expected)) => error@ == expected,
            _ => false,
        },
{
    if argument_count < 3 {
        return Err(type_error("Memory.protect(addr, size, protection) requires 3 arguments"));
    }
    match address {
        Err(error) => Err(error),
        Ok(address) => memory_protect(address, size, protection, page_size),
    }
}

/// That the system did not change a protection, for its reason.
pub fn protect_failed(address: u64, size: usize, protection: &str, reason: &str) -> (error: ScriptError)
    ensures
        error@ == (
            ErrorKind::RangeError,
            "Memory.protect("@ + prefixed_hex(address as nat) + ", "@ + numeral(size as nat, 10)
                + ", \""@ + protection@ + "\"): "@ + reason@,
        ),
{
    let mut message: String = String::from_str("Memory.protect(");
    push_prefixed_hex(&mut message, address);
    message.append(", ");
    push_numeral(&mut message, size as u64, 10);
    message.append(", \"");
    message.append(protection);
    message.append("\"): ");
    message.append(reason);
    ScriptError { kind: ErrorKind::RangeError, message }
}

/// Code that has to be fetched from memory again.
#[derive(Clone, Copy, Debug, PartialEq, Eq, Structural)]
pub struct FlushRange {
    pub start: u64,
    pub size: u64,
}

/// What has to be flushed for a script.
pub fn memory_flush_code_cache(
    argument_count: usize,
    address: Result<u64, ScriptError>,
    size: Option<i64>,
) -> (result: Result<FlushRange, ScriptError>)
    ensures
        argument_count < 2 ==> result is Err && result->Err_0@ == (
            ErrorKind::TypeError,
            "Memory.flushCodeCache() requires (addr, size)"@,
        ),
        argument_count >= 2 && address is Err ==> result is Err && result->Err_0
            == address->Err_0,
        argument_count >= 2 && address is Ok ==> {
            &&& result is Ok <==> size is Some && size->0 > 0
            &&& result matches Ok(range) ==> range.start == address->Ok_0 && range.size == size->0
            &&& result matches Err(error) ==> error@ == (
                ErrorKind::TypeError,
                "Memory.flushCodeCache() size must be positive"@,
            )
        },
{
    if argument_count < 2 {
        return Err(type_error("Memory.flushCodeCache() requires (addr, size)"));
    }
    let start: u64 = match address {
        Err(error) => {
            return Err(error);
        },
        Ok(start) => start,
    };
    match size {
        Some(size) => {
            if size > 0 {
                return Ok(FlushRange { start, size: size as u64 });
            }
        },
        None => {},
    }
    Err(type_error("Memory.flushCodeCache() size must be positive"))
}

/// The name of the operation that allocates a text.
pub open spec fn alloc_string_name(utf16: bool) -> Seq<char> {
    if utf16 {
        "Memory.allocUtf16String()"@
    } else {
        "Memory.allocUtf8String()"@
    }
}

fn alloc_string_operation(utf16: bool) -> (name: &'static str)
    ensures
        name@ == alloc_string_name(utf16),
{
    if utf16 {
        "Memory.allocUtf16String()"
    } else {
        "Memory.allocUtf8String()"
    }
}

/// The bytes that a text is allocated as.
pub fn memory_alloc_string(argument_count: usize, text: Option<&str>, utf16: bool) -> (result: Result<
    Vec<u8>,
    ScriptError,
>)
    ensures
        result is Ok <==> argument_count >= 1 && text is Some,
        result matches Ok(bytes) ==> bytes@ == written_text(text->0@, utf16),
        result matches Err(error) ==> error@ == (
            ErrorKind::TypeError,
            alloc_string_name(utf16) + if argument_count < 1 {
                " requires 1 argument: str"@
            } else {
                " argument must be a string"@
            },
        ),
{
    if argument_count < 1 {
        return Err(
            ScriptError {
                kind: ErrorKind::TypeError,
                message: joined(alloc_string_operation(utf16), " requires 1 argument: str"),
            },
        );
    }
    match text {
        Some(text) => Ok(write_string_bytes(text, utf16)),
        None => Err(
            ScriptError {
                kind: ErrorKind::TypeError,
                message: joined(alloc_string_operation(utf16), " argument must be a string"),
            },
        ),
    }
}

/// What the allocation of a text came to; zero stands for no memory.
pub fn alloc_string_outcome(utf16: bool, address: u64) -> (result: Result<u64, ScriptError>)
    ensures
        result is Ok <==> address != 0,
        result matches Ok(found) ==> found == address,
        result matches Err(error) ==> error@ == (
            ErrorKind::InternalError,
            alloc_string_name(utf16) + " out of memory"@,
        ),
{
    if address != 0 {
        return Ok(address);
    }
    Err(
        ScriptError {
            kind: ErrorKind::InternalError,
            message: joined(alloc_string_operation(utf16), " out of memory"),
        },
    )
}

/// Texts in the encoding of another system are refused.
pub fn ansi_string() -> (error: ScriptError)
    ensures
        error@ == (ErrorKind::TypeError, "ANSI API is only applicable on Windows"@),
{
    type_error("ANSI API is only applicable on Windows")
}

/// Why a copy for a script is refused.
pub open spec fn script_copy_problem(
    argument_count: usize,
    destination: PointerArgument,
    source: PointerArgument,
    size: Option<i64>,
) -> Option<(ErrorKind, Seq<char>)> {
    if argument_count < 3 {
        Some(
            (
                ErrorKind::TypeError,
                "Memory.copy(destination, source, size) requires 3 arguments"@,
            ),
        )
    } else if argument_address(destination) is None {
        Some((ErrorKind::TypeError, "Memory.copy: destination must be a pointer"@))
    } else if argument_address(source) is None {
        Some((ErrorKind::TypeError, "Memory.copy: source must be a pointer"@))
    } else if size is None || !(0 <= size->0 <= MAX_OPERATION_SIZE) {
        Some((ErrorKind::RangeError, "Memory.copy"@ + ": invalid size"@))
    } else {
        match copy_problem(
            argument_address(destination)->0,
            argument_address(source)->0,
            size->0 as usize,
        ) {
            Some(error) => Some((ErrorKind::RangeError, "Memory.copy: "@ + access_error_text(error))),
            None => None,
        }
    }
}

/// That bytes could not be copied.
pub fn copy_failed(operation: &str, error: &MemoryAccessError) -> (failure: ScriptError)
    ensures
        failure@ == (ErrorKind::RangeError, operation@ + access_error_text(*error)),
{
    ScriptError {
        kind: ErrorKind::RangeError,
        message: joined(operation, error.text().as_str()),
    }
}

/// A copy for a script; there may be nothing to do.
pub fn memory_copy(
    argument_count: usize,
    destination: &PointerArgument,
    source: &PointerArgument,
    size: Option<i64>,
) -> (result: Result<Option<CopyPlan>, ScriptError>)
    ensures
        result is Err <==> script_copy_problem(argument_count, *destination, *source, size)
            is Some,
        result matches Err(error) ==> Some(error@) == script_copy_problem(
            argument_count,
            *destination,
            *source,
            size,
        ),
        result matches Ok(plan) ==> {
            let to = argument_address(*destination)->0;
            let from = argument_address(*source)->0;
            &&& plan is None <==> size->0 == 0 || to == from
            &&& plan matches Some(p) ==> p.wf() && p.source == from && p.destination == to
                && p.size == size->0 && p.copied == 0 && p.backward == (from < to < from + size->0)
        },
{
    if argument_count < 3 {
        return Err(type_error("Memory.copy(destination, source, size) requires 3 arguments"));
    }
    let to: u64 = match get_addr_from_arg(destination) {
        Some(to) => to,
        None => {
            return Err(type_error("Memory.copy: destination must be a pointer"));
        },
    };
    let from: u64 = match get_addr_from_arg(source) {
        Some(from) => from,
        None => {
            return Err(type_error("Memory.copy: source must be a pointer"));
        },
    };
    let bytes: usize = match parse_size(size, "Memory.copy") {
        Ok(bytes) => bytes,
        Err(error) => {
            return Err(error);
        },
    };
    match copy_memory(to, from, bytes) {
        Ok(plan) => Ok(plan),
        Err(error) => Err(copy_failed("Memory.copy: ", &error)),
    }
}

/// Memory that is to be duplicated.
#[derive(Clone, Copy, Debug, PartialEq, Eq, Structural)]
pub struct DupRequest {
    pub source: u64,
    pub size: usize,
}

/// What is to be duplicated for a script.
pub fn memory_dup(argument_count: usize, source: &PointerArgument, size: Option<i64>) -> (result: Result<
    DupRequest,
    ScriptError,
>)
    ensures
        result is Ok <==> argument_count >= 2 && argument_address(*source) is Some && size is Some
            && 0 < size->0 <= MAX_OWNED_ALLOCATION,
        result matches Ok(request) ==> request.source == argument_address(*source)->0
            && request.size == size->0,
        result matches Err(error) ==> error@ == if argument_count < 2 {
            (ErrorKind::TypeError, "Memory.dup(source, size) requires 2 arguments"@)
        } else if argument_address(*source) is None {
            (ErrorKind::TypeError, "Memory.dup: source must be a pointer"@)
        } else {
            (ErrorKind::RangeError, "Memory.dup: invalid size"@)
        },
{
    if argument_count < 2 {
        return Err(type_error("Memory.dup(source, size) requires 2 arguments"));
    }
    let source: u64 = match get_addr_from_arg(source) {
        Some(source) => source,
        None => {
            return Err(type_error("Memory.dup: source must be a pointer"));
        },
    };
    match parse_dup_size(size) {
        Ok(size) => Ok(DupRequest { source, size }),
        Err(error) => Err(error),
    }
}

/// The copy into the memory that was allocated for a duplicate; zero stands for none.
pub fn dup_copy(request: DupRequest, allocation: u64) -> (result: Result<
    Option<CopyPlan>,
    ScriptError,
>)
    ensures
        allocation == 0 ==> result is Err && result->Err_0@ == (
            ErrorKind::InternalError,
            "Memory.dup: allocation failed"@,
        ),
        allocation != 0 ==> match copy_problem(allocation, request.source, request.size) {
            Some(error) => result is Err && result->Err_0@ == (
                ErrorKind::RangeError,
                "Memory.dup: "@ + access_error_text(error),
            ),
            None => {
                &&& result is Ok
                &&& result->Ok_0 is None <==> request.size == 0 || allocation == request.source
                &&& result->Ok_0 matches Some(p) ==> p.wf() && p.source == request.source
                    && p.destination == allocation && p.size == request.size && p.copied == 0
            },
        },
{
    if allocation == 0 {
        return Err(internal_error("Memory.dup: allocation failed"));
    }
    match copy_memory(allocation, request.source, request.size) {
        Ok(plan) => Ok(plan),
        Err(error) => Err(copy_failed("Memory.dup: ", &error)),
    }
}

/// The page that a script asks about.
pub fn memory_query_protection(argument_count: usize, address: &PointerArgument) -> (result: Result<
    u64,
    ScriptError,
>)
    ensures
        result is Ok <==> argument_count >= 1 && argument_address(*address) is Some,
        result matches Ok(found) ==> Some(found) == argument_address(*address),
        result matches Err(error) ==> error@ == (
            ErrorKind::TypeError,
            if argument_count < 1 {
                "Memory.queryProtection(address) requires 1 argument"@
            } else {
                "Memory.queryProtection: address must be a pointer"@
            },
        ),
{
    if argument_count < 1 {
        return Err(type_error("Memory.queryProtection(address) requires 1 argument"));
    }
    match get_addr_from_arg(address) {
        Some(address) => Ok(address),
        None => Err(type_error("Memory.queryProtection: address must be a pointer")),
    }
}

/// The protection of a page for a script, if the system knows it.
pub fn protection_answer(protection: Option<i32>) -> (result: Result<String, ScriptError>)
    ensures
        result is Ok <==> protection is Some,
        result matches Ok(text) ==> text@ == protection_text(protection->0),
        result matches Err(error) ==> error@ == (
            ErrorKind::RangeError,
            "Memory.queryProtection: failed to query address"@,
        ),
{
    match protection {
        Some(protection) => Ok(format_protection(protection)),
        None => Err(range_error("Memory.queryProtection: failed to query address")),
    }
}

/// Why a patch for a script is refused before anything is touched, apart from the address.
pub open spec fn patch_problem(
    size: Option<i64>,
    is_function: bool,
    address: u64,
    page_size: u64,
    protection: Option<i32>,
) -> Option<Seq<char>> {
    if size is None || size->0 <= 0 || size->0 > MAX_ALLOCATION {
        Some("Memory.patchCode() invalid size"@)
    } else if !is_function {
        Some("Memory.patchCode() apply must be a function"@)
    } else if covering_pages(address, size->0 as u64, page_size) is None {
        Some("Memory.patchCode() address range overflow"@)
    } else if protection is None {
        Some("Memory.patchCode() address is not mapped"@)
    } else {
        None
    }
}

/// The pages that a patch for a script touches. The address carries no tag.
pub fn memory_patch_code(
    argument_count: usize,
    address: Result<u64, ScriptError>,
    size: Option<i64>,
    is_function: bool,
    page_size: u64,
    protection: Option<i32>,
) -> (result: Result<PageRange, ScriptError>)
    requires
        page_size > 0,
    ensures
        argument_count < 3 ==> result is Err && result->Err_0@ == (
            ErrorKind::InternalError,
            "Memory.patchCode() requires (address, size, apply)"@,
        ),
        argument_count >= 3 && address is Err ==> result is Err && result->Err_0
            == address->Err_0,
        argument_count >= 3 && address is Ok ==> {
            let problem = patch_problem(size, is_function, address->Ok_0, page_size, protection);
            &&& result is Err <==> problem is Some
            &&& result matches Err(error) ==> error@ == (ErrorKind::InternalError, problem->0)
            &&& result matches Ok(range) ==> Some(range) == covering_pages(
                address->Ok_0,
                size->0 as u64,
                page_size,
            )
        },
{
    if argument_count < 3 {
        return Err(internal_error("Memory.patchCode() requires (address, size, apply)"));
    }
    match address {
        Err(error) => Err(error),
        Ok(address) => check_patch(size, is_function, address, page_size, protection),
    }
}

/// That pages could not be made writable, for the system's reason.
pub fn not_writable(range: PageRange, reason: &str) -> (error: ScriptError)
    ensures
        error@ == (
            ErrorKind::InternalError,
            "unable to make "@ + prefixed_hex(range.start as nat) + "+"@ + numeral(
                range.length as nat,
                10,
            ) + " writable: "@ + reason@,
        ),
{
    let mut message: String = String::from_str("unable to make ");
    push_prefixed_hex(&mut message, range.start);
    message.append("+");
    push_numeral(&mut message, range.length, 10);
    message.append(" writable: ");
    message.append(reason);
    ScriptError { kind: ErrorKind::InternalError, message }
}

/// A scan in the background.
#[derive(Debug)]
pub struct ScanStart {
    pub id: u64,
    pub address: u64,
    pub size: usize,
    pub pattern: MatchPattern,
}

/// Why a scan in the background is refused. Arguments that do not convert come as the
/// errors for them.
pub open spec fn scan_problem(
    argument_count: usize,
    address: Result<u64, ScriptError>,
    size: Option<i64>,
    pattern: Result<MatchPattern, ScriptError>,
    is_object: bool,
) -> Option<(ErrorKind, Seq<char>)> {
    if argument_count < 4 {
        Some(
            (
                ErrorKind::InternalError,
                "Memory.scan() requires (address, size, pattern, callbacks)"@,
            ),
        )
    } else if address is Err {
        Some(address->Err_0@)
    } else if size is None || !(0 <= size->0 <= 0x7fff_ffff) {
        Some((ErrorKind::InternalError, "Memory.scan() invalid size"@))
    } else if pattern is Err {
        Some(pattern->Err_0@)
    } else if !is_object {
        Some((ErrorKind::InternalError, "Memory.scan() callbacks must be an object"@))
    } else {
        None
    }
}

/// Begins a scan in the background for a script.
pub fn memory_scan(
    jobs: &mut ScanJobs,
    context: u64,
    argument_count: usize,
    address: Result<u64, ScriptError>,
    size: Option<i64>,
    pattern: Result<MatchPattern, ScriptError>,
    is_object: bool,
) -> (result: Result<ScanStart, ScriptError>)
    ensures
        result is Err <==> scan_problem(argument_count, address, size, pattern, is_object)
            is Some,
        result matches Err(error) ==> {
            &&& Some(error@) == scan_problem(argument_count, address, size, pattern, is_object)
            &&& *final(jobs) == *old(jobs)
        },
        result matches Ok(start) ==> {
            &&& start.id == old(jobs).next_id
            &&& start.address == address->Ok_0
            &&& start.size == size->0
            &&& start.pattern == pattern->Ok_0
            &&& final(jobs).next_id == if start.id == u64::MAX {
                0
            } else {
                (start.id + 1) as u64
            }
            &&& final(jobs).jobs@ == old(jobs).jobs@.push(
                ScanJob { id: start.id, context, cancelled: false },
            )
        },
{
    if argument_count < 4 {
        return Err(
            internal_error("Memory.scan() requires (address, size, pattern, callbacks)"),
        );
    }
    let address: u64 = match address {
        Ok(address) => address,
        Err(error) => {
            return Err(error);
        },
    };
    let size: i64 = match size {
        Some(size) => size,
        None => -1,
    };
    if size < 0 || size > 0x7fff_ffff {
        return Err(internal_error("Memory.scan() invalid size"));
    }
    let pattern: MatchPattern = match pattern {
        Ok(pattern) => pattern,
        Err(error) => {
            return Err(error);
        },
    };
    if !is_object {
        return Err(internal_error("Memory.scan() callbacks must be an object"));
    }
    let id: u64 = jobs.register_job(context);
    Ok(ScanStart { id, address, size: size as usize, pattern })
}

/// Begins a scan that was registered, unless its memory would pass the end of memory.
pub fn begin_scan(start: ScanStart) -> (cursor: Option<ScanCursor>)
    requires
        start.pattern.wf(),
    ensures
        cursor is Some <==> start.address + start.size <= u64::MAX,
        cursor matches Some(c) ==> {
            &&& c.wf()
            &&& c.address == start.address
            &&& c.size == start.size
            &&& c.offset == 0
            &&& c.pattern == start.pattern
        },
{
    if start.size as u64 > u64::MAX - start.address {
        return None;
    }
    Some(ScanCursor::new(start.address, start.size, start.pattern))
}

/// That the thread of a scan could not be started.
pub fn scan_not_started(reason: &str) -> (error: ScriptError)
    ensures
        error@ == (
            ErrorKind::InternalError,
            "Memory.scan() could not start scan thread: "@ + reason@,
        ),
{
    ScriptError {
        kind: ErrorKind::InternalError,
        message: joined("Memory.scan() could not start scan thread: ", reason),
    }
}

/// A range as a script gives it. What does not convert is an error or missing.
#[derive(Debug)]
pub struct RangeArgument {
    pub base: Result<u64, ScriptError>,
    pub size: Option<i64>,
}

/// What is wrong with one range.
pub open spec fn range_problem(range: RangeArgument) -> Option<(ErrorKind, Seq<char>)> {
    if range.base is Err {
        Some(range.base->Err_0@)
    } else if range.size is None || !(0 <= range.size->0 <= MAX_RANGE) {
        Some((ErrorKind::InternalError, "Memory.findPointers() invalid range size"@))
    } else {
        None
    }
}

/// What is wrong with the first of the ranges that is wrong.
pub open spec fn ranges_problem(ranges: Seq<RangeArgument>) -> Option<(ErrorKind, Seq<char>)>
    decreases ranges.len(),
{
    if ranges.len() == 0 {
        None
    } else {
        match ranges_problem(ranges.drop_last()) {
            Some(problem) => Some(problem),
            None => range_problem(ranges.last()),
        }
    }
}

/// What is wrong with the first of the values that is wrong.
pub open spec fn values_problem(values: Seq<Result<u64, ScriptError>>) -> Option<
    (ErrorKind, Seq<char>),
>
    decreases values.len(),
{
    if values.len() == 0 {
        None
    } else {
        match values_problem(values.drop_last()) {
            Some(problem) => Some(problem),
            None => match values.last() {
                Err(error) => Some(error@),
                Ok(_) => None,
            },
        }
    }
}

/// Ranges that are right.
pub open spec fn ranges_of(ranges: Seq<RangeArgument>) -> Seq<Range> {
    Seq::new(
        ranges.len(),
        |i: int| Range { base: ranges[i].base->Ok_0, size: ranges[i].size->0 as usize },
    )
}

/// The values among those that are given.
pub open spec fn values_of(values: Seq<Result<u64, ScriptError>>) -> Set<u64> {
    Set::new(
        |value: u64|
            exists|i: int|
                0 <= i < values.len() && #[trigger] values[i] is Ok && values[i]->Ok_0 == value,
    )
}

proof fn lemma_ranges_problem(ranges: Seq<RangeArgument>, count: int)
    requires
        0 <= count <= ranges.len(),
        ranges_problem(ranges.take(count)) is Some,
    ensures
        ranges_problem(ranges) == ranges_problem(ranges.take(count)),
    decreases ranges.len(),
{
    if count < ranges.len() {
        assert(ranges.drop_last().take(count) =~= ranges.take(count));
        lemma_ranges_problem(ranges.drop_last(), count);
    } else {
        assert(ranges.take(count) =~= ranges);
    }
}

proof fn lemma_values_problem(values: Seq<Result<u64, ScriptError>>, count: int)
    requires
        0 <= count <= values.len(),
        values_problem(values.take(count)) is Some,
    ensures
        values_problem(values) == values_problem(values.take(count)),
    decreases values.len(),
{
    if count < values.len() {
        assert(values.drop_last().take(count) =~= values.take(count));
        lemma_values_problem(values.drop_last(), count);
    } else {
        assert(values.take(count) =~= values);
    }
}

/// The ranges that a script gives. It has to give a list.
pub fn parse_ranges(ranges: Option<Vec<RangeArgument>>) -> (result: Result<Vec<Range>, ScriptError>)
    ensures
        ranges is None ==> result is Err && result->Err_0@ == (
            ErrorKind::InternalError,
            "Memory.findPointers() ranges must be an array of {base, size}"@,
        ),
        ranges matches Some(list) ==> {
            &&& result is Err <==> ranges_problem(list@) is Some
            &&& result matches Err(error) ==> Some(error@) == ranges_problem(list@)
            &&& result matches Ok(found) ==> found@ == ranges_of(list@)
        },
{
    let list: Vec<RangeArgument> = match ranges {
        Some(list) => list,
        None => {
            return Err(
                internal_error("Memory.findPointers() ranges must be an array of {base, size}"),
            );
        },
    };
    let ghost all = list@;
    let mut found: Vec<Range> = Vec::new();
    assert(all.take(0) =~= seq![]);
    assert(found@ =~= ranges_of(all).take(0));
    for range in it: list
        invariant
            it.seq() == all,
            ranges == Some(list),
            list@ == all,
            ranges_problem(all.take(it.index() as int)) is None,
            found@ == ranges_of(all).take(it.index() as int),
    {
        let ghost done = it.index() as int;
        assert(all.take(done + 1).drop_last() =~= all.take(done));
        assert(all.take(done + 1).last() == range);
        match range.base {
            Err(error) => {
                proof {
                    lemma_ranges_problem(all, done + 1);
                }
                return Err(error);
            },
            Ok(base) => match parse_range_size(range.size) {
                Err(error) => {
                    proof {
                        lemma_ranges_problem(all, done + 1);
                    }
                    return Err(error);
                },
                Ok(size) => {
                    found.push(Range { base, size });
                    assert(found@ =~= ranges_of(all).take(done + 1));
                },
            },
        }
    }
    assert(all.take(all.len() as int) =~= all);
    assert(found@ =~= ranges_of(all));
    Ok(found)
}

/// The values that a script looks for. It has to give a list.
pub fn parse_values(values: Option<Vec<Result<u64, ScriptError>>>) -> (result: Result<
    HashSet<u64>,
    ScriptError,
>)
    ensures
        values is None ==> result is Err && result->Err_0@ == (
            ErrorKind::InternalError,
            "Memory.findPointers() values must be an array of pointers"@,
        ),
        values matches Some(list) ==> {
            &&& result is Err <==> values_problem(list@) is Some
            &&& result matches Err(error) ==> Some(error@) == values_problem(list@)
            &&& result matches Ok(found) ==> found@ == values_of(list@)
        },
{
    let list: Vec<Result<u64, ScriptError>> = match values {
        Some(list) => list,
        None => {
            return Err(
                internal_error("Memory.findPointers() values must be an array of pointers"),
            );
        },
    };
    let ghost all = list@;
    let mut found: HashSet<u64> = HashSet::new();
    assert(all.take(0) =~= seq![]);
    assert(found@ =~= values_of(all.take(0)));
    for value in it: list
        invariant
            it.seq() == all,
            values == Some(list),
            list@ == all,
            values_problem(all.take(it.index() as int)) is None,
            found@ == values_of(all.take(it.index() as int)),
    {
        let ghost done = it.index() as int;
        let ghost front = all.take(done);
        let ghost next = all.take(done + 1);
        assert(next.drop_last() =~= front);
        assert(next.last() == value);
        match value {
            Err(error) => {
                proof {
                    lemma_values_problem(all, done + 1);
                }
                return Err(error);
            },
            Ok(address) => {
                let ghost before = found@;
                found.insert(address);
                assert forall|v: u64| #[trigger] found@.contains(v) <==> values_of(next).contains(
                    v,
                ) by {
                    if before.contains(v) {
                        let i = choose|i: int|
                            0 <= i < front.len() && #[trigger] front[i] is Ok && front[i]->Ok_0 == v;
                        assert(next[i] == front[i]);
                    }
                    if v == address {
                        assert(next[done] is Ok && next[done]->Ok_0 == v);
                    }
                    if values_of(next).contains(v) {
                        let i = choose|i: int|
                            0 <= i < next.len() && #[trigger] next[i] is Ok && next[i]->Ok_0 == v;
                        if i < done {
                            assert(front[i] == next[i]);
                        }
                    }
                }
                assert(found@ =~= values_of(next));
            },
        }
    }
    assert(all.take(all.len() as int) =~= all);
    Ok(found)
}

/// A search for pointers.
#[derive(Debug)]
pub struct PointerQuery {
    pub ranges: Vec<Range>,
    pub values: HashSet<u64>,
    pub mask: u64,
}

/// Why a search for pointers is refused. The mask may be left out.
pub open spec fn find_pointers_problem(
    argument_count: usize,
    ranges: Option<Seq<RangeArgument>>,
    values: Option<Seq<Result<u64, ScriptError>>>,
    mask: Option<Result<u64, ScriptError>>,
) -> Option<(ErrorKind, Seq<char>)> {
    if argument_count < 2 {
        Some(
            (
                ErrorKind::InternalError,
                "Memory.findPointers() requires (ranges, values[, options])"@,
            ),
        )
    } else if ranges is None {
        Some(
            (
                ErrorKind::InternalError,
                "Memory.findPointers() ranges must be an array of {base, size}"@,
            ),
        )
    } else if ranges_problem(ranges->0) is Some {
        ranges_problem(ranges->0)
    } else if values is None {
        Some(
            (ErrorKind::InternalError, "Memory.findPointers() values must be an array of pointers"@),
        )
    } else if values_problem(values->0) is Some {
        values_problem(values->0)
    } else if mask is Some && mask->0 is Err {
        Some(mask->0->Err_0@)
    } else {
        None
    }
}

/// What a contract says of a list that may be missing.
pub open spec fn given_list<T>(list: Option<Vec<T>>) -> Option<Seq<T>> {
    match list {
        Some(list) => Some(list@),
        None => None,
    }
}

/// The search for pointers that a script wants.
pub fn memory_find_pointers(
    argument_count: usize,
    ranges: Option<Vec<RangeArgument>>,
    values: Option<Vec<Result<u64, ScriptError>>>,
    mask: Option<Result<u64, ScriptError>>,
) -> (result: Result<PointerQuery, ScriptError>)
    ensures
        ({
            let problem = find_pointers_problem(
                argument_count,
                given_list(ranges),
                given_list(values),
                mask,
            );
            &&& result is Err <==> problem is Some
            &&& result matches Err(error) ==> Some(error@) == problem
            &&& result matches Ok(query) ==> {
                &&& query.ranges@ == ranges_of(ranges->0@)
                &&& query.values@ == values_of(values->0@)
                &&& query.mask == match mask {
                    Some(mask) => mask->Ok_0,
                    None => u64::MAX,
                }
            }
        }),
{
    if argument_count < 2 {
        return Err(
            internal_error("Memory.findPointers() requires (ranges, values[, options])"),
        );
    }
    let ranges: Vec<Range> = match parse_ranges(ranges) {
        Ok(ranges) => ranges,
        Err(error) => {
            return Err(error);
        },
    };
    let values: HashSet<u64> = match parse_values(values) {
        Ok(values) => values,
        Err(error) => {
            return Err(error);
        },
    };
    match mask {
        None => Ok(PointerQuery { ranges, values, mask: u64::MAX }),
        Some(Ok(mask)) => Ok(PointerQuery { ranges, values, mask }),
        Some(Err(error)) => Err(error),
    }
}

/// The code pointer that a script wants to check.
pub fn memory_check_code_pointer(argument_count: usize, address: Result<u64, ScriptError>) -> (
    result: Result<u64, ScriptError>)
    ensures
        argument_count < 1 ==> result is Err && result->Err_0@ == (
            ErrorKind::InternalError,
            "Memory.checkCodePointer() requires a pointer"@,
        ),
        argument_count >= 1 ==> result == address,
{
    if argument_count < 1 {
        return Err(internal_error("Memory.checkCodePointer() requires a pointer"));
    }
    address
}

/// How a text is read.
#[derive(Clone, Copy, Debug, PartialEq, Eq, Structural)]
pub enum TextPlan {
    /// There is none at address zero.
    Null,
    /// Up to the terminator.
    Terminated { address: u64 },
    Exact { address: u64, bytes: usize },
}

/// The text operation whose call on no pointer is refused.
pub open spec fn text_pointer_problem(utf16: bool) -> Seq<char> {
    if utf16 {
        "readUtf16String() requires a pointer"@
    } else {
        "read string requires a pointer"@
    }
}

/// How a text is read, or why not. The length is that behind the address.
pub open spec fn text_plan(
    utf16: bool,
    this: PointerArgument,
    arguments: Seq<PointerArgument>,
    length: Option<Option<i64>>,
    operation: Seq<char>,
) -> Result<TextPlan, (ErrorKind, Seq<char>)> {
    match operation_address(this, arguments) {
        None => Err((ErrorKind::TypeError, text_pointer_problem(utf16))),
        Some(address) => if address.addr == 0 {
            Ok(TextPlan::Null)
        } else {
            match optional_length_of(length, operation) {
                Err(problem) => Err(problem),
                Ok(None) => Ok(TextPlan::Terminated { address: address.addr }),
                Ok(Some(units)) => Ok(
                    TextPlan::Exact {
                        address: address.addr,
                        bytes: if utf16 {
                            (units * 2) as usize
                        } else {
                            units
                        },
                    },
                ),
            }
        },
    }
}

/// How a text is read for a script.
pub fn read_string(
    utf16: bool,
    this: &PointerArgument,
    arguments: &Vec<PointerArgument>,
    length: Option<Option<i64>>,
    operation: &str,
) -> (result: Result<TextPlan, ScriptError>)
    ensures
        match (result, text_plan(utf16, *this, arguments@, length, operation@)) {
            (Ok(plan), Ok(expected)) => plan == expected,
            (Err(error), Err(expected)) => error@ == expected,
            _ => false,
        },
{
    let address: u64 = match get_addr_this_or_arg(this, arguments) {
        Some(address) => address.addr,
        None => {
            return Err(
                if utf16 {
                    type_error("readUtf16String() requires a pointer")
                } else {
                    type_error("read string requires a pointer")
                },
            );
        },
    };
    if address == 0 {
        return Ok(TextPlan::Null);
    }
    match parse_optional_length(length, operation) {
        Err(error) => Err(error),
        Ok(None) => Ok(TextPlan::Terminated { address }),
        Ok(Some(units)) => {
            let unit: usize = if utf16 {
                2
            } else {
                1
            };
            match text_byte_length(units, unit, operation) {
                Ok(bytes) => Ok(TextPlan::Exact { address, bytes }),
                Err(error) => Err(error),
            }
        },
    }
}

/// Bytes that are to be read.
#[derive(Clone, Copy, Debug, PartialEq, Eq, Structural)]
pub struct ByteRead {
    pub address: u64,
    pub length: usize,
}

/// Why an array of bytes is not read.
pub open spec fn byte_array_problem(
    this: PointerArgument,
    arguments: Seq<PointerArgument>,
    length: Option<i64>,
) -> Option<(ErrorKind, Seq<char>)> {
    match operation_address(this, arguments) {
        None => Some((ErrorKind::TypeError, "readByteArray() requires a pointer"@)),
        Some(address) => if arguments.len() - address.arguments_taken < 1 {
            Some((ErrorKind::TypeError, "readByteArray() requires length argument"@))
        } else if length is None {
            Some((ErrorKind::TypeError, "readByteArray: length must be an integer"@))
        } else if !(0 <= length->0 <= MAX_READ_SIZE) {
            Some(
                (
                    ErrorKind::RangeError,
                    "readByteArray: length must be between 0 and "@ + numeral(
                        MAX_READ_SIZE as nat,
                        10,
                    ),
                ),
            )
        } else {
            None
        },
    }
}

/// The bytes that a script wants to read.
pub fn memory_read_byte_array(
    this: &PointerArgument,
    arguments: &Vec<PointerArgument>,
    length: Option<i64>,
) -> (result: Result<ByteRead, ScriptError>)
    ensures
        result is Err <==> byte_array_problem(*this, arguments@, length) is Some,
        result matches Err(error) ==> Some(error@) == byte_array_problem(
            *this,
            arguments@,
            length,
        ),
        result matches Ok(read) ==> read.address == operation_address(*this, arguments@)->0.addr
            && read.length == length->0,
{
    let address: OperationAddress = match get_addr_this_or_arg(this, arguments) {
        Some(address) => address,
        None => {
            return Err(type_error("readByteArray() requires a pointer"));
        },
    };
    if arguments.len() - address.arguments_taken < 1 {
        return Err(type_error("readByteArray() requires length argument"));
    }
    match parse_array_length(length) {
        Ok(length) => Ok(ByteRead { address: address.addr, length }),
        Err(error) => Err(error),
    }
}

/// Bytes that are to be written.
#[derive(Debug)]
pub struct ByteWrite {
    pub address: u64,
    pub bytes: Vec<u8>,
    /// Whether the operation was called on a pointer, which is then its result.
    pub returns_this: bool,
}

/// Why a text is not written.
pub open spec fn write_text_problem(
    this: PointerArgument,
    arguments: Seq<PointerArgument>,
    text: Option<Seq<char>>,
) -> Option<Seq<char>> {
    match operation_address(this, arguments) {
        None => Some("write string requires a pointer"@),
        Some(address) => if arguments.len() - address.arguments_taken < 1 {
            Some("write string requires a string value"@)
        } else if text is None {
            Some("write string value must be a string"@)
        } else {
            None
        },
    }
}

/// The bytes of a text that a script wants to write; the text is that behind the address.
pub fn memory_write_string(
    this: &PointerArgument,
    arguments: &Vec<PointerArgument>,
    text: Option<&str>,
    utf16: bool,
) -> (result: Result<ByteWrite, ScriptError>)
    ensures
        result is Err <==> write_text_problem(*this, arguments@, given(text)) is Some,
        result matches Err(error) ==> error@ == (
            ErrorKind::TypeError,
            write_text_problem(*this, arguments@, given(text))->0,
        ),
        result matches Ok(write) ==> {
            &&& write.address == operation_address(*this, arguments@)->0.addr
            &&& write.bytes@ == written_text(text->0@, utf16)
            &&& write.returns_this == (value_address(*this) is Some)
        },
{
    let address: OperationAddress = match get_addr_this_or_arg(this, arguments) {
        Some(address) => address,
        None => {
            return Err(type_error("write string requires a pointer"));
        },
    };
    if arguments.len() - address.arguments_taken < 1 {
        return Err(type_error("write string requires a string value"));
    }
    match text {
        Some(text) => {
            let returns_this: bool = get_native_pointer_addr(this).is_some();
            Ok(
                ByteWrite {
                    address: address.addr,
                    bytes: write_string_bytes(text, utf16),
                    returns_this,
                },
            )
        },
        None => Err(type_error("write string value must be a string")),
    }
}

/// Where bytes are written for a script. Bytes that do not convert come as the error.
pub fn memory_write_bytes_target(
    this: &PointerArgument,
    arguments: &Vec<PointerArgument>,
    bytes: Result<Vec<u8>, ScriptError>,
) -> (result: Result<ByteWrite, ScriptError>)
    ensures
        ({
            let address = operation_address(*this, arguments@);
            let missing = address is Some && arguments@.len() - address->0.arguments_taken < 1;
            &&& address is None ==> result is Err && result->Err_0@ == (
                ErrorKind::TypeError,
                "writeBytes() requires a pointer"@,
            )
            &&& missing ==> result is Err && result->Err_0@ == (
                ErrorKind::TypeError,
                "writeBytes() requires bytes argument"@,
            )
            &&& address is Some && !missing ==> match bytes {
                Err(error) => result is Err && result->Err_0 == error,
                Ok(data) => result is Ok && result->Ok_0.address == address->0.addr
                    && result->Ok_0.bytes == data && result->Ok_0.returns_this == (value_address(
                    *this,
                ) is Some),
            }
        }),
{
    let address: OperationAddress = match get_addr_this_or_arg(this, arguments) {
        Some(address) => address,
        None => {
            return Err(type_error("writeBytes() requires a pointer"));
        },
    };
    if arguments.len() - address.arguments_taken < 1 {
        return Err(type_error("writeBytes() requires bytes argument"));
    }
    match bytes {
        Ok(bytes) => {
            let returns_this: bool = get_native_pointer_addr(this).is_some();
            Ok(ByteWrite { address: address.addr, bytes, returns_this })
        },
        Err(error) => Err(error),
    }
}

/// Of several wrong ranges or values the first is told, and there is a problem only if one of
/// them is wrong. A range is wrong whose base does not convert, or whose size is missing,
/// negative or too large.
pub proof fn the_first_wrong_range_is_told(ranges: Seq<RangeArgument>, at: int)
    requires
        0 <= at <= ranges.len(),
        forall|i: int|
            0 <= i < at ==> (#[trigger] ranges[i]).base is Ok && ranges[i].size is Some && 0
                <= ranges[i].size->0 <= MAX_RANGE,
        at < ranges.len() ==> ranges[at].base is Err || ranges[at].size is None
            || ranges[at].size->0 < 0 || ranges[at].size->0 > MAX_RANGE,
    ensures
        at == ranges.len() ==> ranges_problem(ranges) is None,
        at < ranges.len() && ranges[at].base is Err ==> ranges_problem(ranges) == Some(
            ranges[at].base->Err_0@,
        ),
        at < ranges.len() && ranges[at].base is Ok ==> ranges_problem(ranges) == Some(
            (ErrorKind::InternalError, "Memory.findPointers() invalid range size"@),
        ),
    decreases ranges.len(),
{
    if ranges.len() > 0 {
        let front = ranges.drop_last();
        assert(forall|i: int| 0 <= i < front.len() ==> #[trigger] front[i] == ranges[i]);
        if at < ranges.len() {
            if at < front.len() {
                the_first_wrong_range_is_told(front, at);
            } else {
                the_first_wrong_range_is_told(front, front.len() as int);
            }
        } else {
            the_first_wrong_range_is_told(front, front.len() as int);
            assert(ranges[ranges.len() - 1].base is Ok);
        }
    }
}

/// Ranges and values that are right are taken as they are given.
pub proof fn right_arguments_are_taken_as_given(
    ranges: Seq<RangeArgument>,
    values: Seq<Result<u64, ScriptError>>,
    at: int,
)
    ensures
        ranges_of(ranges).len() == ranges.len(),
        0 <= at < ranges.len() && ranges[at].base is Ok && ranges[at].size is Some && 0
            <= ranges[at].size->0 <= 0x7fff_ffff ==> ranges_of(ranges)[at].base
            == ranges[at].base->Ok_0 && ranges_of(ranges)[at].size == ranges[at].size->0,
        0 <= at < values.len() && values[at] is Ok ==> values_of(values).contains(
            values[at]->Ok_0,
        ),
        forall|value: u64|
            #[trigger] values_of(values).contains(value) ==> exists|i: int|
                0 <= i < values.len() && #[trigger] values[i] is Ok && values[i]->Ok_0 == value,
{
    if 0 <= at < values.len() && values[at] is Ok {
        assert(values[at] is Ok && values[at]->Ok_0 == values[at]->Ok_0);
    }
}

/// How a text is read: nothing from a null pointer; up to its end if no length is given or a
/// negative one; and else as many units as the length says, of one byte or of two.
pub proof fn texts_are_read_by_their_length(
    utf16: bool,
    this: PointerArgument,
    arguments: Seq<PointerArgument>,
    length: Option<Option<i64>>,
    operation: Seq<char>,
)
    requires
        operation_address(this, arguments) is Some,
    ensures
        ({
            let address = operation_address(this, arguments)->0.addr;
            let plan = text_plan(utf16, this, arguments, length, operation);
            &&& address == 0 ==> plan == Ok::<TextPlan, (ErrorKind, Seq<char>)>(TextPlan::Null)
            &&& address != 0 && (length is None || length->0 is Some && length->0->0 < 0) ==> plan
                == Ok::<TextPlan, (ErrorKind, Seq<char>)>(TextPlan::Terminated { address })
            &&& address != 0 && length is Some && length->0 is Some && 0 <= length->0->0
                <= 0x100_0000 ==> plan is Ok && plan->Ok_0 is Exact && plan->Ok_0->Exact_address
                == address && plan->Ok_0->Exact_bytes == (if utf16 {
                2 * length->0->0
            } else {
                length->0->0 as int
            })
            &&& address != 0 && length is Some && (length->0 is None || length->0->0 > 0x100_0000)
                ==> plan is Err
        }),
{
}

/// Which calls of scripts are accepted, by their arguments: enough of them, pointers that
/// are pointers, sizes that are in their range, and functions and objects where they are
/// asked for.
pub proof fn calls_are_accepted_by_their_arguments(
    argument_count: usize,
    destination: PointerArgument,
    source: PointerArgument,
    size: Option<i64>,
    address: Result<u64, ScriptError>,
    pattern: Result<MatchPattern, ScriptError>,
    is_object: bool,
)
    ensures
        script_copy_problem(argument_count, destination, source, size) is None <==> {
            &&& argument_count >= 3
            &&& argument_address(destination) is Some
            &&& argument_address(source) is Some
            &&& size is Some && 0 <= size->0 <= 0x7fff_ffff
            &&& copy_problem(
                argument_address(destination)->0,
                argument_address(source)->0,
                size->0 as usize,
            ) is None
        },
        scan_problem(argument_count, address, size, pattern, is_object) is None <==> {
            &&& argument_count >= 4
            &&& address is Ok
            &&& size is Some && 0 <= size->0 <= 0x7fff_ffff
            &&& pattern is Ok
            &&& is_object
        },
{
}

/// A patch needs a positive size, a function that writes it, and pages that are mapped.
pub proof fn patches_need_mapped_pages(
    size: Option<i64>,
    is_function: bool,
    address: u64,
    page_size: u64,
    protection: Option<i32>,
)
    requires
        page_size > 0,
    ensures
        patch_problem(size, is_function, address, page_size, protection) is None <==> {
            &&& size is Some && 0 < size->0 <= 0x7fff_ffff
            &&& is_function
            &&& address + size->0 + page_size <= 0x1_0000_0000_0000_0000
            &&& protection is Some
        },
{
}

/// Bytes are read from a pointer with a length of up to a gibibyte behind it, and a text is
/// written to a pointer with the text behind it.
pub proof fn reads_and_writes_need_their_arguments(
    this: PointerArgument,
    arguments: Seq<PointerArgument>,
    length: Option<i64>,
    text: Option<Seq<char>>,
)
    ensures
        byte_array_problem(this, arguments, length) is None <==> {
            &&& operation_address(this, arguments) is Some
            &&& arguments.len() > operation_address(this, arguments)->0.arguments_taken
            &&& length is Some && 0 <= length->0 <= 0x4000_0000
        },
        write_text_problem(this, arguments, text) is None <==> {
            &&& operation_address(this, arguments) is Some
            &&& arguments.len() > operation_address(this, arguments)->0.arguments_taken
            &&& text is Some
        },
{
}

/// A search for pointers needs ranges and values that all convert, and a mask that does if
/// it is given.
pub proof fn searches_need_ranges_and_values(
    argument_count: usize,
    ranges: Option<Seq<RangeArgument>>,
    values: Option<Seq<Result<u64, ScriptError>>>,
    mask: Option<Result<u64, ScriptError>>,
)
    ensures
        find_pointers_problem(argument_count, ranges, values, mask) is None <==> {
            &&& argument_count >= 2
            &&& ranges is Some && ranges_problem(ranges->0) is None
            &&& values is Some && forall|i: int|
                0 <= i < values->0.len() ==> #[trigger] values->0[i] is Ok
            &&& mask is None || mask->0 is Ok
        },
{
    if values is Some {
        lemma_values_are_right(values->0);
    }
}

proof fn lemma_values_are_right(values: Seq<Result<u64, ScriptError>>)
    ensures
        values_problem(values) is None <==> forall|i: int|
            0 <= i < values.len() ==> #[trigger] values[i] is Ok,
    decreases values.len(),
{
    if values.len() > 0 {
        let front = values.drop_last();
        lemma_values_are_right(front);
        assert(forall|i: int| 0 <= i < front.len() ==> #[trigger] front[i] == values[i]);
        assert(values.last() == values[values.len() - 1]);
        if values_problem(values) is None {
            assert forall|i: int| 0 <= i < values.len() implies #[trigger] values[i] is Ok by {
                if i < front.len() {
                    assert(front[i] is Ok);
                }
            }
        }
        if forall|i: int| 0 <= i < values.len() ==> #[trigger] values[i] is Ok {
            assert forall|i: int| 0 <= i < front.len() implies #[trigger] front[i] is Ok by {
                assert(values[i] is Ok);
            }
        }
    }
}

} // verus!
