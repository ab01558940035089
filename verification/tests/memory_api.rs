use rustfrida::memory_access::MAX_OWNED_ALLOCATION;
use rustfrida::memory_alloc::{
    AllocPlan, GivenOptions, OptionsArgument, PageRange, Property, PROT_EXEC, PROT_READ,
};
use rustfrida::memory_api::{
    alloc_outcome, alloc_string_outcome, ansi_string, begin_scan, dup_copy, js_memory_alloc,
    js_memory_protect, memory_alloc_string, memory_check_code_pointer, memory_copy, memory_dup,
    memory_find_pointers, memory_flush_code_cache, memory_patch_code, memory_query_protection,
    memory_read_byte_array, memory_scan, memory_write_bytes_target, memory_write_string,
    not_writable, protect_failed, protection_answer, read_string, scan_not_started, DupRequest,
    RangeArgument, TextPlan,
};
use rustfrida::memory_pattern::MatchPattern;
use rustfrida::memory_scan::ScanJobs;
use rustfrida::pointer::PointerArgument;
use rustfrida::script::{ErrorKind, ScriptError};

fn number(value: i64) -> PointerArgument {
    PointerArgument::Number { unsigned: u64::try_from(value).ok(), signed: Some(value) }
}

fn refused() -> ScriptError {
    ScriptError { kind: ErrorKind::TypeError, message: "expected a pointer".to_string() }
}

fn told(error: ScriptError, kind: ErrorKind, message: &str) {
    assert_eq!(error.kind, kind);
    assert_eq!(error.message, message);
}

#[test]
fn allocation_checks_the_size_before_the_options() {
    let none = OptionsArgument::Unspecified;
    told(
        js_memory_alloc(0, Some(16), &none, 4096).unwrap_err(),
        ErrorKind::TypeError,
        "Memory.alloc() requires 1 argument: size",
    );
    told(
        js_memory_alloc(2, Some(0), &OptionsArgument::Invalid, 4096).unwrap_err(),
        ErrorKind::InternalError,
        "Memory.alloc() invalid size",
    );
    assert!(js_memory_alloc(2, Some(16), &OptionsArgument::Invalid, 4096).is_err());
    assert_eq!(
        js_memory_alloc(1, Some(16), &none, 4096).unwrap(),
        AllocPlan::Heap { size: 16 }
    );
    let near = OptionsArgument::Given(GivenOptions {
        protection: Property::Absent,
        near: Some(Ok(0x10000)),
        max_distance: Property::Value(0x1000),
    });
    let plan = js_memory_alloc(2, Some(4096), &near, 4096).unwrap();
    assert!(matches!(plan, AllocPlan::Near { near: 0x10000, max_distance: 0x1000, .. }));
    let options = |near| {
        OptionsArgument::Given(GivenOptions {
            protection: Property::Absent,
            near: Some(near),
            max_distance: Property::Invalid,
        })
    };
    told(
        js_memory_alloc(2, Some(16), &options(Err(refused())), 4096).unwrap_err(),
        ErrorKind::TypeError,
        "expected a pointer",
    );
    told(
        js_memory_alloc(2, Some(16), &options(Ok(1)), 4096).unwrap_err(),
        ErrorKind::InternalError,
        "Memory.alloc() maxDistance must be an integer",
    );
    told(
        js_memory_alloc(2, Some(-1), &options(Err(refused())), 4096).unwrap_err(),
        ErrorKind::InternalError,
        "Memory.alloc() invalid size",
    );
    assert!(js_memory_alloc(1, Some(16), &OptionsArgument::Invalid, 4096).is_ok());
    told(
        alloc_outcome(plan, 0).unwrap_err(),
        ErrorKind::InternalError,
        "Memory.alloc() unable to allocate free page(s) near address",
    );
    told(
        alloc_outcome(AllocPlan::Heap { size: 16 }, 0).unwrap_err(),
        ErrorKind::InternalError,
        "Memory.alloc() out of memory",
    );
    assert_eq!(alloc_outcome(plan, 0x20000).unwrap(), 0x20000);
}

#[test]
fn protection_changes_are_planned() {
    told(
        js_memory_protect(2, Ok(0x1000), Some(1), Some("r--"), Some(4096)).unwrap_err(),
        ErrorKind::TypeError,
        "Memory.protect(addr, size, protection) requires 3 arguments",
    );
    told(
        js_memory_protect(3, Err(refused()), Some(1), Some("r--"), Some(4096)).unwrap_err(),
        ErrorKind::TypeError,
        "expected a pointer",
    );
    let plan = js_memory_protect(3, Ok(0x1ffe), Some(4), Some("r-x"), Some(4096)).unwrap().unwrap();
    assert_eq!(plan.range, PageRange { start: 0x1000, length: 0x2000 });
    assert_eq!(plan.protection, PROT_READ | PROT_EXEC);
    assert!(js_memory_protect(3, Ok(0x1ffe), Some(0), Some("r-x"), Some(4096)).unwrap().is_none());
    told(
        protect_failed(0x1ffe, 4, "r-x", "Permission denied"),
        ErrorKind::RangeError,
        "Memory.protect(0x1ffe, 4, \"r-x\"): Permission denied",
    );
    told(
        memory_query_protection(0, &number(1)).unwrap_err(),
        ErrorKind::TypeError,
        "Memory.queryProtection(address) requires 1 argument",
    );
    told(
        memory_query_protection(1, &PointerArgument::Other).unwrap_err(),
        ErrorKind::TypeError,
        "Memory.queryProtection: address must be a pointer",
    );
    assert_eq!(memory_query_protection(1, &number(0x1000)).unwrap(), 0x1000);
    assert_eq!(protection_answer(Some(PROT_READ | PROT_EXEC)).unwrap(), "r-x");
    told(
        protection_answer(None).unwrap_err(),
        ErrorKind::RangeError,
        "Memory.queryProtection: failed to query address",
    );
}

#[test]
fn flushing_needs_a_positive_size() {
    told(
        memory_flush_code_cache(1, Ok(0x1000), Some(4)).unwrap_err(),
        ErrorKind::TypeError,
        "Memory.flushCodeCache() requires (addr, size)",
    );
    for size in [None, Some(0), Some(-4)] {
        told(
            memory_flush_code_cache(2, Ok(0x1000), size).unwrap_err(),
            ErrorKind::TypeError,
            "Memory.flushCodeCache() size must be positive",
        );
    }
    let range = memory_flush_code_cache(2, Ok(0x1000), Some(4)).unwrap();
    assert_eq!((range.start, range.size), (0x1000, 4));
    assert!(memory_flush_code_cache(2, Err(refused()), Some(4)).is_err());
}

#[test]
fn texts_are_allocated_with_a_terminator() {
    assert_eq!(memory_alloc_string(1, Some("h\u{e9}"), false).unwrap(), b"h\xc3\xa9\0");
    assert_eq!(memory_alloc_string(1, Some("h\u{e9}"), true).unwrap(), b"h\0\xe9\0\0\0");
    told(
        memory_alloc_string(0, None, false).unwrap_err(),
        ErrorKind::TypeError,
        "Memory.allocUtf8String() requires 1 argument: str",
    );
    told(
        memory_alloc_string(1, None, true).unwrap_err(),
        ErrorKind::TypeError,
        "Memory.allocUtf16String() argument must be a string",
    );
    told(
        alloc_string_outcome(false, 0).unwrap_err(),
        ErrorKind::InternalError,
        "Memory.allocUtf8String() out of memory",
    );
    assert_eq!(alloc_string_outcome(true, 0x1000).unwrap(), 0x1000);
    told(ansi_string(), ErrorKind::TypeError, "ANSI API is only applicable on Windows");
}

#[test]
fn copies_are_planned_for_scripts() {
    told(
        memory_copy(2, &number(1), &number(2), Some(1)).unwrap_err(),
        ErrorKind::TypeError,
        "Memory.copy(destination, source, size) requires 3 arguments",
    );
    told(
        memory_copy(3, &PointerArgument::Other, &PointerArgument::Other, None).unwrap_err(),
        ErrorKind::TypeError,
        "Memory.copy: destination must be a pointer",
    );
    told(
        memory_copy(3, &number(1), &PointerArgument::Other, None).unwrap_err(),
        ErrorKind::TypeError,
        "Memory.copy: source must be a pointer",
    );
    told(
        memory_copy(3, &number(1), &number(2), Some(-1)).unwrap_err(),
        ErrorKind::RangeError,
        "Memory.copy: invalid size",
    );
    assert!(memory_copy(3, &number(0x1000), &number(0x1000), Some(8)).unwrap().is_none());
    let plan = memory_copy(3, &number(0x1004), &number(0x1000), Some(8)).unwrap().unwrap();
    assert!(plan.backward);
    assert_eq!((plan.source, plan.destination, plan.size), (0x1000, 0x1004, 8));
    let low = PointerArgument::Number { unsigned: Some(u64::MAX), signed: None };
    assert_eq!(
        memory_copy(3, &low, &number(0x1000), Some(8)).unwrap_err().kind,
        ErrorKind::RangeError
    );
}

#[test]
fn duplicates_are_planned_for_scripts() {
    told(
        memory_dup(1, &number(1), Some(1)).unwrap_err(),
        ErrorKind::TypeError,
        "Memory.dup(source, size) requires 2 arguments",
    );
    told(
        memory_dup(2, &PointerArgument::Other, Some(1)).unwrap_err(),
        ErrorKind::TypeError,
        "Memory.dup: source must be a pointer",
    );
    told(
        memory_dup(2, &number(1), Some(0)).unwrap_err(),
        ErrorKind::RangeError,
        "Memory.dup: invalid size",
    );
    assert!(memory_dup(2, &number(1), Some(MAX_OWNED_ALLOCATION as i64 + 1)).is_err());
    let request = memory_dup(2, &number(0x1000), Some(16)).unwrap();
    assert_eq!(request, DupRequest { source: 0x1000, size: 16 });
    told(
        dup_copy(request, 0).unwrap_err(),
        ErrorKind::InternalError,
        "Memory.dup: allocation failed",
    );
    let plan = dup_copy(request, 0x9000).unwrap().unwrap();
    assert_eq!((plan.source, plan.destination, plan.size), (0x1000, 0x9000, 16));
}

#[test]
fn patches_are_checked_for_scripts() {
    told(
        memory_patch_code(2, Ok(0x1000), Some(4), true, 4096, Some(PROT_READ)).unwrap_err(),
        ErrorKind::InternalError,
        "Memory.patchCode() requires (address, size, apply)",
    );
    let told_as = |size, function, protection| {
        memory_patch_code(3, Ok(0x1ffe), size, function, 4096, protection).unwrap_err().message
    };
    assert_eq!(told_as(Some(0), true, Some(PROT_READ)), "Memory.patchCode() invalid size");
    assert_eq!(
        told_as(Some(4), false, Some(PROT_READ)),
        "Memory.patchCode() apply must be a function"
    );
    assert_eq!(told_as(Some(4), true, None), "Memory.patchCode() address is not mapped");
    let range = memory_patch_code(3, Ok(0x1ffe), Some(4), true, 4096, Some(PROT_READ)).unwrap();
    assert_eq!(range, PageRange { start: 0x1000, length: 0x2000 });
    told(
        not_writable(range, "Permission denied"),
        ErrorKind::InternalError,
        "unable to make 0x1000+8192 writable: Permission denied",
    );
}

#[test]
fn scans_in_the_background_are_registered() {
    let mut jobs = ScanJobs::new();
    let pattern = || Ok(MatchPattern::parse("01 02").unwrap());
    told(
        memory_scan(&mut jobs, 7, 3, Ok(0x1000), Some(8), pattern(), true).unwrap_err(),
        ErrorKind::InternalError,
        "Memory.scan() requires (address, size, pattern, callbacks)",
    );
    told(
        memory_scan(&mut jobs, 7, 4, Ok(0x1000), Some(0x8000_0000), pattern(), true).unwrap_err(),
        ErrorKind::InternalError,
        "Memory.scan() invalid size",
    );
    assert!(memory_scan(&mut jobs, 7, 4, Ok(0x1000), Some(8), Err(refused()), true).is_err());
    told(
        memory_scan(&mut jobs, 7, 4, Ok(0x1000), Some(8), pattern(), false).unwrap_err(),
        ErrorKind::InternalError,
        "Memory.scan() callbacks must be an object",
    );
    assert!(jobs.jobs.is_empty());
    let start = memory_scan(&mut jobs, 7, 4, Ok(0x1000), Some(8), pattern(), true).unwrap();
    assert_eq!((start.id, start.address, start.size), (1, 0x1000, 8));
    assert_eq!(jobs.jobs.len(), 1);
    assert_eq!((jobs.jobs[0].context, jobs.next_id), (7, 2));
    let cursor = begin_scan(start).unwrap();
    assert_eq!(cursor.next_request().unwrap().length, 8);
    let past = memory_scan(&mut jobs, 7, 4, Ok(u64::MAX - 4), Some(8), pattern(), true).unwrap();
    assert!(begin_scan(past).is_none());
    told(
        scan_not_started("Resource temporarily unavailable"),
        ErrorKind::InternalError,
        "Memory.scan() could not start scan thread: Resource temporarily unavailable",
    );
}

#[test]
fn pointer_searches_are_read() {
    let range = |base, size| RangeArgument { base, size };
    told(
        memory_find_pointers(1, Some(vec![]), Some(vec![]), None).unwrap_err(),
        ErrorKind::InternalError,
        "Memory.findPointers() requires (ranges, values[, options])",
    );
    told(
        memory_find_pointers(2, None, None, None).unwrap_err(),
        ErrorKind::InternalError,
        "Memory.findPointers() ranges must be an array of {base, size}",
    );
    told(
        memory_find_pointers(
            2,
            Some(vec![range(Ok(0x1000), Some(-1)), range(Err(refused()), None)]),
            None,
            None,
        )
        .unwrap_err(),
        ErrorKind::InternalError,
        "Memory.findPointers() invalid range size",
    );
    told(
        memory_find_pointers(2, Some(vec![]), None, None).unwrap_err(),
        ErrorKind::InternalError,
        "Memory.findPointers() values must be an array of pointers",
    );
    assert!(memory_find_pointers(2, Some(vec![]), Some(vec![Ok(1), Err(refused())]), None).is_err());
    assert!(memory_find_pointers(3, Some(vec![]), Some(vec![]), Some(Err(refused()))).is_err());
    let query = memory_find_pointers(
        3,
        Some(vec![range(Ok(0x1000), Some(64))]),
        Some(vec![Ok(5), Ok(6), Ok(5)]),
        Some(Ok(0xff)),
    )
    .unwrap();
    assert_eq!((query.ranges[0].base, query.ranges[0].size), (0x1000, 64));
    assert_eq!(query.values.len(), 2);
    assert!(query.values.contains(&5) && query.values.contains(&6));
    assert_eq!(query.mask, 0xff);
    assert_eq!(
        memory_find_pointers(2, Some(vec![]), Some(vec![]), None).unwrap().mask,
        u64::MAX
    );
    told(
        memory_check_code_pointer(0, Ok(1)).unwrap_err(),
        ErrorKind::InternalError,
        "Memory.checkCodePointer() requires a pointer",
    );
    assert_eq!(memory_check_code_pointer(1, Ok(0x1000)).unwrap(), 0x1000);
}

#[test]
fn reads_and_writes_find_their_address() {
    let this = PointerArgument::Callable(0x1000);
    let other = PointerArgument::Other;
    assert_eq!(
        read_string(false, &this, &vec![], None, "readUtf8String").unwrap(),
        TextPlan::Terminated { address: 0x1000 }
    );
    assert_eq!(
        read_string(true, &this, &vec![number(3)], Some(Some(3)), "readUtf16String").unwrap(),
        TextPlan::Exact { address: 0x1000, bytes: 6 }
    );
    assert_eq!(
        read_string(false, &other, &vec![number(0)], None, "readUtf8String").unwrap(),
        TextPlan::Null
    );
    told(
        read_string(true, &other, &vec![], None, "readUtf16String").unwrap_err(),
        ErrorKind::TypeError,
        "readUtf16String() requires a pointer",
    );
    told(
        read_string(false, &other, &vec![], None, "readUtf8String").unwrap_err(),
        ErrorKind::TypeError,
        "read string requires a pointer",
    );

    let read = memory_read_byte_array(&other, &vec![number(0x1000), number(4)], Some(4)).unwrap();
    assert_eq!((read.address, read.length), (0x1000, 4));
    told(
        memory_read_byte_array(&other, &vec![], None).unwrap_err(),
        ErrorKind::TypeError,
        "readByteArray() requires a pointer",
    );
    told(
        memory_read_byte_array(&this, &vec![], None).unwrap_err(),
        ErrorKind::TypeError,
        "readByteArray() requires length argument",
    );

    let write = memory_write_string(&this, &vec![other], Some("ab"), false).unwrap();
    assert_eq!((write.address, write.returns_this), (0x1000, true));
    assert_eq!(write.bytes, b"ab\0");
    let other = PointerArgument::Other;
    told(
        memory_write_string(&other, &vec![], Some("ab"), false).unwrap_err(),
        ErrorKind::TypeError,
        "write string requires a pointer",
    );
    told(
        memory_write_string(&this, &vec![], Some("ab"), false).unwrap_err(),
        ErrorKind::TypeError,
        "write string requires a string value",
    );
    told(
        memory_write_string(&this, &vec![number(1)], None, false).unwrap_err(),
        ErrorKind::TypeError,
        "write string value must be a string",
    );

    let arguments = vec![number(0x1000), PointerArgument::Other];
    let write = memory_write_bytes_target(&other, &arguments, Ok(vec![1, 2])).unwrap();
    assert_eq!((write.address, write.returns_this), (0x1000, false));
    assert_eq!(write.bytes, [1, 2]);
    told(
        memory_write_bytes_target(&other, &vec![], Ok(vec![])).unwrap_err(),
        ErrorKind::TypeError,
        "writeBytes() requires a pointer",
    );
    told(
        memory_write_bytes_target(&this, &vec![], Ok(vec![])).unwrap_err(),
        ErrorKind::TypeError,
        "writeBytes() requires bytes argument",
    );
    assert!(memory_write_bytes_target(&other, &arguments, Err(refused())).is_err());
}
