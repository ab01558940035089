use rustfrida::memory_access::{
    copy_memory, falls_back_to_memory_file, memory_file_offset, parse_dup_size, parse_size,
    read_exact, write_exact, AccessStart, CopyPlan, KernelAnswer, MemoryAccessError,
    MemoryOperation, TransferStep, COPY_CHUNK_SIZE, EACCES, EFAULT, EINTR, EIO, ENOMEM, ENOSYS,
    EOVERFLOW, EPERM,
};
use rustfrida::memory_alloc::{
    check_patch, format_protection, make_writable, memory_alloc, memory_protect, page_range,
    parse_alloc_options, parse_protection, patch_applied, patch_outcome, AllocOptions, AllocPlan, GivenOptions,
    MappedRange, NearRequest, OptionsArgument, PatchOutcome, Property, WritableStep, PROT_EXEC,
    PROT_READ, PROT_WRITE,
};
use rustfrida::memory_api::RangeArgument;
use rustfrida::memory_monitor::{
    cut_memory_monitor, disable, dispatch_memory_access, install_memory_monitor_backend,
    js_monitor_disable, js_monitor_enable, monitor_enable_failed, CallbackRoot, EnablePhase, EngineAnswer,
    MemoryAccessInfo, MemoryMonitorBackend, MonitorEnable, MonitorRange, MonitorRegistry,
};
use rustfrida::memory_pattern::MatchPattern;
use rustfrida::memory_pointers::{
    check_code_pointer, find_in_range, parse_range_size, PointerMatch, PointerSearch, Range,
};
use rustfrida::memory_scan::{
    cut_memory_scans, memory_scan_sync, next_scan_request, scan_completion, scan_match_step, scan_range,
    wait_for_memory_scans, MatchStep, ScanCursor, ScanJobs, SCAN_CHUNK_SIZE,
};
use rustfrida::memory_text::{
    decode_text, decode_utf16_bytes, parse_array_length, parse_optional_length, text_byte_length,
    write_string_bytes, ReaderStep, TerminatedReader, MAX_STRING_SIZE,
};
use rustfrida::memory_value::{
    access_error, decode_value, encode_value, get_addr_from_arg, memory_read, memory_write,
    MemoryValue, ValueKind, WriteArgument,
};
use rustfrida::memory_write::{
    memory_write_bytes, plain_written, shadow_one_page, shadow_two_pages, write_error_message,
    CodeFlush, ShadowPatches, ShadowStep, WritePlan,
};
use rustfrida::in_flight::{InFlight, WaitPoll};
use rustfrida::pointer::{
    js_ptr, native_pointer_add, native_pointer_combine, native_pointer_compare,
    native_pointer_equals, native_pointer_is_null, native_pointer_shift,
    native_pointer_to_match_pattern, native_pointer_to_string, Allocations, BitOperation,
    NativePointerData, PointerArgument, RadixArgument,
};
use rustfrida::script::{ErrorKind, ScriptError};
use rustfrida::utf16::{decode_utf16, encode_utf16};
use std::collections::HashSet;

/// A piece of memory that answers as the kernel would.
struct Memory {
    base: u64,
    bytes: Vec<u8>,
}

impl Memory {
    fn new(base: u64, size: usize) -> Memory {
        Memory { base, bytes: vec![0; size] }
    }

    fn holds(&self, address: u64, size: usize) -> bool {
        address >= self.base && address + size as u64 <= self.base + self.bytes.len() as u64
    }

    fn read(&self, address: u64, size: usize) -> Result<Vec<u8>, MemoryAccessError> {
        let mut transfer = match read_exact(address, address, size) {
            AccessStart::Nothing => return Ok(vec![]),
            AccessStart::Failed(error) => return Err(error),
            AccessStart::Transfer(transfer) => transfer,
        };
        let mut output = Vec::new();
        loop {
            let at = transfer.kernel_address + transfer.completed as u64;
            let left = transfer.size - transfer.completed;
            let answer = if self.holds(at, left) {
                let count = left.min(3);
                let start = (at - self.base) as usize;
                output.extend_from_slice(&self.bytes[start..start + count]);
                KernelAnswer::Moved(count)
            } else {
                KernelAnswer::Error(EFAULT)
            };
            match transfer.advance(answer) {
                TransferStep::Done => return Ok(output),
                TransferStep::Continue => {}
                TransferStep::Failed(error) => return Err(error),
            }
        }
    }

    fn write(&mut self, address: u64, data: &[u8]) -> Result<(), MemoryAccessError> {
        let writable = self.holds(address, data.len());
        let mut transfer = match write_exact(address, address, data.len(), writable) {
            AccessStart::Nothing => return Ok(()),
            AccessStart::Failed(error) => return Err(error),
            AccessStart::Transfer(transfer) => transfer,
        };
        let start = (address - self.base) as usize;
        self.bytes[start..start + data.len()].copy_from_slice(data);
        match transfer.advance(KernelAnswer::Moved(data.len())) {
            TransferStep::Done => Ok(()),
            other => panic!("{other:?}"),
        }
    }

    fn copy(&mut self, destination: u64, source: u64, size: usize) -> Result<(), MemoryAccessError> {
        let mut plan: CopyPlan = match copy_memory(destination, source, size)? {
            Some(plan) => plan,
            None => return Ok(()),
        };
        while let Some(step) = plan.next_step() {
            let piece = self.read(step.source, step.length)?;
            self.write(step.destination, &piece)?;
            plan.step_done();
        }
        Ok(())
    }
}

#[test]
fn copies_overlapping_ranges_like_memmove() {
    let mut memory = Memory::new(0x1000, 8);
    memory.bytes = b"abcdefgh".to_vec();
    let base = memory.base;
    memory.copy(base + 2, base, 6).unwrap();
    assert_eq!(&memory.bytes, b"ababcdef");

    memory.copy(base, base + 2, 6).unwrap();
    assert_eq!(&memory.bytes, b"abcdefef");
}

#[test]
fn long_copies_overlap_in_both_directions() {
    let size = 3 * COPY_CHUNK_SIZE + 17;
    let pattern: Vec<u8> = (0..size + 5).map(|i| (i % 251) as u8).collect();
    let mut memory = Memory::new(0x10_0000, size + 5);
    memory.bytes = pattern.clone();
    memory.copy(0x10_0005, 0x10_0000, size).unwrap();
    assert_eq!(memory.bytes[5..], pattern[..size]);

    memory.bytes = pattern.clone();
    memory.copy(0x10_0000, 0x10_0005, size).unwrap();
    assert_eq!(memory.bytes[..size], pattern[5..]);
}

#[test]
fn safely_reads_and_writes_local_memory() {
    let mut memory = Memory::new(0x7000, 4);
    memory.bytes = 0x1122_3344u32.to_ne_bytes().to_vec();
    let address = memory.base;
    let bytes = memory.read(address, 4).unwrap();
    assert_eq!(decode_value(ValueKind::U32, &bytes), MemoryValue::Uint(0x1122_3344));
    memory.write(address, &0xaabb_ccddu32.to_ne_bytes()).unwrap();
    assert_eq!(memory.bytes, 0xaabb_ccddu32.to_ne_bytes());
}

#[test]
fn rejects_invalid_addresses_without_dereferencing_them() {
    let mut memory = Memory::new(0x7000, 16);
    assert!(memory.read(1, 8).is_err());
    assert!(memory.write(1, &[1, 2, 3]).is_err());
}

#[test]
fn accesses_past_the_end_of_memory_fail_at_once() {
    let error = MemoryAccessError {
        operation: MemoryOperation::Read,
        address: u64::MAX,
        size: 2,
        errno: EFAULT,
    };
    assert_eq!(read_exact(u64::MAX, u64::MAX, 2), AccessStart::Failed(error));
    assert!(matches!(read_exact(0, 0, 1), AccessStart::Failed(_)));
    assert_eq!(read_exact(0, 0, 0), AccessStart::Nothing);
    assert_eq!(error.text(), "memory read failed at 0xffffffffffffffff (size 2, errno 14)");
    assert_eq!(
        copy_memory(u64::MAX, 1, 2).unwrap_err(),
        MemoryAccessError {
            operation: MemoryOperation::Write,
            address: u64::MAX,
            size: 2,
            errno: EOVERFLOW,
        }
    );
    assert!(copy_memory(5, 5, 2).unwrap().is_none());
}

#[test]
fn interrupted_transfers_go_on_and_empty_answers_fail() {
    let mut transfer = match read_exact(0x1000, 0x1000, 8) {
        AccessStart::Transfer(transfer) => transfer,
        other => panic!("{other:?}"),
    };
    assert_eq!(transfer.advance(KernelAnswer::Error(EINTR)), TransferStep::Continue);
    assert_eq!(transfer.advance(KernelAnswer::Moved(3)), TransferStep::Continue);
    assert_eq!(memory_file_offset(&transfer), Ok(0x1003));
    match transfer.advance(KernelAnswer::Moved(0)) {
        TransferStep::Failed(error) => {
            assert_eq!((error.address, error.size, error.errno), (0x1003, 5, EIO))
        }
        other => panic!("{other:?}"),
    }
    assert!(falls_back_to_memory_file(ENOSYS));
    assert!(!falls_back_to_memory_file(EFAULT));
}

#[test]
fn kernel_numbers_are_those_of_the_platform() {
    assert_eq!(
        (EPERM, EINTR, EIO, ENOMEM, EACCES, EFAULT, ENOSYS, EOVERFLOW),
        (
            libc::EPERM,
            libc::EINTR,
            libc::EIO,
            libc::ENOMEM,
            libc::EACCES,
            libc::EFAULT,
            libc::ENOSYS,
            libc::EOVERFLOW
        )
    );
    assert_eq!(
        (PROT_READ, PROT_WRITE, PROT_EXEC),
        (libc::PROT_READ, libc::PROT_WRITE, libc::PROT_EXEC)
    );
}

#[test]
fn sizes_are_checked() {
    assert_eq!(parse_size(Some(4), "Memory.copy").unwrap(), 4);
    assert!(parse_size(Some(-1), "Memory.copy").is_err());
    assert!(parse_size(None, "Memory.copy").is_err());
    assert_eq!(parse_dup_size(Some(4)).unwrap(), 4);
    assert_eq!(parse_dup_size(Some(0)).unwrap_err().message, "Memory.dup: invalid size");
}

#[test]
fn parses_exact_wildcard_and_mask_patterns() {
    let pattern = MatchPattern::parse("13 A? ?7 ff : ff f0 0f ff").unwrap();
    assert_eq!(pattern.bytes, vec![0x13, 0xa0, 0x07, 0xff]);
    assert_eq!(pattern.masks, vec![0xff, 0xf0, 0x0f, 0xff]);
    assert!(pattern.matches(&[0x13, 0xab, 0x47, 0xff]));
    assert!(!pattern.matches(&[0x12, 0xab, 0x47, 0xff]));
}

#[test]
fn rejects_invalid_and_edge_wildcard_patterns() {
    for invalid in ["", " ", "1", "13+37", "??", "?? 13", "13 ??", "13 37 : ff"] {
        assert!(MatchPattern::parse(invalid).is_err(), "accepted {invalid:?}");
    }
}

#[test]
fn exact_patterns_find_their_own_bytes() {
    let pattern = MatchPattern::parse("de ad be ef").unwrap();
    assert!(pattern.matches(&[0xde, 0xad, 0xbe, 0xef]));
    assert_eq!(pattern.len(), 4);
    assert!(!pattern.matches(&[0xde, 0xad, 0xbe, 0xee]));
    assert!(pattern.matches(&[0xde, 0xad]));
}

#[test]
fn finds_a_match_crossing_a_chunk_boundary() {
    let pattern = MatchPattern::parse("13 37 42").unwrap();
    let mut haystack = vec![0u8; SCAN_CHUNK_SIZE + 8];
    let match_offset = SCAN_CHUNK_SIZE - 2;
    haystack[match_offset..match_offset + pattern.len()].copy_from_slice(&[0x13, 0x37, 0x42]);
    let base = 0x7000_0000u64;

    assert_eq!(
        scan_range(base, &haystack, pattern),
        vec![base + match_offset as u64]
    );
}

#[test]
fn matches_do_not_overlap() {
    let pattern = MatchPattern::parse("aa aa").unwrap();
    assert_eq!(scan_range(0x10, &[0xaa; 5], pattern), vec![0x10, 0x12]);
}

#[test]
fn a_scan_reads_chunk_by_chunk() {
    let mut cursor: ScanCursor =
        memory_scan_sync(3, Some(0x1000), Some(4), Some("d? ad ?e ef : ff ff ff ff")).unwrap();
    let request = cursor.next_request().unwrap();
    assert_eq!((request.address, request.length), (0x1000, 4));
    cursor.feed(&[0xd0, 0xad, 0x0e, 0xef]);
    assert!(cursor.next_request().is_none());
    assert_eq!(cursor.into_matches(), vec![0x1000]);
    let message = |result: Result<ScanCursor, ScriptError>| result.err().unwrap().message;
    assert_eq!(
        message(memory_scan_sync(2, Some(1), Some(1), Some("00"))),
        "Memory.scanSync(address, size, pattern) requires 3 arguments"
    );
    assert_eq!(
        message(memory_scan_sync(3, None, Some(1), Some("00"))),
        "Memory.scanSync: address must be a pointer"
    );
    assert_eq!(
        message(memory_scan_sync(3, Some(1), Some(-1), Some("00"))),
        "Memory.scanSync: invalid size"
    );
    assert_eq!(
        message(memory_scan_sync(3, Some(u64::MAX), Some(1), Some("00"))),
        "Memory.scanSync: address range overflow"
    );
    assert_eq!(
        message(memory_scan_sync(3, Some(1), Some(1), None)),
        "Memory.scanSync: pattern must be a string"
    );
    assert_eq!(
        message(memory_scan_sync(3, Some(1), Some(1), Some("zz"))),
        "invalid match pattern"
    );
}

#[test]
fn stopped_scans_report_nothing_more() {
    let mut jobs = ScanJobs::new();
    let first = jobs.register_job(1);
    let second = jobs.register_job(1);
    assert_ne!(first, second);
    cut_memory_scans(&mut jobs);
    assert!(jobs.jobs.iter().all(|job| job.cancelled));
    jobs.unregister_job(first);
    assert_eq!(jobs.jobs.len(), 1);
    assert_eq!(scan_match_step(true, true, true, false), MatchStep::Stop);
    assert_eq!(scan_match_step(false, false, true, false), MatchStep::Skip);
    assert_eq!(scan_match_step(false, true, true, false), MatchStep::Report);
    let end = scan_completion(false, true, true, true, true);
    assert!(end.report_error && end.report_completion);
    let mut scans = InFlight::new();
    scans.enter();
    assert_eq!(wait_for_memory_scans(&scans, 1, 5), WaitPoll::Wait { remaining: 4 });
}

#[test]
fn protections_read_back() {
    for text in ["---", "r--", "rw-", "r-x", "rwx"] {
        assert_eq!(format_protection(parse_protection(text).unwrap()), text);
    }
    assert_eq!(parse_protection("rw"), None);
    assert_eq!(parse_protection("xwr"), None);
}

#[test]
fn pages_cover_their_range() {
    let range = page_range(0x1ff0, 0x20, 0x1000).unwrap();
    assert_eq!((range.start, range.length), (0x1000, 0x2000));
    assert!(page_range(u64::MAX, 2, 0x1000).is_none());
}

#[test]
fn places_near_an_address_are_free() {
    let request = NearRequest::new(0x1000, 0x1000, 0x10_0000, 0x4000).unwrap();
    let occupied = vec![MappedRange { start: 0xf_f000, end: 0x10_1000 }];
    let candidates = request.candidates(&occupied);
    assert!(!candidates.is_empty());
    for candidate in &candidates {
        assert!(candidate.address + 0x1000 <= 0xf_f000 || candidate.address >= 0x10_1000);
    }
    for pair in candidates.windows(2) {
        assert!(pair[0].distance <= pair[1].distance);
    }
    assert!(request.accepts(candidates[0].address));
}

fn plain_options() -> AllocOptions {
    parse_alloc_options(&OptionsArgument::Unspecified).unwrap()
}

#[test]
fn allocations_are_planned_by_their_size() {
    assert!(matches!(
        memory_alloc(Some(160), Ok(plain_options()), 0x1000),
        Ok(AllocPlan::Heap { size: 160 })
    ));
    assert!(matches!(
        memory_alloc(Some(0x2000), Ok(plain_options()), 0x1000),
        Ok(AllocPlan::Pages { size: 0x2000, .. })
    ));
    assert_eq!(
        memory_alloc(Some(0), Ok(plain_options()), 0x1000).unwrap_err().message,
        "Memory.alloc() invalid size"
    );
    let near = GivenOptions {
        protection: Property::Value("rw-".to_string()),
        near: Some(Ok(0x1000)),
        max_distance: Property::Absent,
    };
    assert_eq!(
        parse_alloc_options(&OptionsArgument::Given(near)).unwrap_err().message,
        "Memory.alloc() maxDistance is required when near is given"
    );
    assert_eq!(
        parse_alloc_options(&OptionsArgument::Invalid).unwrap_err().message,
        "Memory.alloc() options must be an object"
    );
}

#[test]
fn protection_changes_whole_pages() {
    let plan = memory_protect(0x1234, Some(1), Some("r-x"), Some(0x1000)).unwrap().unwrap();
    assert_eq!((plan.range.start, plan.range.length), (0x1000, 0x1000));
    assert_eq!(plan.protection, PROT_READ | PROT_EXEC);
    assert_eq!(
        memory_protect(0x1234, Some(1), Some("bad!"), Some(0x1000)).unwrap_err().message,
        "Memory.protect: protection must be 3-char string like \"rwx\""
    );
    assert_eq!(
        memory_protect(0x1234, Some(-1), Some("rwx"), Some(0x1000)).unwrap_err().message,
        "Memory.protect: invalid size"
    );
    assert_eq!(
        memory_protect(0x1234, Some(1), Some("rwx"), None).unwrap_err().message,
        "Memory.protect: unable to query page size"
    );
    assert_eq!(
        memory_protect(u64::MAX, Some(2), Some("rwx"), Some(0x1000)).unwrap_err().message,
        "Memory.protect: address range overflow"
    );
}

#[test]
fn patches_restore_what_they_changed() {
    assert_eq!(
        make_writable(PROT_READ | PROT_EXEC, None, None),
        WritableStep::Try(PROT_READ | PROT_WRITE | PROT_EXEC)
    );
    assert_eq!(
        make_writable(PROT_READ | PROT_EXEC, Some(false), Some(true)),
        WritableStep::Granted(PROT_READ | PROT_WRITE)
    );
    assert_eq!(
        make_writable(PROT_READ, Some(false), Some(false)),
        WritableStep::Refused
    );
    assert!(check_patch(Some(4), true, 0x1000, 0x1000, Some(PROT_READ)).is_ok());
    assert_eq!(
        check_patch(Some(4), true, 0x1000, 0x1000, None).unwrap_err().message,
        "Memory.patchCode() address is not mapped"
    );
    assert_eq!(
        check_patch(Some(4), false, 0x1000, 0x1000, None).unwrap_err().message,
        "Memory.patchCode() apply must be a function"
    );
    match patch_outcome(false, false, PROT_READ | PROT_EXEC, PROT_READ | PROT_WRITE, 0x1000) {
        PatchOutcome::Failed(error) => assert_eq!(
            error.message,
            "Memory.patchCode() could not restore protection \"r-x\" at 0x1000 (left \"rw-\")"
        ),
        other => panic!("{other:?}"),
    }
    assert!(matches!(patch_outcome(true, false, 0, 0, 0), PatchOutcome::ScriptThrew));
    assert!(matches!(patch_outcome(false, true, 0, 0, 0), PatchOutcome::Done));
}

#[test]
fn texts_survive_memory() {
    let utf8 = write_string_bytes("rustfrida-utf8", false);
    assert_eq!(utf8.last(), Some(&0));
    assert_eq!(
        decode_text(&utf8[..utf8.len() - 1], true, "readUtf8String").unwrap(),
        "rustfrida-utf8"
    );
    let utf16 = write_string_bytes("rustfrida-utf16 \u{1f600}", true);
    assert_eq!(
        decode_utf16_bytes(&utf16[..utf16.len() - 2]).unwrap(),
        "rustfrida-utf16 \u{1f600}"
    );
    assert_eq!(decode_utf16(&encode_utf16(&['a', '\u{1f600}'])), Some("a\u{1f600}".to_string()));
    assert_eq!(decode_utf16(&[0xd800]), None);
    assert_eq!(
        decode_utf16_bytes(&[0, 0xd8]).unwrap_err().message,
        "readUtf16String: invalid UTF-16"
    );
}

#[test]
fn invalid_texts_are_refused_or_replaced() {
    let bytes = [b'a', 0xc3, 0xa4, 0xff, b'b'];
    assert_eq!(
        decode_text(&bytes, true, "readUtf8String").unwrap_err().message,
        format!(
            "readUtf8String: invalid UTF-8 at byte {}",
            std::str::from_utf8(&bytes).unwrap_err().valid_up_to()
        )
    );
    assert_eq!(
        decode_text(&bytes, false, "readCString").unwrap(),
        String::from_utf8_lossy(&bytes)
    );
}

#[test]
fn text_lengths_are_checked() {
    assert_eq!(parse_optional_length(None, "x").unwrap(), None);
    assert_eq!(parse_optional_length(Some(Some(-1)), "x").unwrap(), None);
    assert_eq!(parse_optional_length(Some(Some(5)), "x").unwrap(), Some(5));
    assert_eq!(
        parse_optional_length(Some(None), "x").unwrap_err().message,
        "x: length must be an integer"
    );
    assert_eq!(
        parse_optional_length(Some(Some(MAX_STRING_SIZE as i64 + 1)), "x").unwrap_err().message,
        "x: length exceeds maximum (16777216)"
    );
    assert_eq!(parse_array_length(Some(3)).unwrap(), 3);
    assert_eq!(
        parse_array_length(Some(-1)).unwrap_err().message,
        "readByteArray: length must be between 0 and 1073741824"
    );
    assert_eq!(text_byte_length(3, 2, "x").unwrap(), 6);
    assert_eq!(text_byte_length(usize::MAX, 2, "x").unwrap_err().message, "x: length overflow");
}

#[test]
fn terminated_texts_are_read_page_by_page() {
    let mut memory = Memory::new(0x1ff0, 0x40);
    let text = write_string_bytes("a text that crosses the end of a page", false);
    memory.write(0x1ff0, &text).unwrap();
    let mut reader = TerminatedReader::new(0x1ff0, 1);
    let mut reads = Vec::new();
    let found = loop {
        match reader.next() {
            ReaderStep::Read { address, length } => {
                reads.push((address, length));
                let limit = (memory.base + memory.bytes.len() as u64 - address) as usize;
                let mut chunk = memory.read(address, length.min(limit)).unwrap();
                chunk.resize(length, 0);
                if let Some(bytes) = reader.feed(&chunk) {
                    break bytes;
                }
            }
            other => panic!("{other:?}"),
        }
    };
    assert_eq!(reads[0], (0x1ff0, 0x10));
    assert_eq!(reads[1].0, 0x2000);
    assert_eq!(found, text[..text.len() - 1]);
}

#[test]
fn hidden_writes_split_at_pages() {
    assert_eq!(memory_write_bytes(0x1000, 0, 1).unwrap(), WritePlan::Nothing);
    assert_eq!(memory_write_bytes(0x1000, 4, 0).unwrap(), WritePlan::Plain);
    assert_eq!(memory_write_bytes(0x1000, 4, 1).unwrap(), WritePlan::OnePage);
    assert_eq!(
        memory_write_bytes(0x1ffe, 4, 1).unwrap(),
        WritePlan::TwoPages { first_length: 2, second_address: 0x2000 }
    );
    assert_eq!(
        memory_write_bytes(0x1000, 4, 3).unwrap_err().message,
        "writeBytes: unsupported stealth mode 3 (expected 0 or 1; use writest for mode 2)"
    );
    assert!(memory_write_bytes(0x1ffe, 0x2000, 1).is_err());
    assert!(memory_write_bytes(u64::MAX, 0x2000, 1).is_err());
    assert_eq!(plain_written(0x1000, 4), CodeFlush { start: 0x1000, length: 4 });
    let mut patches = ShadowPatches::new();
    let mut two = |second, first| shadow_two_pages(&mut patches, 0x1ffe, 4, 0x2000, second, first);
    assert!(matches!(two(None, None), ShadowStep::WriteSecond));
    assert!(matches!(two(Some(0), None), ShadowStep::WriteFirst));
    assert!(matches!(two(Some(0), Some(-1)), ShadowStep::ReleaseSecond(_)));
    assert!(matches!(two(Some(-1), None), ShadowStep::Failed(_)));
    assert!(patches.addresses.is_empty());
    assert!(matches!(
        shadow_two_pages(&mut patches, 0x1ffe, 4, 0x2000, Some(0), Some(0)),
        ShadowStep::Done(CodeFlush { start: 0x1ffe, length: 4 })
    ));
    assert_eq!(patches.addresses, [0x1ffe, 0x2000]);
    assert_eq!(
        shadow_one_page(&mut patches, 0x3000, 4, -5).unwrap_err().message,
        "writeBytes(stealth=1): kernel_hook write rc=-5"
    );
    assert_eq!(patches.addresses.len(), 2);
    assert_eq!(
        shadow_one_page(&mut patches, 0x3000, 4, 0).unwrap(),
        CodeFlush { start: 0x3000, length: 4 }
    );
    assert_eq!(patches.addresses, [0x1ffe, 0x2000, 0x3000]);
}

#[test]
fn hidden_writes_are_taken_back_at_the_end() {
    let mut patches = ShadowPatches::new();
    patches.track_wxshadow_addr(0x1000);
    patches.track_wxshadow_addr(0x2000);
    patches.track_wxshadow_addr(0x1000);
    patches.untrack_wxshadow_addr(0x2000);
    assert_eq!(patches.cleanup_wxshadow_patches(), vec![0x1000]);
    assert!(patches.cleanup_wxshadow_patches().is_empty());
    let error = MemoryAccessError {
        operation: MemoryOperation::Write,
        address: 0x10,
        size: 1,
        errno: EFAULT,
    };
    assert_eq!(
        write_error_message("writeU8", &error),
        "writeU8: memory write failed at 0x10 (size 1, errno 14); target must be writable (use Memory.protect first if appropriate)"
    );
}

#[test]
fn pointers_to_wanted_values_are_found() {
    let mut search = PointerSearch::new(0x1000, 24, 0x1000, u64::MAX);
    let mut values = HashSet::new();
    values.insert(0x4000u64);
    let request = search.next_request().unwrap();
    assert_eq!((request.address, request.length), (0x1000, 24));
    let mut chunk = Vec::new();
    for value in [1u64, 0x4000, 2] {
        chunk.extend(value.to_le_bytes());
    }
    search.feed(&chunk, &values);
    assert!(search.next_request().is_none());
    assert_eq!(search.matches.len(), 1);
    assert_eq!((search.matches[0].address, search.matches[0].value), (0x1008, 0x4000));
    assert_eq!(
        parse_range_size(Some(-1)).unwrap_err().message,
        "Memory.findPointers() invalid range size"
    );
    assert_eq!(check_code_pointer(0x1000, Some(7)).unwrap(), 7);
    assert_eq!(
        check_code_pointer(0x1000, None).unwrap_err().message,
        "Memory.checkCodePointer(): 0x1000 is not readable"
    );
}

fn access() -> MemoryAccessInfo {
    MemoryAccessInfo {
        thread_id: 1,
        operation: 2,
        from: 0x10,
        address: 0x1000,
        range_index: 0,
        page_index: 0,
        pages_completed: 1,
        pages_total: 1,
    }
}

#[test]
fn one_unreadable_page_costs_one_page() {
    let mut values = HashSet::new();
    values.insert(0x4000u64);
    let mut memory = vec![0u8; 3 * 4096];
    for at in [4088, 4096, 8184, 8192] {
        memory[at..at + 8].copy_from_slice(&0x4000u64.to_le_bytes());
    }
    let range = Range { base: 0x10_0000, size: memory.len() };
    let found = |pages: Vec<bool>| {
        let mut matches = vec![PointerMatch { address: 1, value: 2 }];
        find_in_range(&range, 4096, &memory, &pages, &values, u64::MAX, &mut matches);
        matches[1..].iter().map(|found| found.address - 0x10_0000).collect::<Vec<_>>()
    };
    assert_eq!(found(vec![true, true, true]), [4088, 4096, 8184, 8192]);
    assert_eq!(found(vec![true, false, true]), [4088, 8192]);
    assert_eq!(found(vec![false, true, true]), [4096, 8184, 8192]);
    assert!(found(vec![false, false, false]).is_empty());

    let mut search = PointerSearch::new(0x10_0000, memory.len(), 4096, u64::MAX);
    let request = search.next_request().unwrap();
    assert_eq!((request.address, request.length), (0x10_0000, 3 * 4096));
    search.skip();
    let request = search.next_request().unwrap();
    assert_eq!((request.address, request.length), (0x10_0000, 4096));
    search.skip();
    let request = search.next_request().unwrap();
    assert_eq!((request.address, request.length), (0x10_1000, 4096));
}

#[test]
fn words_across_pages_need_both_pages() {
    let mut values = HashSet::new();
    values.insert(0x4000u64);
    let mut memory = vec![0u8; 32];
    memory[8..16].copy_from_slice(&0x4000u64.to_le_bytes());
    memory[16..24].copy_from_slice(&0x4000u64.to_le_bytes());
    let range = Range { base: 0x1000 - 12, size: memory.len() };
    let found = |pages: Vec<bool>| {
        let mut matches = Vec::new();
        find_in_range(&range, 0x1000, &memory, &pages, &values, u64::MAX, &mut matches);
        matches.iter().map(|found| found.address).collect::<Vec<_>>()
    };
    assert_eq!(found(vec![true, true]), [0x1000 - 4, 0x1004]);
    assert_eq!(found(vec![false, true]), [0x1004]);
    assert!(found(vec![true, false]).is_empty());
}

#[test]
fn nothing_is_allocated_at_address_zero() {
    let request = NearRequest::new(0x1000, 0x1000, 0x1000, 0x4000).unwrap();
    let candidates = request.candidates(&vec![]);
    assert!(!candidates.is_empty());
    assert!(candidates.iter().all(|candidate| candidate.address != 0));
    assert_eq!(candidates[0].address, 0x1000);
}

#[test]
fn the_monitor_tells_one_script() {
    let mut registry = MonitorRegistry { backend: None, on_access: None };
    let callback = CallbackRoot { context: 1, value: 2 };
    let ranges = |base, size| Some(vec![RangeArgument { base, size }]);
    let good = || ranges(Ok(0x1000), Some(0x1000));
    assert_eq!(
        js_monitor_enable(&mut registry, 2, good(), true, callback).unwrap_err().message,
        "MemoryAccessMonitor requires the Gum backend, which this build does not have"
    );
    assert!(js_monitor_disable(&mut registry).is_err());
    install_memory_monitor_backend(&mut registry, MemoryMonitorBackend { enable: 1, disable: 2 });
    let mut refused = |count, ranges, is_function| {
        js_monitor_enable(&mut registry, count, ranges, is_function, callback).unwrap_err()
    };
    assert_eq!(
        refused(2, ranges(Ok(0x1000), Some(0)), true).message,
        "MemoryAccessMonitor.enable() invalid range size"
    );
    let bad_base =
        || Err(ScriptError { kind: ErrorKind::TypeError, message: "no pointer".to_string() });
    let error = refused(2, ranges(bad_base(), Some(0)), false);
    assert_eq!((error.kind, error.message.as_str()), (ErrorKind::TypeError, "no pointer"));
    let both = vec![
        RangeArgument { base: Ok(0x1000), size: None },
        RangeArgument { base: bad_base(), size: None },
    ];
    assert_eq!(
        refused(2, Some(both), true).message,
        "MemoryAccessMonitor.enable() invalid range size"
    );
    assert_eq!(
        refused(2, Some(vec![]), true).message,
        "MemoryAccessMonitor.enable() expected one or more ranges"
    );
    assert_eq!(
        refused(2, None, true).message,
        "MemoryAccessMonitor.enable() ranges must be an array of {base, size}"
    );
    assert_eq!(
        refused(1, None, true).message,
        "MemoryAccessMonitor.enable() requires (ranges, callbacks)"
    );
    assert_eq!(
        refused(2, good(), false).message,
        "MemoryAccessMonitor.enable() callbacks.onAccess must be a function"
    );
    assert!(dispatch_memory_access(&registry, access(), true, true).is_none());
    let setup = js_monitor_enable(&mut registry, 2, good(), true, callback).unwrap();
    assert_eq!(setup.ranges, vec![MonitorRange { base: 0x1000, size: 0x1000 }]);
    assert!(dispatch_memory_access(&registry, access(), false, true).is_none());
    assert!(dispatch_memory_access(&registry, access(), true, false).is_none());
    let report = dispatch_memory_access(&registry, access(), true, true).unwrap();
    assert_eq!((report.root, report.operation), (callback, "write"));
    assert_eq!(js_monitor_disable(&mut registry).unwrap().release, Some(callback));
    let _ = js_monitor_enable(&mut registry, 2, good(), true, callback).unwrap();
    let (teardown, error) = monitor_enable_failed(&mut registry, "no");
    assert_eq!(teardown.release, Some(callback));
    assert_eq!(error.message, "MemoryAccessMonitor.enable(): no");
    assert_eq!(cut_memory_monitor(&mut registry).release, None);
}

#[test]
fn a_monitor_that_cannot_be_enabled_releases_what_it_took() {
    let mut enable = MonitorEnable::new();
    enable.advance(EngineAnswer::Object(0));
    assert_eq!(
        enable.phase,
        EnablePhase::Failed { release_monitor: false, release_exceptor: false }
    );
    assert_eq!(enable.message, "Gum exceptor is unavailable, so faults cannot be caught");

    let mut enable = MonitorEnable::new();
    enable.advance(EngineAnswer::Object(5));
    enable.advance(EngineAnswer::Object(0));
    assert_eq!(
        enable.phase,
        EnablePhase::Failed { release_monitor: false, release_exceptor: true }
    );
    assert_eq!(enable.message, "Gum refused to create the monitor");

    let mut enable = MonitorEnable::new();
    enable.advance(EngineAnswer::Object(5));
    enable.advance(EngineAnswer::Object(6));
    enable.advance(EngineAnswer::NotEnabled(None));
    assert_eq!(enable.message, "unknown error");

    let mut enable = MonitorEnable::new();
    enable.advance(EngineAnswer::Object(5));
    enable.advance(EngineAnswer::Object(6));
    enable.advance(EngineAnswer::Enabled);
    let mut slot = enable.installed(vec![]);
    let taken = disable(&mut slot).unwrap();
    assert_eq!((taken.exceptor, taken.monitor), (5, 6));
    assert!(slot.is_none());
}

fn argument(signed: i64, unsigned: u64) -> WriteArgument {
    WriteArgument {
        signed: Some(signed),
        unsigned: Some(unsigned),
        float: None,
        double: None,
        address: Some(unsigned),
    }
}

#[test]
fn written_values_are_read_back() {
    let cases = [
        (ValueKind::S8, argument(-2, 0), MemoryValue::Int(-2)),
        (ValueKind::U8, argument(0, 0x1ab), MemoryValue::Int(0xab)),
        (ValueKind::S16, argument(-1234, 0), MemoryValue::Int(-1234)),
        (ValueKind::U16, argument(0, 0xcdef), MemoryValue::Int(0xcdef)),
        (ValueKind::S32, argument(-12345678, 0), MemoryValue::Int(-12345678)),
        (ValueKind::U32, argument(0, 0x89ab_cdef), MemoryValue::Uint(0x89ab_cdef)),
        (ValueKind::S64, argument(i64::MIN, 0), MemoryValue::BigInt(i64::MIN)),
        (ValueKind::U64, argument(0, u64::MAX), MemoryValue::BigUint(u64::MAX)),
        (ValueKind::Pointer, argument(0, 0x1234), MemoryValue::Pointer(0x1234)),
    ];
    for (kind, value, expected) in cases {
        let bytes = encode_value(kind, value).unwrap();
        assert_eq!(bytes.len(), kind.size());
        assert_eq!(decode_value(kind, &bytes), expected);
    }
    assert!(encode_value(ValueKind::Float, argument(0, 0)).is_none());
}

fn pointer(addr: u64) -> PointerArgument {
    PointerArgument::Pointer(NativePointerData { addr, owner: None })
}

fn number(value: u64) -> PointerArgument {
    PointerArgument::Number { unsigned: Some(value), signed: Some(value as i64) }
}

#[test]
fn operations_take_their_address_from_the_pointer_or_an_argument() {
    assert_eq!(memory_read(ValueKind::U8, &pointer(5), &vec![]).unwrap(), 5);
    assert_eq!(memory_read(ValueKind::U8, &PointerArgument::Other, &vec![number(6)]).unwrap(), 6);
    assert_eq!(
        memory_read(ValueKind::U8, &PointerArgument::Other, &vec![]).unwrap_err().message,
        "readU8() requires a pointer"
    );
    assert_eq!(get_addr_from_arg(&PointerArgument::Callable(9)), Some(9));
    let request =
        memory_write(ValueKind::U16, &pointer(5), &vec![number(1)], argument(1, 1)).unwrap();
    assert_eq!((request.addr, request.bytes, request.returns_this), (5, vec![1, 0], true));
    let other = PointerArgument::Other;
    assert_eq!(
        memory_write(ValueKind::U16, &other, &vec![], argument(1, 1)).unwrap_err().message,
        "writeU16() requires a pointer"
    );
    assert_eq!(
        memory_write(ValueKind::U16, &other, &vec![number(1)], argument(1, 1))
            .unwrap_err()
            .message,
        "writeU16() requires value argument"
    );
    assert_eq!(
        memory_write(ValueKind::Float, &pointer(1), &vec![number(1)], argument(1, 1))
            .unwrap_err()
            .message,
        "writeFloat(): value has incompatible type"
    );
    let nothing =
        WriteArgument { signed: None, unsigned: None, float: None, double: None, address: None };
    assert_eq!(
        memory_write(ValueKind::Pointer, &pointer(1), &vec![number(1)], nothing)
            .unwrap_err()
            .message,
        "writePointer() value must be a NativePointer or integer"
    );
    let error = MemoryAccessError {
        operation: MemoryOperation::Read,
        address: 1,
        size: 1,
        errno: EFAULT,
    };
    let failure = access_error("readU8", &error);
    assert_eq!(failure.kind, ErrorKind::RangeError);
    assert_eq!(failure.message, "readU8: memory read failed at 0x1 (size 1, errno 14)");
}

fn ptr(text: &str) -> NativePointerData {
    js_ptr(Some(&PointerArgument::Text(Some(text.to_string())))).unwrap()
}

fn equals(left: NativePointerData, right: NativePointerData) -> bool {
    native_pointer_equals(
        &PointerArgument::Pointer(left),
        Some(&PointerArgument::Pointer(right)),
    )
    .unwrap()
}

#[test]
fn memory_and_native_pointer_work_from_javascript() {
    let mut allocations = Allocations::new();
    let plan = memory_alloc(Some(160), Ok(plain_options()), 0x1000).unwrap();
    assert!(matches!(plan, AllocPlan::Heap { size: 160 }));
    let mut memory = Memory::new(0x5000, 160);
    let block = allocations.create_owned_native_pointer(memory.base);
    let at = |offset: u64| native_pointer_add(Some(block), Some(&number(offset))).unwrap();

    let mut write = |memory: &mut Memory, place: NativePointerData, kind, value| {
        let request = memory_write(
            kind,
            &PointerArgument::Pointer(place),
            &vec![number(0)],
            value,
        )
        .unwrap();
        memory.write(request.addr, &request.bytes).unwrap();
        assert!(request.returns_this);
    };
    write(&mut memory, block, ValueKind::U8, argument(0, 0xab));
    write(&mut memory, at(2), ValueKind::U16, argument(0, 0xcdef));
    write(&mut memory, at(4), ValueKind::U32, argument(0, 0x89ab_cdef));
    write(&mut memory, at(8), ValueKind::U64, argument(0, 0x1122_3344_5566_7788));
    write(&mut memory, at(16), ValueKind::Pointer, argument(0, block.addr));
    memory.write(at(24).addr, &[0xde, 0xad, 0xbe, 0xef]).unwrap();
    write(&mut memory, at(32), ValueKind::S8, argument(-2, 0));
    write(&mut memory, at(34), ValueKind::S16, argument(-1234, 0));
    write(&mut memory, at(36), ValueKind::S32, argument(-12345678, 0));
    write(&mut memory, at(40), ValueKind::S64, argument(-0x102030405060708, 0));
    let mut float = argument(0, 0);
    float.float = Some(1.25f32.to_bits());
    write(&mut memory, at(48), ValueKind::Float, float);
    let mut double = argument(0, 0);
    double.double = Some((-9.5f64).to_bits());
    write(&mut memory, at(56), ValueKind::Double, double);
    assert_eq!(memory_write_bytes(at(64).addr, 3, 0).unwrap(), WritePlan::Plain);
    memory.write(at(64).addr, &[1, 2, 3]).unwrap();

    let read = |memory: &Memory, place: NativePointerData, kind: ValueKind| {
        let address =
            memory_read(kind, &PointerArgument::Pointer(place), &vec![]).unwrap();
        decode_value(kind, &memory.read(address, kind.size()).unwrap())
    };
    assert_eq!(read(&memory, block, ValueKind::U8), MemoryValue::Int(0xab));
    assert_eq!(read(&memory, at(2), ValueKind::U16), MemoryValue::Int(0xcdef));
    assert_eq!(read(&memory, at(4), ValueKind::U32), MemoryValue::Uint(0x89ab_cdef));
    assert_eq!(read(&memory, at(8), ValueKind::U64), MemoryValue::BigUint(0x1122_3344_5566_7788));
    assert_eq!(read(&memory, at(16), ValueKind::Pointer), MemoryValue::Pointer(block.addr));
    assert_eq!(read(&memory, at(32), ValueKind::S8), MemoryValue::Int(-2));
    assert_eq!(read(&memory, at(34), ValueKind::S16), MemoryValue::Int(-1234));
    assert_eq!(read(&memory, at(36), ValueKind::S32), MemoryValue::Int(-12345678));
    assert_eq!(read(&memory, at(40), ValueKind::S64), MemoryValue::BigInt(-0x102030405060708));
    assert_eq!(read(&memory, at(48), ValueKind::Float), MemoryValue::Float(1.25f32.to_bits()));
    assert_eq!(read(&memory, at(56), ValueKind::Double), MemoryValue::Double((-9.5f64).to_bits()));
    assert_eq!(memory.read(at(64).addr, 3).unwrap()[2], 3);

    let utf8 = write_string_bytes("rustfrida-utf8", false);
    let utf16 = write_string_bytes("rustfrida-utf16", true);
    assert_eq!(
        decode_text(&utf8[..utf8.len() - 1], true, "readUtf8String").unwrap(),
        "rustfrida-utf8"
    );
    assert_eq!(decode_utf16_bytes(&utf16[..utf16.len() - 2]).unwrap(), "rustfrida-utf16");

    memory.copy(at(100).addr, at(24).addr, 4).unwrap();
    assert_eq!(memory.read(at(100).addr, 4).unwrap(), vec![222, 173, 190, 239]);
    assert_eq!(parse_dup_size(Some(4)).unwrap(), 4);
    assert_eq!(read(&memory, at(24), ValueKind::U32), MemoryValue::Uint(0xefbe_adde));

    let mut cursor =
        memory_scan_sync(3, Some(at(24).addr), Some(4), Some("d? ad ?e ef : ff ff ff ff")).unwrap();
    while let Some(request) = cursor.next_request() {
        let chunk = memory.read(request.address, request.length).unwrap();
        cursor.feed(&chunk);
    }
    assert_eq!(cursor.pattern.len(), 4);
    assert_eq!(cursor.into_matches(), vec![at(24).addr]);
    assert_eq!(format_protection(PROT_READ | PROT_WRITE), "rw-");

    let null = js_ptr(Some(&number(0))).unwrap();
    assert!(native_pointer_is_null(&PointerArgument::Pointer(null)).unwrap());
    let combine = |operation, text: &str, value| {
        native_pointer_combine(operation, Some(ptr(text)), Some(&number(value))).unwrap()
    };
    assert!(equals(combine(BitOperation::And, "0xff", 0x0f), ptr("0xf")));
    assert!(equals(combine(BitOperation::Or, "0xf0", 0x0f), ptr("0xff")));
    assert!(equals(combine(BitOperation::Xor, "0xff", 0x0f), ptr("0xf0")));
    assert!(equals(
        native_pointer_shift(Some(ptr("0x1")), Some(&number(4)), true).unwrap(),
        ptr("0x10")
    ));
    assert!(equals(
        native_pointer_shift(Some(ptr("0x10")), Some(&number(4)), false).unwrap(),
        ptr("0x1")
    ));
    assert_eq!(
        native_pointer_compare(
            &PointerArgument::Pointer(ptr("0x20")),
            Some(&PointerArgument::Pointer(ptr("0x10")))
        )
        .unwrap(),
        1
    );
    assert_eq!(
        native_pointer_to_string(
            &PointerArgument::Pointer(ptr("0xff")),
            RadixArgument::Number(10)
        )
        .unwrap(),
        "255"
    );
    let pattern = native_pointer_to_match_pattern(&PointerArgument::Pointer(block)).unwrap();
    assert_eq!(pattern, "00 50 00 00 00 00 00 00");
    assert!(MatchPattern::parse(&pattern).unwrap().matches(&block.addr.to_le_bytes()));

    assert!(memory.read(ptr("0x1").addr, 1).is_err());
}

#[test]
fn stopped_scans_read_no_more() {
    let mut jobs = ScanJobs::new();
    let first = jobs.register_job(1);
    let cursor = ScanCursor::new(0x1000, 16, MatchPattern::parse("01 02").unwrap());
    assert_eq!(next_scan_request(&jobs, first, &cursor).unwrap().length, 16);
    cut_memory_scans(&mut jobs);
    let second = jobs.register_job(1);
    assert!(next_scan_request(&jobs, first, &cursor).is_none());
    assert!(next_scan_request(&jobs, second, &cursor).is_some());
}

#[test]
fn patches_end_with_the_old_protection() {
    let range = page_range(0x1ffe, 4, 0x1000).unwrap();
    let end = patch_applied(range, PROT_READ | PROT_EXEC, 0x1ffe, 4);
    assert_eq!((end.range.start, end.range.length), (0x1000, 0x2000));
    assert_eq!(end.protection, PROT_READ | PROT_EXEC);
    assert_eq!((end.flush_start, end.flush_size), (0x1ffe, 4));
}

#[test]
fn ranges_past_the_end_of_memory_hold_no_pointers() {
    let mut values = HashSet::new();
    values.insert(0u64);
    let range = Range { base: u64::MAX - 100, size: 200 };
    let mut matches = Vec::new();
    find_in_range(&range, 4096, &[], &vec![true, true], &values, u64::MAX, &mut matches);
    assert!(matches.is_empty());
    assert!(PointerSearch::new(u64::MAX - 100, 200, 4096, u64::MAX).next_request().is_none());
    let long = PointerSearch::new(u64::MAX - 70_000, 70_010, 4096, u64::MAX);
    assert_eq!(long.next_request().unwrap().length, 65_536);
}
