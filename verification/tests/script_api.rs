use rustfrida::agent::{
    android_log_write, panic_report, wrap_dlsym, BootstrapFunction, PanicLocation,
};
use rustfrida::bytes::{push_le, read_le};
use rustfrida::communication::{
    is_cmd_frame, is_qbdi_helper_frame, message_payload, send_script_message, split_message_frame, write_frame, LogCache,
    FRAME_KIND_CMD, FRAME_KIND_LOG, FRAME_KIND_SEND,
};
use rustfrida::debug_symbols::{
    c_string, collect_api_match, debug_symbol_from_address, debug_symbol_from_name,
    debug_symbol_get_function_by_name, debug_symbol_load, enumerate_module_api_matches,
    find_function, function_array, is_offset_placeholder, module_query, symbols_loaded,
    DebugSymbolDetails, FoundFunction, LinkerSymbol, NamedFunction, ResolvedSymbol,
};
use rustfrida::diagnostics::{
    backend_or_throw, backtrace, backtracer_kind, install_quickjs_backend,
    js_debug_symbol_from_address, js_instruction_parse, js_thread_backtrace, parse_cpu_context,
    return_addresses, string_argument, text_query, unreadable_instruction, BacktracerKind,
    ContextArgument, ContextRegisters, DiagnosticsBackend, DiagnosticsSlot, NumberArgument,
    TextArgument,
};
use rustfrida::engine::{CallProbeDetails, Gum, Insn, ModuleRegistryObserver, Stalker};
use rustfrida::events::NativePointer;
use rustfrida::instructions::{
    access_name, decoder_ready, parse_instruction, parse_operand, shift_name, vas_name,
    Arrangement, DecodedInstruction, DecodedOperand, DecodedRegister, DecodedValue, DecoderSetup,
    Extender, InstructionDetail, InstructionOperandValue, Shifter,
};
use rustfrida::memory_access::{MemoryAccessError, MemoryOperation};
use rustfrida::messaging::{
    clear_message_sink, install_message_sink, post_message, register_messaging_api, send_outcome,
    DataArgument, DispatchOutcome, Messaging,
};
use rustfrida::modules::ProcessThreadDetails;
use rustfrida::process::{ProcessRangeRecord, ProcessThread};
use rustfrida::script::{ErrorKind, ScriptError};
use rustfrida::script_value::{
    api_matches_to_js, debug_symbol_to_js, instruction_operand_to_js, instruction_to_js,
    js_u64_value, pointer_array_to_js, process_range_to_js, process_thread_to_js,
    thread_details_to_js, Field, ScriptValue,
};
use rustfrida::sorting::stable_sort;
use rustfrida::text::{
    begins_with, chars_of, lines_of, numeral_text, parse_u64, push_zero_padded, text_of, trim,
};

#[test]
fn numerals_read_back() {
    for value in [0, 9, 10, 255, u64::MAX] {
        for radix in [2, 10, 16] {
            let text = numeral_text(value, radix);
            assert_eq!(parse_u64(&chars_of(&text), radix), Some(value));
        }
    }
    assert_eq!(numeral_text(255, 16), "ff");
    assert_eq!(parse_u64(&chars_of("+5"), 10), Some(5));
    assert_eq!(parse_u64(&chars_of(""), 10), None);
    assert_eq!(parse_u64(&chars_of("18446744073709551616"), 10), None);
    let mut padded = String::new();
    push_zero_padded(&mut padded, 5, 16, 2);
    assert_eq!(padded, "05");
}

#[test]
fn texts_are_trimmed_and_split() {
    assert_eq!(text_of(&trim(&chars_of(" \t a b \u{a0}\n"))), "a b");
    let lines: Vec<String> =
        lines_of(&chars_of("a\r\nb\n\nc\r")).iter().map(|line| text_of(line)).collect();
    assert_eq!(lines, "a\r\nb\n\nc\r".lines().collect::<Vec<_>>());
    assert!(begins_with(&chars_of("State: R"), "State:"));
    assert!(!begins_with(&chars_of("Stat"), "State:"));
}

#[test]
fn bytes_read_back() {
    let mut bytes = vec![9];
    push_le(&mut bytes, 0x1234_5678, 4);
    assert_eq!(bytes, vec![9, 0x78, 0x56, 0x34, 0x12]);
    assert_eq!(read_le(&bytes, 1, 4), 0x1234_5678);
}

#[test]
fn sorting_orders_and_keeps_everything() {
    assert_eq!(stable_sort(vec![3u64, 1, 2, 1]), vec![1, 1, 2, 3]);
}

#[test]
fn frames_carry_messages_with_data() {
    let frame = write_frame(FRAME_KIND_LOG, b"hi");
    assert_eq!(frame[0], FRAME_KIND_LOG);
    assert!(frame.ends_with(b"hi"));
    assert!(is_cmd_frame(FRAME_KIND_CMD));
    assert!(!is_qbdi_helper_frame(FRAME_KIND_CMD));
    let payload = message_payload("{\"a\":1}", Some(&[1, 2]));
    let split = split_message_frame(&payload).unwrap();
    assert_eq!(split.json, "{\"a\":1}");
    assert_eq!(split.data, Some(vec![1, 2]));
    let frame = send_script_message(true, "{}", None).unwrap();
    assert_eq!(frame[0], FRAME_KIND_SEND);
    assert!(send_script_message(false, "{}", None).is_err());
    assert!(split_message_frame(&[1]).is_none());
}

#[test]
fn log_lines_wait_for_a_connection() {
    let mut cache = LogCache::new();
    assert!(cache.log_msg(false, "first").is_none());
    assert_eq!(cache.flush_cached_logs(true).len(), 1);
    assert!(cache.log_msg(true, "second").unwrap().ends_with(b"second"));
}

#[test]
fn messages_wait_until_a_script_accepts_them() {
    let mut messaging = Messaging::new();
    assert_eq!(post_message(&mut messaging, "{}".to_string(), None), None);
    assert_eq!(messaging.pending_message_count(), 0);
    register_messaging_api(&mut messaging, 7);
    assert_eq!(post_message(&mut messaging, "1".to_string(), None), Some(7));
    assert_eq!(post_message(&mut messaging, "2".to_string(), Some(vec![5])), Some(7));
    let first = messaging.next_delivery().unwrap();
    assert_eq!(first.json, "1");
    assert!(!messaging.delivered(first, DispatchOutcome::NoReceiver));
    let again = messaging.next_delivery().unwrap();
    assert_eq!(again.json, "1");
    assert!(messaging.delivered(again, DispatchOutcome::Accepted));
    let second = messaging.next_delivery().unwrap();
    assert_eq!((second.json.as_str(), second.data), ("2", Some(vec![5])));
    assert!(messaging.next_delivery().is_none());
    let _ = post_message(&mut messaging, "3".to_string(), None);
    clear_message_sink(&mut messaging);
    assert_eq!(messaging.pending_message_count(), 0);
    assert_eq!(post_message(&mut messaging, "4".to_string(), None), None);
}

#[test]
fn sending_needs_a_message_and_a_transport() {
    let mut messaging = Messaging::new();
    let error = |result: Result<_, rustfrida::script::ScriptError>| -> String {
        let failure: Option<rustfrida::script::ScriptError> =
            result.map(|_: rustfrida::messaging::SendRequest| ()).err();
        failure.unwrap().message
    };
    let json = || Some("{}".to_string());
    assert_eq!(
        error(messaging.js_send(0, None, DataArgument::Absent)),
        "send() requires a message"
    );
    assert_eq!(
        error(messaging.js_send(1, None, DataArgument::Absent)),
        "send() message must be a string"
    );
    assert_eq!(
        error(messaging.js_send(1, json(), DataArgument::Absent)),
        "send() has no transport; the agent did not install one"
    );
    install_message_sink(&mut messaging, 9);
    let request = messaging.js_send(2, json(), DataArgument::Bytes(vec![1])).unwrap();
    assert_eq!((request.sink, request.data), (9, Some(vec![1])));
    assert_eq!(send_outcome(Err("gone".to_string())).unwrap_err().message, "send(): gone");
    assert!(send_outcome(Ok(())).is_ok());
}

fn linker(symbol: Option<&str>, module: Option<&str>) -> LinkerSymbol {
    LinkerSymbol {
        symbol: symbol.map(str::to_string),
        module: module.map(str::to_string),
    }
}

fn resolved(name: &str, module: &str) -> ResolvedSymbol {
    ResolvedSymbol {
        address: 0x4000,
        symbol_name: name.to_string(),
        module_name: module.to_string(),
        file_name: String::new(),
        line_number: 3,
        column: 4,
    }
}

#[test]
fn symbols_come_from_debug_information_or_the_linker() {
    let both = debug_symbol_from_address(
        0x4010,
        linker(Some("open"), Some("libc.so")),
        Some(resolved("0x10", "")),
    );
    assert_eq!(
        both,
        DebugSymbolDetails {
            address: 0x4000,
            name: Some("open".to_string()),
            module_name: Some("libc.so".to_string()),
            file_name: None,
            line_number: Some(3),
            column: Some(4),
        }
    );
    let named = debug_symbol_from_address(
        0x4010,
        linker(Some("open"), None),
        Some(resolved("openat", "libx.so")),
    );
    assert_eq!(named.name.as_deref(), Some("openat"));
    let linked = debug_symbol_from_address(0x4010, linker(Some("open"), None), None);
    assert_eq!((linked.address, linked.name.as_deref()), (0x4010, Some("open")));
    let unknown = debug_symbol_from_address(0x4010, linker(None, Some("libc.so")), None);
    assert_eq!((unknown.address, unknown.module_name), (0x4010, None));
    assert!(is_offset_placeholder("0x1aF"));
    assert!(!is_offset_placeholder("0x"));
    assert!(!is_offset_placeholder("0xg"));
    assert_eq!(debug_symbol_from_name(None), DebugSymbolDetails::default());
}

#[test]
fn functions_come_from_both_sources_in_order() {
    let found = [
        FoundFunction { address: 0x30, mapped: true },
        FoundFunction { address: 0x10, mapped: false },
    ];
    assert_eq!(function_array("open", &found, &[0x20, 0x30]), vec![0x20, 0x30]);
    assert!(function_array("o\0", &found, &[0x20]).is_empty());
    let functions = [
        NamedFunction { address: 1, name: Some("open64".to_string()) },
        NamedFunction { address: 2, name: Some("open".to_string()) },
    ];
    assert_eq!(find_function("open", &functions), Some(2));
    assert_eq!(find_function("close", &functions), Some(1));
    assert_eq!(find_function("open", &[]), None);
    assert_eq!(
        debug_symbol_get_function_by_name("open", &[]).unwrap_err(),
        "unable to find function with name 'open'"
    );
    assert_eq!(debug_symbol_get_function_by_name("open", &functions), Ok(2));
}

#[test]
fn texts_for_the_engine_hold_no_nul() {
    assert_eq!(c_string("a", "x").unwrap(), "a\0");
    assert_eq!(c_string("a\0b", "x").unwrap_err(), "x contains a NUL byte");
    assert_eq!(debug_symbol_load("\0").unwrap_err(), "symbol path contains a NUL byte");
    assert_eq!(symbols_loaded(false).unwrap_err(), "unable to load symbols");
    assert_eq!(
        module_query(0, "q").unwrap_err(),
        "the module ApiResolver is not available"
    );
    assert_eq!(
        module_query(1, "\0").unwrap_err(),
        "ApiResolver query contains a NUL byte"
    );
    assert_eq!(module_query(1, "q").unwrap(), "q\0");
}

#[test]
fn queries_list_what_they_found() {
    let mut matches = Vec::new();
    collect_api_match(&mut matches, "a".to_string(), 1, 5);
    collect_api_match(&mut matches, "b".to_string(), 2, -1);
    collect_api_match(&mut matches, "c".to_string(), 3, 1 << 32);
    assert_eq!(
        matches.iter().map(|found| found.size).collect::<Vec<_>>(),
        vec![Some(5), None, None]
    );
    let found = enumerate_module_api_matches(matches, None).unwrap();
    match api_matches_to_js(found) {
        ScriptValue::List(items) => assert_eq!(items.len(), 3),
        other => panic!("{other:?}"),
    }
    assert_eq!(
        enumerate_module_api_matches(vec![], Some(String::new())).unwrap_err(),
        "invalid module query"
    );
    assert_eq!(
        enumerate_module_api_matches(vec![], Some("bad".to_string())).unwrap_err(),
        "bad"
    );
}

fn backend() -> DiagnosticsBackend {
    DiagnosticsBackend {
        debug_symbol_from_address: 1,
        debug_symbol_from_name: 2,
        debug_symbol_get_function_by_name: 3,
        debug_symbol_find_functions_named: 4,
        debug_symbol_find_functions_matching: 5,
        debug_symbol_load: 6,
        backtrace: 7,
        parse_instruction: 8,
        enumerate_module_api_matches: 9,
    }
}

#[test]
fn call_stacks_are_walked_as_asked() {
    let mut slot = DiagnosticsSlot { backend: None };
    assert_eq!(
        backend_or_throw(&slot).unwrap_err().message,
        "diagnostics backend is not available"
    );
    install_quickjs_backend(&mut slot, backend());
    let ask = |kind, limit| js_thread_backtrace(&slot, kind, limit);
    let query = ask(NumberArgument::Missing, NumberArgument::Missing).unwrap();
    assert_eq!((query.kind, query.limit), (1, 0));
    assert_eq!(
        ask(NumberArgument::Signed(3), NumberArgument::Missing).unwrap_err().message,
        "invalid backtracer enum value"
    );
    assert_eq!(
        ask(NumberArgument::Signed(2), NumberArgument::Other).unwrap_err().message,
        "backtrace limit must be an unsigned integer"
    );
    assert_eq!(backtracer_kind(2), Ok(BacktracerKind::Fuzzy));
    assert_eq!(backtracer_kind(9).unwrap_err(), "invalid backtracer enum value");
    assert_eq!(backtrace(BacktracerKind::Accurate, true, 0), Ok(None));
    assert_eq!(backtrace(BacktracerKind::Accurate, true, 5), Ok(Some(5)));
    assert_eq!(backtrace(BacktracerKind::Accurate, true, 99), Ok(Some(16)));
    assert_eq!(
        backtrace(BacktracerKind::Accurate, false, 0).unwrap_err(),
        "backtracer not yet available for this platform; please try Thread.backtrace(context, Backtracer.FUZZY)"
    );
    assert_eq!(return_addresses(&[1, 2, 3], 2), vec![1, 2]);
    assert_eq!(return_addresses(&[1, 2, 3], 9), vec![1, 2, 3]);
}

#[test]
fn thread_registers_come_from_an_object() {
    assert!(parse_cpu_context(&ContextArgument::Absent).unwrap().is_none());
    assert_eq!(
        parse_cpu_context(&ContextArgument::Other).unwrap_err().message,
        "cpuContext must be an object or null"
    );
    let mut x = [None; 31];
    x[3] = Some(33);
    x[29] = Some(290);
    x[30] = Some(300);
    let registers = ContextRegisters { pc: Some(1), sp: None, nzcv: None, x, fp: None, lr: Some(5) };
    let context =
        parse_cpu_context(&ContextArgument::Registers(registers)).unwrap().unwrap();
    assert_eq!((context.pc, context.sp, context.x[3]), (1, 0, 33));
    assert_eq!((context.fp, context.lr), (290, 5));
}

#[test]
fn string_arguments_are_checked() {
    assert_eq!(string_argument(TextArgument::Text("a".to_string()), "name").unwrap(), "a");
    assert_eq!(
        string_argument(TextArgument::Missing, "name").unwrap_err().message,
        "name is required"
    );
    assert_eq!(
        string_argument(TextArgument::Other, "name").unwrap_err().message,
        "name must be a string"
    );
    assert_eq!(
        string_argument(TextArgument::Unreadable, "name").unwrap_err().message,
        "failed to read name"
    );
    let error =
        MemoryAccessError { operation: MemoryOperation::Read, address: 1, size: 4, errno: 14 };
    let failure = unreadable_instruction(1, &error);
    assert_eq!(failure.kind, ErrorKind::InternalError);
    assert_eq!(
        failure.message,
        "unable to read instruction at 0x1: memory read failed at 0x1 (size 4, errno 14)"
    );
}

fn register(number: u32, name: &str) -> DecodedRegister {
    DecodedRegister { number, name: name.to_string() }
}

fn operand(value: DecodedValue) -> DecodedOperand {
    DecodedOperand {
        value,
        shifter: Shifter::Other,
        shift_amount: 0,
        extender: Extender::Other,
        arrangement: Arrangement::Other,
        vector_index: -1,
        access: 1,
    }
}

fn names(list: &[&str]) -> Vec<String> {
    list.iter().map(|name| name.to_string()).collect()
}

fn decoded() -> DecodedInstruction {
    DecodedInstruction {
        address: 0x4000,
        size: 4,
        mnemonic: "ldr".to_string(),
        op_str: "x0, [x1]".to_string(),
        detail: Some(InstructionDetail {
            op_count: 2,
            operands: vec![
                operand(DecodedValue::Register(register(1, "x0"))),
                operand(DecodedValue::Other),
                operand(DecodedValue::Immediate(5)),
            ],
            access_error: 0,
            accessed_read_count: 1,
            accessed_read: names(&["x1", "x2"]),
            accessed_written_count: 9,
            accessed_written: names(&["x0"]),
            read_count: 0,
            read: names(&["x9"]),
            written_count: 0,
            written: vec![],
            group_count: 0,
            groups: vec![],
        }),
    }
}

#[test]
fn operands_are_named_by_their_kind() {
    let mut shifted = operand(DecodedValue::Register(register(1, "x0")));
    shifted.shifter = Shifter::Lsl;
    shifted.shift_amount = 3;
    shifted.extender = Extender::Sxtw;
    shifted.arrangement = Arrangement::Bytes16;
    shifted.vector_index = 2;
    shifted.access = 3;
    let parsed = parse_operand(shifted).unwrap();
    assert_eq!(parsed.kind, "reg");
    assert_eq!(parsed.value, InstructionOperandValue::Register("x0".to_string()));
    let shift = parsed.shift.as_ref().unwrap();
    assert_eq!((shift.kind.as_str(), shift.value), ("lsl", 3));
    assert_eq!(parsed.ext.as_deref(), Some("sxtw"));
    assert_eq!(parsed.vas.as_deref(), Some("16b"));
    assert_eq!((parsed.vector_index, parsed.access.as_str()), (Some(2), "rw"));

    let memory = parse_operand(operand(DecodedValue::Memory {
        base: register(2, "x1"),
        index: register(0, ""),
        displacement: -8,
    }))
    .unwrap();
    assert_eq!(memory.kind, "mem");
    match &memory.value {
        InstructionOperandValue::Memory(value) => {
            assert_eq!((value.base.as_deref(), value.index.as_deref()), (Some("x1"), None));
            assert_eq!(value.displacement, -8);
        }
        other => panic!("{other:?}"),
    }
    assert!(parse_operand(operand(DecodedValue::Other)).is_none());
    assert_eq!(shift_name(Shifter::Ror), Some("ror"));
    assert_eq!(vas_name(Arrangement::Quads1).as_deref(), Some("1q"));
    assert_eq!((access_name(2), access_name(0), access_name(8)), ("w", "", ""));
}

#[test]
fn instructions_are_decoded() {
    let details = parse_instruction(0x4000, Some(decoded())).unwrap();
    assert_eq!((details.address, details.next, details.size), (0x4000, 0x4004, 4));
    assert_eq!(details.operands.len(), 1);
    assert_eq!(details.regs_accessed_read, names(&["x1"]));
    assert_eq!(details.regs_accessed_written, names(&["x0"]));
    assert!(details.regs_read.is_empty());
    assert_eq!(parse_instruction(0, None).unwrap_err(), "invalid instruction");
    let mut bare = decoded();
    bare.detail = None;
    assert_eq!(
        parse_instruction(0, Some(bare)).unwrap_err(),
        "ARM64 instruction details are unavailable"
    );
    let mut failing = decoded();
    failing.detail.as_mut().unwrap().access_error = 3;
    assert_eq!(
        parse_instruction(0, Some(failing)).unwrap_err(),
        "unable to compute ARM64 register access: Capstone error 3"
    );
    let last = parse_instruction(u64::MAX - 1, Some(decoded())).unwrap();
    assert_eq!(last.next, 2);
}

#[test]
fn the_decoder_is_closed_again_if_it_is_not_ready() {
    assert!(decoder_ready(DecoderSetup { open: 0, detail: 0 }).is_ok());
    let failure = decoder_ready(DecoderSetup { open: 2, detail: 0 }).unwrap_err();
    assert!(!failure.close);
    assert_eq!(failure.message, "unable to initialize ARM64 disassembler: Capstone error 2");
    let failure = decoder_ready(DecoderSetup { open: 0, detail: 2 }).unwrap_err();
    assert!(failure.close);
    assert_eq!(failure.message, "unable to enable ARM64 instruction details: Capstone error 2");
}

fn fields(value: ScriptValue) -> Vec<Field> {
    match value {
        ScriptValue::Object(fields) => fields,
        other => panic!("{other:?}"),
    }
}

fn field_names(fields: &[Field]) -> Vec<&'static str> {
    fields.iter().map(|field| field.name).collect()
}

#[test]
fn scripts_see_objects_with_the_fields_that_are_there() {
    let symbol = fields(debug_symbol_to_js(DebugSymbolDetails::default()));
    assert_eq!(
        field_names(&symbol),
        vec!["address", "name", "moduleName", "fileName", "lineNumber", "column"]
    );
    assert!(matches!(symbol[0].value, ScriptValue::Pointer(0)));
    assert!(matches!(symbol[1].value, ScriptValue::Null));

    let details = parse_instruction(0x4000, Some(decoded())).unwrap();
    assert_eq!(
        field_names(&fields(instruction_to_js(details))),
        vec![
            "address",
            "next",
            "size",
            "mnemonic",
            "opStr",
            "operands",
            "regsAccessed",
            "regsRead",
            "regsWritten",
            "groups"
        ]
    );
    let immediate = parse_operand(operand(DecodedValue::Immediate(5))).unwrap();
    let shown = fields(instruction_operand_to_js(immediate));
    assert_eq!(field_names(&shown), vec!["type", "value", "access"]);
    assert!(matches!(shown[1].value, ScriptValue::BigInt(5)));

    match pointer_array_to_js(&vec![1, 2]) {
        ScriptValue::List(items) => assert!(matches!(items[1], ScriptValue::Pointer(2))),
        other => panic!("{other:?}"),
    }
    let range = ProcessRangeRecord {
        base: 0x1000,
        size: u64::MAX,
        protection: "r-x".to_string(),
        path: Some("/a".to_string()),
    };
    let shown = fields(process_range_to_js(range));
    assert_eq!(field_names(&shown), vec!["base", "size", "protection", "file"]);
    assert!(matches!(shown[1].value, ScriptValue::Large(u64::MAX)));
    assert!(matches!(js_u64_value(5), ScriptValue::Int64(5)));
    let thread = ProcessThread { tid: 5, name: None, state: "running" };
    assert_eq!(field_names(&fields(process_thread_to_js(thread))), vec!["id", "state"]);
    let thread = ProcessThreadDetails {
        id: 5,
        name: Some("a".to_string()),
        state: "running".to_string(),
    };
    assert_eq!(field_names(&fields(thread_details_to_js(thread))), vec!["id", "name", "state"]);
}

#[test]
fn the_engine_hands_out_values() {
    let mut bytes = [0; 24];
    bytes[..4].copy_from_slice(&[1, 2, 3, 4]);
    let instruction = Insn { address: 0x4000, size: 4, bytes };
    assert_eq!(instruction.len(), 4);
    assert_eq!(instruction.address(), 0x4000);
    assert_eq!(instruction.bytes(), &[1, 2, 3, 4]);
    let gum = Gum { handle: 1 };
    assert_eq!(Stalker::from_raw(&gum, 5).raw_stalker(), 5);
    let call = CallProbeDetails { target: 1, return_to: 2, stack: 3, cpu_context: 4 };
    assert_eq!(call.target_address(), NativePointer(1));
    assert_eq!(call.return_address(), NativePointer(2));
    assert_eq!(call.stack_data(), NativePointer(3));
    assert!(ModuleRegistryObserver::on_removed(&gum, 0, 1).is_none());
    assert!(ModuleRegistryObserver::on_removed(&gum, 1, 0).is_none());
    let mut observer = ModuleRegistryObserver::on_removed(&gum, 1, 7).unwrap();
    assert_eq!(observer.disconnect(), Some(7));
    assert_eq!(observer.disconnect(), None);
}

#[test]
fn the_agent_answers_for_the_engine() {
    assert_eq!(wrap_dlsym(Some(b"exit")), Some(BootstrapFunction::Exit));
    assert_eq!(wrap_dlsym(Some(b"open")), Some(BootstrapFunction::Open));
    assert_eq!(wrap_dlsym(Some(b"dl_iterate_phdr")), Some(BootstrapFunction::IterateModules));
    assert_eq!(wrap_dlsym(Some(b"openat")), None);
    assert_eq!(wrap_dlsym(None), None);
    assert_eq!(android_log_write(Some(b"hi")), (b"hi\n".to_vec(), 1));
    assert_eq!(android_log_write(None), (vec![], -1));
    let location = PanicLocation { file: "a.rs".to_string(), line: 3, column: 5 };
    assert_eq!(
        panic_report(Some(location), None, 10, 11, "trace"),
        "\n\n=== RUST PANIC ===\nLocation: a.rs:3:5\nMessage: unknown panic\nPID: 10, TID: 11\n\nBacktrace:\ntrace\n=================\n\n"
    );
}

#[test]
fn questions_are_checked_in_their_order() {
    let mut slot = DiagnosticsSlot { backend: None };
    let missing = "diagnostics backend is not available";
    let name = || TextArgument::Text("open".to_string());
    assert_eq!(
        text_query(&slot, TextArgument::Missing, "name").unwrap_err().message,
        "name is required"
    );
    assert_eq!(text_query(&slot, name(), "name").unwrap_err().message, missing);
    assert_eq!(
        js_debug_symbol_from_address(&slot, 0, Ok(1)).unwrap_err().message,
        "address is required"
    );
    assert_eq!(js_debug_symbol_from_address(&slot, 1, Ok(1)).unwrap_err().message, missing);
    let unreadable =
        MemoryAccessError { operation: MemoryOperation::Read, address: 1, size: 4, errno: 14 };
    assert_eq!(
        js_instruction_parse(&slot, 0, Ok(1), Ok(())).unwrap_err().message,
        "address is required"
    );
    assert_eq!(
        js_instruction_parse(&slot, 1, Ok(1), Err(unreadable)).unwrap_err().message,
        "unable to read instruction at 0x1: memory read failed at 0x1 (size 4, errno 14)"
    );
    assert_eq!(js_instruction_parse(&slot, 1, Ok(1), Ok(())).unwrap_err().message, missing);

    install_quickjs_backend(&mut slot, backend());
    let query = text_query(&slot, name(), "name").unwrap();
    assert_eq!((query.text.as_str(), query.backend.debug_symbol_load), ("open", 6));
    assert_eq!(js_debug_symbol_from_address(&slot, 1, Ok(9)).unwrap().address, 9);
    assert_eq!(js_instruction_parse(&slot, 1, Ok(9), Ok(())).unwrap().address, 9);
    let refused = ScriptError { kind: ErrorKind::TypeError, message: "refused".to_string() };
    assert_eq!(
        js_instruction_parse(&slot, 1, Err(refused), Ok(())).unwrap_err().message,
        "refused"
    );
}

#[test]
fn white_space_is_trimmed() {
    let mut spaces = Vec::new();
    for code in 0..=0x10ffffu32 {
        if let Some(c) = char::from_u32(code) {
            if trim(&[c]).is_empty() {
                spaces.push(code);
            }
        }
    }
    let mut expected = vec![9, 10, 11, 12, 13, 0x20, 0x85, 0xa0, 0x1680];
    expected.extend(0x2000..=0x200a);
    expected.extend([0x2028, 0x2029, 0x202f, 0x205f, 0x3000]);
    assert_eq!(spaces, expected);
    assert_eq!(trim(&[' ', 'a', ' ', 'b', '\u{3000}']), ['a', ' ', 'b']);
}
