use rustfrida::callback_calls::{
    allocate_callback_closure, allocate_thunk, entry_allocated, invoke_native_callback,
    js_native_callback_construct, native_callback_dispatch, native_callback_ffi_dispatch,
    object_created, CallPhase, ClosureAllocation, MappedEntry, ThunkAllocation,
};
use rustfrida::native_callback::{
    argument_value, construct_signature, parse_signature, plan_arguments, raw_argument,
    scalar_kind, thunk_bytes, validate_abi, AbiArgument, ArgumentLocation, ArgumentPlan,
    NativeCallbackData, NativeCallbackFrame, NativeCallbackRegistry, NativeValue, ScalarKind,
};
use rustfrida::native_ffi::{
    aligned_words, call_options, call_outcome, js_native_ffi_call, js_native_ffi_prepare,
    operation_name, own_interface_prepared, parse_type, read_value, scalar_type, structure_type,
    write_value, CallOutcome, FfiCif, FfiType, FfiValue, NativeFfiException, NativeFfiSignature,
    ScalarType, TypePlan, FFI_CLOSURE_SIZE_ARM64, FFI_TYPE_STRUCT,
};
use rustfrida::script::{ErrorKind, ScriptError, ScriptType};

#[test]
fn plans_integer_and_floating_registers_independently() {
    let kinds = [
        ScalarKind::Signed { size: 4 },
        ScalarKind::Double,
        ScalarKind::Pointer,
        ScalarKind::Float,
    ];
    let plan = plan_arguments(&kinds);
    assert_eq!(plan[0].location, ArgumentLocation::Gpr(0));
    assert_eq!(plan[1].location, ArgumentLocation::Fpr(0));
    assert_eq!(plan[2].location, ArgumentLocation::Gpr(1));
    assert_eq!(plan[3].location, ArgumentLocation::Fpr(1));
}

#[test]
fn spills_each_exhausted_register_class_in_declaration_order() {
    let mut kinds = vec![ScalarKind::Unsigned { size: 8 }; 9];
    kinds.extend(std::iter::repeat(ScalarKind::Double).take(9));
    let plan = plan_arguments(&kinds);
    assert_eq!(plan[8].location, ArgumentLocation::Stack(0));
    assert_eq!(plan[17].location, ArgumentLocation::Stack(1));
}

#[test]
fn rejects_void_arguments_and_unknown_types() {
    assert!(scalar_kind("void", false).is_err());
    assert!(scalar_kind("int", false).is_ok());
    assert!(scalar_kind("vector", false).is_err());
}

#[test]
fn ffi_layout_matches_android_arm64_libffi() {
    assert_eq!(std::mem::size_of::<FfiType>(), 24);
    assert_eq!(std::mem::size_of::<FfiCif>(), 32);
    assert_eq!(FFI_CLOSURE_SIZE_ARM64, 48);
}

#[test]
fn scalar_names_match_gumjs() {
    assert_eq!(scalar_type("bool", false), Ok(ScalarType::Bool));
    assert_eq!(scalar_type("size_t", false), Ok(ScalarType::Unsigned(8)));
    assert_eq!(scalar_type("double", false), Ok(ScalarType::Double));
    assert!(scalar_type("void", false).is_err());
}

fn name(text: &str) -> ScriptType {
    ScriptType::Name(text.to_string())
}

#[test]
fn argument_places_are_never_shared() {
    let kinds = vec![ScalarKind::Pointer; 12];
    let plan = plan_arguments(&kinds);
    for (i, left) in plan.iter().enumerate() {
        for right in &plan[i + 1..] {
            assert_ne!(left.location, right.location);
        }
    }
}

#[test]
fn callback_signatures_are_checked() {
    let signature =
        parse_signature(&name("int"), &ScriptType::List(vec![name("pointer")])).unwrap();
    assert_eq!(signature.return_kind, ScalarKind::Signed { size: 4 });
    assert_eq!(signature.arguments.len(), 1);
    assert_eq!(
        parse_signature(&name("int"), &ScriptType::Opaque).unwrap_err().message,
        "NativeCallback: argument types must be an array"
    );
    assert_eq!(
        parse_signature(&ScriptType::List(vec![]), &ScriptType::List(vec![]))
            .unwrap_err()
            .message,
        "NativeCallback: struct-by-value types are not implemented yet"
    );
    let many = (0..257).map(|_| name("int")).collect();
    assert_eq!(
        parse_signature(&name("int"), &ScriptType::List(many)).unwrap_err().message,
        "NativeCallback: too many arguments"
    );
}

#[test]
fn callbacks_need_a_function_and_a_known_abi() {
    let none = ScriptType::List(vec![]);
    assert_eq!(
        construct_signature(2, true, &AbiArgument::Unspecified, &name("void"), &none)
            .unwrap_err()
            .message,
        "NativeCallback requires function, return type, and argument types"
    );
    assert_eq!(
        construct_signature(3, false, &AbiArgument::Unspecified, &name("void"), &none)
            .unwrap_err()
            .message,
        "NativeCallback: first argument must be a function"
    );
    assert_eq!(
        validate_abi(&AbiArgument::Name("stdcall".to_string())).unwrap_err().message,
        "NativeCallback: unsupported ABI on ARM64 Android"
    );
    assert_eq!(
        validate_abi(&AbiArgument::Opaque).unwrap_err().message,
        "NativeCallback: ABI must be a string"
    );
    assert!(validate_abi(&AbiArgument::Name("default".to_string())).is_ok());
    assert!(construct_signature(3, true, &AbiArgument::Unspecified, &name("void"), &none).is_ok());
}

fn frame() -> NativeCallbackFrame {
    NativeCallbackFrame {
        gpr: [10, 11, 12, 13, 14, 15, 16, 17],
        fpr: [20, 21, 22, 23, 24, 25, 26, 27],
        caller_sp: 0,
        return_address: 0,
        result_gpr: 0,
        result_fpr: 0,
    }
}

#[test]
fn arguments_come_from_their_places() {
    let place = |location| ArgumentPlan { kind: ScalarKind::Pointer, location };
    let stack = [30, 31];
    assert_eq!(raw_argument(&frame(), &stack, place(ArgumentLocation::Gpr(2))), 12);
    assert_eq!(raw_argument(&frame(), &stack, place(ArgumentLocation::Fpr(3))), 23);
    assert_eq!(raw_argument(&frame(), &stack, place(ArgumentLocation::Stack(1))), 31);
    assert_eq!(
        argument_value(0xffff_ffff, ScalarKind::Signed { size: 4 }),
        NativeValue::Small(-1)
    );
    assert_eq!(argument_value(5, ScalarKind::Pointer), NativeValue::Pointer(5));
}

#[test]
fn results_go_to_the_register_of_their_class() {
    let mut integer = frame();
    integer.store_result(ScalarKind::Pointer, 77);
    assert_eq!(integer.result_gpr, 77);
    let mut floating = frame();
    floating.store_result(ScalarKind::Double, 78);
    assert_eq!(floating.result_fpr, 78);
}

#[test]
fn thunks_load_their_data_and_jump() {
    let code = thunk_bytes(0x1122_3344_5566_7788, 0x99aa_bbcc_ddee_ff00);
    let data = 0x1122_3344_5566_7788u64.to_le_bytes();
    let entry = 0x99aa_bbcc_ddee_ff00u64.to_le_bytes();
    assert!(code.windows(8).any(|window| window == data));
    assert!(code.windows(8).any(|window| window == entry));
}

fn begun(registry: &mut NativeCallbackRegistry) -> NativeCallbackData {
    js_native_callback_construct(
        registry,
        3,
        true,
        &AbiArgument::Unspecified,
        &name("void"),
        &ScriptType::List(vec![]),
        1,
        2,
    )
    .unwrap()
}

#[test]
fn cut_callbacks_no_longer_run() {
    let mut registry = NativeCallbackRegistry::new();
    let data = begun(&mut registry);
    let entry = MappedEntry { start: 0x7000, size: 0x1000 };
    let data = entry_allocated(data, Ok(entry)).unwrap();
    let id = object_created(&mut registry, data, true).unwrap();
    assert_eq!(registry.native_callback_address(id), Some(0x7000));
    let mut call = invoke_native_callback(&registry.live[0]).unwrap();
    assert_eq!((call.id, call.context, call.callback), (id, 1, 2));
    registry.cut_native_callbacks();
    call.engine_entered(true);
    call.run(registry.live[0].active, 5);
    assert_eq!(call.phase, CallPhase::Finished);
    assert!(invoke_native_callback(&registry.live[0]).is_none());
    let released = registry.free_native_callbacks();
    assert_eq!(released.len(), 1);
    assert_eq!((released[0].context, released[0].callback), (1, 2));
    assert_eq!(registry.native_callback_address(id), None);
    assert_eq!(registry.retired[0].thunk, 0x7000);
}

#[test]
fn callbacks_keep_the_error_number_of_their_thread() {
    let mut registry = NativeCallbackRegistry::new();
    let data = begun(&mut registry);
    let begin = || {
        let mut call = invoke_native_callback(&data).unwrap();
        call.engine_entered(true);
        call.run(true, 5);
        assert_eq!(call.phase, CallPhase::Running);
        call
    };
    let mut call = begin();
    assert_eq!(call.returned(true), Some(5));
    assert_eq!(call.phase, CallPhase::Finished);
    let mut call = begin();
    assert_eq!(call.returned(false), None);
    assert_eq!(call.stored(true, Some(9)), 9);
    for (stored, left) in [(false, Some(9)), (true, None)] {
        let mut call = begin();
        assert_eq!(call.returned(false), None);
        assert_eq!(call.stored(stored, left), 5);
    }
    let mut call = invoke_native_callback(&data).unwrap();
    call.engine_entered(false);
    assert_eq!(call.phase, CallPhase::Finished);
}

#[test]
fn unfinished_callbacks_are_undone() {
    let mut registry = NativeCallbackRegistry::new();
    assert!(js_native_callback_construct(
        &mut registry,
        2,
        true,
        &AbiArgument::Unspecified,
        &name("void"),
        &ScriptType::List(vec![]),
        1,
        2,
    )
    .is_err());
    assert_eq!(registry.next_id, 1);

    let data = begun(&mut registry);
    let failure = entry_allocated(data, Err("mmap failed: out of memory".to_string())).unwrap_err();
    assert_eq!(failure.error.message, "NativeCallback: mmap failed: out of memory");
    assert_eq!(failure.error.kind, ErrorKind::InternalError);
    assert_eq!(failure.destroyed.released.map(|held| held.callback), Some(2));
    assert_eq!(failure.destroyed.unmapped, None);

    let entry = MappedEntry { start: 0x7000, size: 0x1000 };
    let data = entry_allocated(begun(&mut registry), Ok(entry)).unwrap();
    let destroyed = object_created(&mut registry, data, false).unwrap_err();
    assert_eq!(destroyed.released.map(|held| held.callback), Some(2));
    assert_eq!(destroyed.unmapped, Some(entry));
    assert!(registry.live.is_empty());
    assert_eq!(registry.next_id, 3);
}

#[test]
fn pages_of_entries_are_given_back_on_failure() {
    match allocate_thunk(-1) {
        ThunkAllocation::Failed { reason } => assert_eq!(reason, "unable to query page size"),
        other => panic!("{other:?}"),
    }
    match allocate_thunk(4096).advance(Err("out of memory".to_string())) {
        ThunkAllocation::Failed { reason } => assert_eq!(reason, "mmap failed: out of memory"),
        other => panic!("{other:?}"),
    }
    let mapped = allocate_thunk(4096).advance(Ok(0x7000));
    assert!(matches!(mapped, ThunkAllocation::Protecting { start: 0x7000, size: 4096 }));
    let refused = mapped.advance(Err("denied".to_string()));
    assert!(matches!(refused, ThunkAllocation::Unmapping { start: 0x7000, size: 4096, .. }));
    match refused.advance(Ok(0)) {
        ThunkAllocation::Failed { reason } => assert_eq!(reason, "mprotect RX failed: denied"),
        other => panic!("{other:?}"),
    }
    assert!(matches!(
        allocate_thunk(4096).advance(Ok(0x7000)).advance(Ok(0)),
        ThunkAllocation::Ready { start: 0x7000, size: 4096 }
    ));
}

#[test]
fn callbacks_take_their_arguments_from_their_places() {
    let mut frame = NativeCallbackFrame {
        gpr: [0; 8],
        fpr: [0; 8],
        caller_sp: 0,
        return_address: 0,
        result_gpr: 0,
        result_fpr: 0,
    };
    frame.gpr[0] = 0xffff_ffff;
    frame.fpr[0] = 3;
    let plans = plan_arguments(&[ScalarKind::Signed { size: 4 }, ScalarKind::Double]);
    assert_eq!(
        native_callback_dispatch(&frame, &[], &plans),
        [NativeValue::Small(-1), NativeValue::DoubleBits(3)]
    );

    let types = ScriptType::List(vec![name("int"), name("pointer")]);
    let signature = NativeFfiSignature::parse_callback(&name("int"), &types, true).unwrap();
    let arguments = vec![vec![0xfe, 0xff, 0xff, 0xff], vec![1, 0, 0, 0, 0, 0, 0, 0]];
    let dispatch = native_callback_ffi_dispatch(&signature, &arguments);
    assert_eq!(dispatch.result, [0; 4]);
    assert!(matches!(dispatch.arguments[0], FfiValue::Integer(-2)));
    assert!(matches!(dispatch.arguments[1], FfiValue::Address(1)));
}

#[test]
fn structures_are_laid_out_by_their_fields() {
    let plan = parse_type(&ScriptType::List(vec![name("char"), name("int")]), false).unwrap();
    assert_eq!((plan.size(), plan.alignment()), (8, 4));
    let bytes = write_value(
        &plan,
        &FfiValue::List(vec![FfiValue::Integer(1), FfiValue::Integer(-1)]),
    )
    .unwrap();
    assert_eq!(bytes, vec![1, 0, 0, 0, 0xff, 0xff, 0xff, 0xff]);
    match read_value(&plan, &bytes) {
        FfiValue::List(values) => {
            assert!(matches!(values[0], FfiValue::Integer(1)));
            assert!(matches!(values[1], FfiValue::Integer(-1)));
        }
        other => panic!("{other:?}"),
    }
}

#[test]
fn values_have_to_fit_their_types() {
    let integer = TypePlan::Scalar(ScalarType::Signed(4));
    assert_eq!(
        write_value(&integer, &FfiValue::Undefined).unwrap_err().message,
        "native integer argument expected"
    );
    let pair = parse_type(&ScriptType::List(vec![name("int"), name("int")]), false).unwrap();
    assert_eq!(
        write_value(&pair, &FfiValue::Integer(1)).unwrap_err().message,
        "struct value must be an array"
    );
    assert_eq!(
        write_value(&pair, &FfiValue::List(vec![FfiValue::Integer(1)])).unwrap_err().message,
        "provided array length does not match number of fields"
    );
    assert_eq!(
        parse_type(&ScriptType::Opaque, false).unwrap_err().message,
        "invalid type specified"
    );
}

#[test]
fn variadic_arguments_are_promoted() {
    let float = TypePlan::Scalar(ScalarType::Float).promoted();
    assert!(matches!(float, TypePlan::Scalar(ScalarType::Double)));
    assert!(matches!(float.promoted(), TypePlan::Scalar(ScalarType::Double)));
    let signature = NativeFfiSignature::parse(
        &name("int"),
        &ScriptType::List(vec![name("pointer"), name("..."), name("char")]),
    )
    .unwrap();
    assert!(signature.variadic);
    assert_eq!(signature.fixed_count, 1);
    assert!(matches!(
        signature.plan_for_argument(2),
        TypePlan::Scalar(ScalarType::Signed(4))
    ));
    assert!(signature.check_count(3).is_ok());
    assert_eq!(signature.check_count(0).unwrap_err().message, "bad native argument count");
    assert_eq!(
        NativeFfiSignature::parse_callback(
            &name("int"),
            &ScriptType::List(vec![name("int"), name("..."), name("int")]),
            true
        )
        .unwrap_err()
        .message,
        "NativeCallback does not support variadic signatures"
    );
    assert_eq!(
        NativeFfiSignature::parse_callback(
            &name("int"),
            &ScriptType::List(vec![name("int"), name("..."), name("int")]),
            false
        )
        .unwrap_err()
        .message,
        "failed to compile native call interface"
    );
    assert_eq!(
        NativeFfiSignature::parse(&name("int"), &ScriptType::List(vec![name("int"), name("...")]))
            .unwrap_err()
            .message,
        "variadic signature must provide at least one trailing type"
    );
    assert_eq!(
        NativeFfiSignature::parse(&name("int"), &ScriptType::List(vec![name("...")]))
            .unwrap_err()
            .message,
        "only one variadic marker may be specified, and it cannot be first"
    );
}

#[test]
fn the_interface_is_prepared_once() {
    let plain = ScriptType::List(vec![name("int")]);
    let signature = NativeFfiSignature::parse(&name("void"), &plain).unwrap();
    let interface = signature.interface(0x10, 0x20);
    assert_eq!((interface.nargs, interface.arg_types, interface.return_type), (1, 0x10, 0x20));
    assert!(!signature.needs_own_interface(1));
    assert_eq!(
        signature.prepared(false).unwrap_err().message,
        "failed to compile native call interface"
    );
    assert_eq!(structure_type(0x30).kind, FFI_TYPE_STRUCT);
    assert_eq!(aligned_words(9), 2);
}

#[test]
fn native_exceptions_have_words() {
    let fault = NativeFfiException {
        kind: 0,
        memory_operation: 1,
        address: 0x1000,
        memory_address: 0x10,
    };
    assert!(fault.message().contains("0x1000") || fault.message().contains("0x10"));
    assert!(!fault.kind_name().is_empty());
    assert_eq!(operation_name(1), "read");
    assert_eq!(operation_name(2), "write");
    assert_eq!(operation_name(3), "execute");
    assert_eq!(operation_name(9), "invalid");
    let options = call_options(Some(true), None, None, None);
    assert!(options.capture_system_error);
}

#[test]
fn native_calls_lay_their_arguments_out() {
    assert_eq!(
        js_native_ffi_prepare(1, &name("int"), &ScriptType::List(vec![])).unwrap_err().message,
        "native FFI signature requires return and argument types"
    );
    let types = ScriptType::List(vec![name("int"), name("..."), name("char"), name("pointer")]);
    let signature = js_native_ffi_prepare(2, &name("int"), &types).unwrap();
    let signature = Some(&signature);

    let values = FfiValue::List(vec![FfiValue::Integer(-2)]);
    let call = js_native_ffi_call(7, signature, Ok(0x1000), &values).unwrap();
    assert_eq!(call.address, 0x1000);
    assert_eq!(call.arguments, [vec![0xfe, 0xff, 0xff, 0xff], vec![0; 4], vec![0; 8]]);
    assert!(!call.own_interface);

    let values = FfiValue::List(vec![
        FfiValue::Integer(1),
        FfiValue::Integer(2),
        FfiValue::Address(3),
        FfiValue::Integer(4),
    ]);
    let call = js_native_ffi_call(7, signature, Ok(0x1000), &values).unwrap();
    assert_eq!(call.arguments.len(), 4);
    assert_eq!(call.arguments[2], [3, 0, 0, 0, 0, 0, 0, 0]);
    assert_eq!(call.arguments[3], [4, 0, 0, 0]);
    assert!(call.own_interface);
    assert!(own_interface_prepared(true).is_ok());
    assert_eq!(
        own_interface_prepared(false).unwrap_err().message,
        "failed to compile variadic native call interface"
    );
}

#[test]
fn native_calls_refuse_bad_arguments() {
    let types = ScriptType::List(vec![name("int")]);
    let signature = js_native_ffi_prepare(2, &name("int"), &types).unwrap();
    let signature = Some(&signature);
    let one = FfiValue::List(vec![FfiValue::Integer(1)]);
    let nothing = FfiValue::List(vec![]);
    let odd = FfiValue::List(vec![FfiValue::Undefined]);
    let many = FfiValue::List((0..257).map(|_| FfiValue::Integer(1)).collect());
    let unread = FfiValue::Failed(thrown("length"));
    let told = |count, signature, address, values| {
        js_native_ffi_call(count, signature, address, values).unwrap_err().message
    };
    let refused = || ScriptError { kind: ErrorKind::TypeError, message: "refused".to_string() };
    assert_eq!(told(6, signature, Ok(1), &one), "invalid native FFI call");
    assert_eq!(told(7, None, Ok(1), &one), "invalid native FFI signature");
    assert_eq!(told(7, signature, Err(refused()), &one), "refused");
    assert_eq!(
        told(7, signature, Ok(1), &FfiValue::Undefined),
        "NativeFunction arguments must be an array"
    );
    assert_eq!(told(7, signature, Ok(1), &unread), "length");
    assert_eq!(told(7, signature, Ok(1), &nothing), "bad native argument count");
    assert_eq!(told(7, signature, Ok(1), &odd), "native integer argument expected");
    assert_eq!(told(7, signature, Ok(1), &many), "invalid array length");
}

#[test]
fn native_calls_report_their_outcome() {
    let int = TypePlan::Scalar(ScalarType::Signed(4));
    let result = [0xff, 0xff, 0xff, 0xff, 0, 0, 0, 0];
    assert!(matches!(
        call_outcome(Ok(0), &int, &result, false, 2),
        CallOutcome::Value(FfiValue::Integer(-1))
    ));
    assert!(matches!(
        call_outcome(Ok(0), &int, &result, true, 2),
        CallOutcome::Captured { value: FfiValue::Integer(-1), errno: 2 }
    ));
    assert!(call_outcome(Ok(0), &int, &result, false, 2).delivers_events());
    assert!(call_outcome(Ok(0), &int, &result, true, 2).delivers_events());
    assert!(!call_outcome(Ok(1), &int, &result, true, 2).delivers_events());
    assert!(matches!(call_outcome(Ok(1), &int, &result, true, 2), CallOutcome::Exception));
    match call_outcome(Err("engine is gone"), &int, &result, false, 0) {
        CallOutcome::Error(error) => assert_eq!(error.message, "NativeFunction: engine is gone"),
        _ => panic!("the call was not made"),
    }
}

#[test]
fn closures_are_given_back_on_failure() {
    assert!(matches!(allocate_callback_closure(), ClosureAllocation::Allocating { size: 48 }));
    match allocate_callback_closure().allocated(0, 5) {
        ClosureAllocation::Failed { reason } => assert_eq!(reason, "failed to allocate closure"),
        other => panic!("{other:?}"),
    }
    let refused = allocate_callback_closure().allocated(4, 5).advance(false);
    assert!(matches!(refused, ClosureAllocation::Freeing { closure: 4, .. }));
    match refused.advance(true) {
        ClosureAllocation::Failed { reason } => assert_eq!(reason, "failed to prepare closure"),
        other => panic!("{other:?}"),
    }
    assert!(matches!(
        allocate_callback_closure().allocated(4, 5).advance(true),
        ClosureAllocation::Ready { closure: 4, code: 5 }
    ));
}

#[test]
fn library_structures_are_laid_out() {
    let kind = FfiType { size: 8, alignment: 4, kind: 13, elements: 0x1122 };
    let bytes = kind.laid_out();
    assert_eq!(bytes.len(), std::mem::size_of::<FfiType>());
    assert_eq!(&bytes[..16], [8, 0, 0, 0, 0, 0, 0, 0, 4, 0, 13, 0, 0, 0, 0, 0]);
    assert_eq!(&bytes[16..], 0x1122u64.to_le_bytes());
    let cif =
        FfiCif { abi: 1, nargs: 2, arg_types: 3, return_type: 4, bytes: 5, flags: 6 };
    let bytes = cif.laid_out();
    assert_eq!(bytes.len(), std::mem::size_of::<FfiCif>());
    assert_eq!(&bytes[..8], [1, 0, 0, 0, 2, 0, 0, 0]);
    assert_eq!(&bytes[24..], [5, 0, 0, 0, 6, 0, 0, 0]);
}

fn thrown(message: &str) -> ScriptError {
    ScriptError { kind: ErrorKind::Thrown, message: message.to_string() }
}

#[test]
fn values_that_do_not_convert_are_told() {
    let told = |kind, value| write_value(&TypePlan::Scalar(kind), &value).unwrap_err().message;
    let kinds = [
        ScalarType::Bool,
        ScalarType::Signed(4),
        ScalarType::Unsigned(4),
        ScalarType::Pointer,
        ScalarType::Float,
        ScalarType::Double,
    ];
    for kind in kinds {
        assert_eq!(told(kind, FfiValue::Failed(thrown("no"))), "no");
    }
    let void = TypePlan::Scalar(ScalarType::Void);
    assert!(write_value(&void, &FfiValue::Failed(thrown("no"))).is_ok());
    let pair = parse_type(&ScriptType::List(vec![name("pointer"), name("int")]), false).unwrap();
    let error = write_value(&pair, &FfiValue::Failed(thrown("length"))).unwrap_err();
    assert_eq!((error.kind, error.message.as_str()), (ErrorKind::Thrown, "length"));
    let fields = vec![FfiValue::Failed(thrown("field")), FfiValue::Undefined];
    assert_eq!(write_value(&pair, &FfiValue::List(fields)).unwrap_err().message, "field");
}

#[test]
fn the_first_argument_that_does_not_convert_is_told() {
    let types = ScriptType::List(vec![name("int"), name("pointer"), name("int")]);
    let signature = js_native_ffi_prepare(2, &name("int"), &types).unwrap();
    assert!(signature.is_countable());
    let told = |values| {
        let values = FfiValue::List(values);
        js_native_ffi_call(7, Some(&signature), Ok(1), &values).unwrap_err().message
    };
    let bad = || FfiValue::Failed(thrown("expected a pointer"));
    assert_eq!(
        told(vec![FfiValue::Undefined, bad(), FfiValue::Undefined]),
        "native integer argument expected"
    );
    assert_eq!(
        told(vec![FfiValue::Integer(1), bad(), FfiValue::Undefined]),
        "expected a pointer"
    );
}

#[test]
fn types_that_cannot_be_read_are_told() {
    let failed = || ScriptType::Failed(thrown("no type"));
    let types = ScriptType::List(vec![name("int"), failed(), name("...")]);
    assert_eq!(
        NativeFfiSignature::parse(&name("int"), &types).unwrap_err().message,
        "no type"
    );
    assert_eq!(
        NativeFfiSignature::parse(&name("int"), &failed()).unwrap_err().message,
        "no type"
    );
    assert_eq!(
        parse_type(&ScriptType::List(vec![failed(), name("what")]), false).unwrap_err().message,
        "no type"
    );
    assert_eq!(parse_signature(&name("int"), &types).unwrap_err().message, "no type");
    assert_eq!(
        parse_signature(&name("int"), &failed()).unwrap_err().message,
        "NativeCallback: too many arguments"
    );
}
