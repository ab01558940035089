use rustfrida::hooks::{
    hook_error_message, HookData, HookKind, InterceptorListenerData, ListenerRegistry,
    StealthMode, HOOK_ERROR_ALREADY_HOOKED,
};
use rustfrida::in_flight::{InFlight, WaitPoll};
use rustfrida::invocations::{
    apply_script_result, build_invocation_ctx, hook_callback_enter, hook_callback_leave,
    interceptor_context, js_native_call_original, native_attach_entered,
    native_attach_on_enter_wrapper, native_attach_on_leave_wrapper, original_returned,
    prepare_original_call, refresh_invocation_registers, resolve_original,
    sync_js_ctx_to_hook_ctx, EnterDispatch, EnterStep, HookContext, InvocationListenerState,
    InvocationStack, LeaveDispatch, LeaveStep, NativeAttachCall, NativeAttachCallbacks,
    NativeHookStack, ReplaceEntry, ScriptRegisters, ShownRegisters,
};

#[test]
fn invocation_stack_tracks_nested_depth_and_target() {
    let mut stack = InvocationStack::new();
    let (outer_id, outer_depth) = stack.invocation_begin(0x1000, 1);
    assert_eq!(outer_depth, 0);
    assert!(stack.invocation_append(
        outer_id,
        InvocationListenerState {
            listener_id: 11,
            this_bytes: [0; 16],
            on_leave_bytes: [0; 16],
        }
    ));

    let (_inner_id, inner_depth) = stack.invocation_begin(0x2000, 1);
    assert_eq!(inner_depth, 1);
    let inner = stack.invocation_take(0x2000).expect("inner invocation");
    assert_eq!(inner.target, 0x2000);
    let (leave_nested_id, leave_nested_depth) = stack.invocation_begin(0x3000, 1);
    assert_eq!(leave_nested_depth, 2);
    assert!(!stack.invocation_finish_enter(leave_nested_id));
    stack.invocation_end_leave(inner.id);

    let outer = stack.invocation_take(0x1000).expect("outer invocation");
    assert_eq!(outer.listeners.len(), 1);
    assert_eq!(outer.listeners[0].listener_id, 11);
    stack.invocation_end_leave(outer.id);
    assert!(stack.invocation_take(0x1000).is_none());
}

fn listener(target: u64) -> InterceptorListenerData {
    InterceptorListenerData {
        id: 0,
        target,
        ctx: 1,
        on_enter_bytes: [0; 16],
        on_leave_bytes: [0; 16],
        has_on_enter: false,
        has_on_leave: false,
    }
}

#[test]
fn interceptor_listeners_keep_order_and_detach_independently() {
    let mut registry = ListenerRegistry::new();
    let target = 0xf000_0000_0000_0101;
    let first = registry.add_interceptor_listener(listener(target));
    let second = registry.add_interceptor_listener(listener(target));

    let snapshot = registry.interceptor_listener_snapshot(target);
    assert_eq!(snapshot.iter().map(|item| item.id).collect::<Vec<_>>(), [first, second]);

    let result = registry.remove_interceptor_listener(target, first);
    assert_eq!(result.removed.map(|item| item.id), Some(first));
    assert!(!result.target_is_empty);
    assert!(!registry.interceptor_listener_is_active(target, first));
    assert!(registry.interceptor_listener_is_active(target, second));

    let result = registry.remove_interceptor_listener(target, second);
    assert_eq!(result.removed.map(|item| item.id), Some(second));
    assert!(result.target_is_empty);
    assert!(registry.interceptor_listener_snapshot(target).is_empty());
}

#[test]
fn listeners_of_one_target_or_of_all_can_be_taken() {
    let mut registry = ListenerRegistry::new();
    let a = registry.add_interceptor_listener(listener(0x1000));
    let b = registry.add_interceptor_listener(listener(0x2000));
    let c = registry.add_interceptor_listener(listener(0x1000));
    let taken = registry.take_interceptor_listeners(0x1000);
    assert_eq!(taken.iter().map(|item| item.id).collect::<Vec<_>>(), [a, c]);
    assert!(registry.interceptor_listener_is_active(0x2000, b));
    let rest = registry.take_all_interceptor_listeners();
    assert_eq!(rest.iter().map(|item| item.id).collect::<Vec<_>>(), [b]);
    let nothing = registry.remove_interceptor_listener(0x1000, a);
    assert!(nothing.removed.is_none());
}

#[test]
fn hook_errors_and_modes_have_their_words_and_numbers() {
    assert_eq!(hook_error_message(HOOK_ERROR_ALREADY_HOOKED), "address already hooked\0");
    assert_eq!(hook_error_message(-99), "unknown hook error\0");
    assert_eq!(StealthMode::from_js_arg(2), StealthMode::Recomp);
    assert_eq!(StealthMode::from_js_arg(7), StealthMode::Normal);
    assert_eq!(StealthMode::WxShadow.value(), 1);
}

fn hook(kind: HookKind) -> HookData {
    HookData {
        ctx: 5,
        callback_bytes: [7; 16],
        on_leave_bytes: [0; 16],
        has_on_enter: true,
        has_on_leave: false,
        trampoline: 0x9000,
        kind,
        mode: StealthMode::Normal,
        recomp_addr: 0,
        native_attach_data: 0,
    }
}

fn context() -> HookContext {
    HookContext { x: [0; 31], sp: 0, pc: 0, nzcv: 0, d: [0; 8], intercept_leave: false }
}

#[test]
fn a_replacement_calls_the_original_unless_the_script_did() {
    let mut stack = NativeHookStack::new();
    let entry = hook_callback_enter(&mut stack, 0x100, 0x1000, Some(hook(HookKind::Replace)), false);
    assert!(matches!(entry, ReplaceEntry::RunScript { ctx: 5, trampoline: 0x9000, .. }));
    assert_eq!(hook_callback_leave(&mut stack, 0x9000, false), Some(0x9000));

    let _ = hook_callback_enter(&mut stack, 0x100, 0x1000, Some(hook(HookKind::Replace)), false);
    assert!(stack.mark_native_hook_frame_orig_called(0x100, 0x9000));
    assert_eq!(hook_callback_leave(&mut stack, 0x9000, false), None);

    assert!(matches!(
        hook_callback_enter(&mut stack, 0x100, 0x1000, None, false),
        ReplaceEntry::Ignore
    ));
    assert!(matches!(
        hook_callback_enter(&mut stack, 0x100, 0x1000, Some(hook(HookKind::Replace)), true),
        ReplaceEntry::CallOriginal { trampoline: 0x9000 }
    ));
}

#[test]
fn the_original_can_only_be_called_inside_a_callback() {
    let mut stack = NativeHookStack::new();
    assert_eq!(
        resolve_original(&stack, 0, 0).unwrap_err().message,
        "$orig() can only be called inside a hook callback"
    );
    stack.push_native_hook_frame(0x100, 0x9000);
    let call = resolve_original(&stack, 0, 0).unwrap();
    assert_eq!((call.ctx_ptr, call.trampoline), (0x100, 0x9000));
    assert!(!stack.pop_native_hook_frame());
    assert!(stack.current_native_hook_frame().is_none());
}

#[test]
fn scripts_change_registers_and_results() {
    let mut hooked = context();
    let mut registers = [0u64; 31];
    registers[5] = 55;
    apply_script_result(&mut hooked, registers, Some(42));
    assert_eq!(hooked.x[0], 42);
    assert_eq!(hooked.x[5], 55);

    let mut original = context();
    prepare_original_call(&mut original, registers, 0x8000, &[1, 2]);
    assert_eq!((original.x[0], original.x[1], original.x[5]), (1, 2, 55));
    assert_eq!(original.sp, 0x8000);

    let mut synced = context();
    synced.d = [7; 8];
    let mut script = ScriptRegisters {
        x: [3; 29],
        fp: 1,
        lr: 2,
        sp: 4,
        pc: 5,
        nzcv: 6,
        d: [Some(8); 8],
        errno: None,
    };
    script.d[2] = None;
    sync_js_ctx_to_hook_ctx(&mut synced, &script);
    assert_eq!((synced.x[0], synced.x[29], synced.x[30]), (3, 1, 2));
    assert_eq!(synced.d, [8, 8, 7, 8, 8, 8, 8, 8]);
}

/// What a script leaves that touches nothing.
fn untouched(shown: &ShownRegisters) -> ScriptRegisters {
    let mut x = [0; 29];
    x.copy_from_slice(&shown.x[..29]);
    ScriptRegisters {
        x,
        fp: shown.fp,
        lr: shown.lr,
        sp: shown.sp,
        pc: shown.pc,
        nzcv: shown.nzcv,
        d: shown.d.map(Some),
        errno: Some(shown.errno),
    }
}

#[test]
fn scripts_that_touch_nothing_leave_the_call_as_it_was() {
    let mut before = context();
    for (index, register) in before.x.iter_mut().enumerate() {
        *register = 100 + index as u64;
    }
    before.d = [1, 2, 3, 4, 5, 6, 7, 8];
    before.sp = 0x8000;
    let shown = build_invocation_ctx(&before, 0x100, 3, 11, 77);
    assert_eq!((shown.return_address, shown.depth), (130, 3));
    assert_eq!((shown.thread_id, shown.hook_ctx_ptr), (77, 0x100));
    assert_eq!((shown.registers.fp, shown.registers.lr), (129, 130));
    assert_eq!(shown.registers.errno, 11);
    let mut after = before;
    sync_js_ctx_to_hook_ctx(&mut after, &untouched(&shown.registers));
    assert_eq!((after.x, after.d, after.sp), (before.x, before.d, before.sp));
}

#[test]
fn calling_the_original_marks_the_call() {
    let mut stack = NativeHookStack::new();
    let _ = hook_callback_enter(&mut stack, 0x100, 0x1000, Some(hook(HookKind::Replace)), false);
    let call = resolve_original(&stack, 0, 0).unwrap();
    let mut registers = [0u64; 31];
    registers[1] = 9;
    let mut hooked = context();
    js_native_call_original(&mut stack, call, &mut hooked, registers, 0x8000, &[4]);
    assert_eq!((hooked.x[0], hooked.x[1], hooked.sp), (4, 9, 0x8000));
    original_returned(&mut hooked, 33);
    assert_eq!((hooked.x[0], hooked.x[1]), (33, 9));
    assert_eq!(hook_callback_leave(&mut stack, 0x9000, false), None);
    assert!(stack.frames.is_empty());
}

#[test]
fn listeners_that_enter_are_told_when_the_function_leaves() {
    let mut registry = ListenerRegistry::new();
    let mut both = listener(0x1000);
    both.has_on_enter = true;
    both.has_on_leave = true;
    let id = registry.add_interceptor_listener(both);
    let mut stack = InvocationStack::new();
    let mut hooked = context();
    hooked.intercept_leave = true;
    assert_eq!(interceptor_context(&mut hooked, 0x1000, Some(hook(HookKind::Interceptor))), Some(5));
    assert!(!hooked.intercept_leave);
    let mut dispatch =
        EnterDispatch::attach_on_enter_wrapper(&registry, &mut stack, 0x1000, 1, 11);
    let entered = match dispatch.next(&registry) {
        EnterStep::Run(data) => data,
        other => panic!("{other:?}"),
    };
    assert_eq!(entered.id, id);
    let mut script = untouched(&refresh_invocation_registers(&hooked, dispatch.system_error));
    script.x[2] = 22;
    script.errno = Some(12);
    assert!(dispatch.entered(&registry, &mut stack, &mut hooked, &script, entered, [9; 16]));
    assert_eq!(hooked.x[2], 22);
    assert!(matches!(dispatch.next(&registry), EnterStep::Done));
    assert_eq!(dispatch.finish(&mut stack, &mut hooked), 12);
    assert!(hooked.intercept_leave);

    let mut leave = LeaveDispatch::attach_on_leave_wrapper(&mut stack, 0x1000, 13).unwrap();
    let left = match leave.next(&registry) {
        LeaveStep::Run(state) => state,
        other => panic!("{other:?}"),
    };
    assert_eq!((left.listener_id, left.this_bytes), (id, [9; 16]));
    script.x[0] = 44;
    script.errno = None;
    leave.left(&mut hooked, &script);
    assert_eq!(hooked.x[0], 44);
    assert!(matches!(leave.next(&registry), LeaveStep::Done));
    assert_eq!(leave.finish(&mut stack), 0);
    assert!(stack.frames.is_empty());
    assert!(LeaveDispatch::attach_on_leave_wrapper(&mut stack, 0x1000, 13).is_none());
    assert_eq!(interceptor_context(&mut hooked, 0x1000, None), None);
    assert_eq!(
        interceptor_context(&mut hooked, 0x1000, Some(hook(HookKind::Replace))),
        None
    );
}

#[test]
fn detached_listeners_do_not_see_the_end_of_a_call() {
    let mut registry = ListenerRegistry::new();
    let mut both = listener(0x1000);
    both.has_on_leave = true;
    let id = registry.add_interceptor_listener(both);
    let mut stack = InvocationStack::new();
    let mut hooked = context();
    let mut dispatch =
        EnterDispatch::attach_on_enter_wrapper(&registry, &mut stack, 0x1000, 1, 0);
    let entered = match dispatch.next(&registry) {
        EnterStep::Run(data) => data,
        other => panic!("{other:?}"),
    };
    let script = untouched(&refresh_invocation_registers(&hooked, 0));
    assert!(dispatch.entered(&registry, &mut stack, &mut hooked, &script, entered, [9; 16]));
    assert_eq!(dispatch.finish(&mut stack, &mut hooked), 0);
    let _ = registry.remove_interceptor_listener(0x1000, id);
    let mut leave = LeaveDispatch::attach_on_leave_wrapper(&mut stack, 0x1000, 5).unwrap();
    assert!(matches!(leave.next(&registry), LeaveStep::Skip(_)));
    assert_eq!(leave.finish(&mut stack), 5);

    let mut dispatch =
        EnterDispatch::attach_on_enter_wrapper(&registry, &mut stack, 0x1000, 1, 0);
    assert!(matches!(dispatch.next(&registry), EnterStep::Done));
    hooked.intercept_leave = false;
    assert_eq!(dispatch.finish(&mut stack, &mut hooked), 0);
    assert!(!hooked.intercept_leave);
    assert!(stack.frames.is_empty());
}

#[test]
fn native_functions_see_intercepted_calls() {
    let enter_only = NativeAttachCallbacks { on_enter: 0x1000, on_leave: 0, user_data: 7 };
    assert_eq!(
        native_attach_on_enter_wrapper(&enter_only),
        Some(NativeAttachCall { function: 0x1000, user_data: 7 })
    );
    assert_eq!(native_attach_on_leave_wrapper(&enter_only), None);
    let mut hooked = context();
    hooked.intercept_leave = true;
    native_attach_entered(&enter_only, &mut hooked);
    assert!(!hooked.intercept_leave);

    let leave_only = NativeAttachCallbacks { on_enter: 0, on_leave: 0x2000, user_data: 8 };
    assert_eq!(native_attach_on_enter_wrapper(&leave_only), None);
    assert_eq!(
        native_attach_on_leave_wrapper(&leave_only),
        Some(NativeAttachCall { function: 0x2000, user_data: 8 })
    );
    hooked.intercept_leave = true;
    native_attach_entered(&leave_only, &mut hooked);
    assert!(hooked.intercept_leave);
}

#[test]
fn waiting_ends_when_no_call_is_under_way() {
    let mut calls = InFlight::new();
    calls.enter();
    calls.enter();
    assert_eq!(calls.poll(3, 10), WaitPoll::Wait { remaining: 7 });
    assert_eq!(calls.poll(10, 10), WaitPoll::TimedOut);
    assert!(!calls.leave());
    assert!(calls.leave());
    assert_eq!(calls.poll(10, 10), WaitPoll::Idle);
}
