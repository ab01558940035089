//! Calls of hooked functions: which scripts run before and behind them.

use crate::hooks::{
    listeners_on, listening, HookData, HookKind, InterceptorListenerData, ListenerRegistry,
};
use crate::script::{internal_error, ErrorKind, ScriptError};
use vstd::prelude::*;

verus! {

/// A call of a replaced function that is inside its script.
#[derive(Clone, Copy, Debug, PartialEq, Eq, Structural)]
pub struct NativeHookFrame {
    pub ctx_ptr: u64,
    pub trampoline: u64,
    /// Whether the script has called the original function.
    pub orig_called: bool,
}

/// The calls of replaced functions that are inside their scripts, innermost last.
#[derive(Debug)]
pub struct NativeHookStack {
    pub frames: Vec<NativeHookFrame>,
}

/// The innermost frame of a call.
pub open spec fn innermost_frame(frames: Seq<NativeHookFrame>, ctx_ptr: u64, trampoline: u64) -> Option<
    int,
>
    decreases frames.len(),
{
    if frames.len() == 0 {
        None
    } else if frames.last().ctx_ptr == ctx_ptr && frames.last().trampoline == trampoline {
        Some(frames.len() - 1)
    } else {
        innermost_frame(frames.drop_last(), ctx_ptr, trampoline)
    }
}

impl NativeHookStack {
    pub fn new() -> (stack: NativeHookStack)
        ensures
            stack.frames@.len() == 0,
    {
        NativeHookStack { frames: Vec::new() }
    }

    /// Enters the script of a call.
    pub fn push_native_hook_frame(&mut self, ctx_ptr: u64, trampoline: u64)
        ensures
            final(self).frames@ == old(self).frames@.push(
                NativeHookFrame { ctx_ptr, trampoline, orig_called: false },
            ),
    {
        self.frames.push(NativeHookFrame { ctx_ptr, trampoline, orig_called: false });
    }

    /// Leaves the script of the innermost call. The result says whether it has called
    /// the original function.
    pub fn pop_native_hook_frame(&mut self) -> (orig_called: bool)
        ensures
            old(self).frames@.len() == 0 ==> !orig_called && final(self).frames@ == old(
                self).frames@,
            old(self).frames@.len() > 0 ==> {
                &&& orig_called == old(self).frames@.last().orig_called
                &&& final(self).frames@ == old(self).frames@.drop_last()
            },
    {
        match self.frames.pop() {
            Some(frame) => frame.orig_called,
            None => false,
        }
    }

    /// Notes that the script of a call has called the original function.
    pub fn mark_native_hook_frame_orig_called(&mut self, ctx_ptr: u64, trampoline: u64) -> (found:
        bool)
        ensures
            match innermost_frame(old(self).frames@, ctx_ptr, trampoline) {
                None => !found && final(self).frames@ == old(self).frames@,
                Some(index) => {
                    &&& found
                    &&& final(self).frames@ == old(self).frames@.update(
                        index,
                        NativeHookFrame { ctx_ptr, trampoline, orig_called: true },
                    )
                },
            },
    {
        let ghost all = self.frames@;
        let mut i: usize = self.frames.len();
        assert(all.take(i as int) =~= all);
        while i > 0
            invariant
                i <= self.frames@.len(),
                self.frames@ == all,
                all == old(self).frames@,
                innermost_frame(all, ctx_ptr, trampoline) == innermost_frame(
                    all.take(i as int),
                    ctx_ptr,
                    trampoline,
                ),
            decreases i,
        {
            assert(all.take(i as int).drop_last() =~= all.take(i - 1));
            if self.frames[i - 1].ctx_ptr == ctx_ptr && self.frames[i - 1].trampoline
                == trampoline {
                self.frames[i - 1].orig_called = true;
                assert(self.frames@ =~= all.update(
                    i - 1,
                    NativeHookFrame { ctx_ptr, trampoline, orig_called: true },
                ));
                return true;
            }
            i = i - 1;
        }
        false
    }

    /// The innermost call.
    pub fn current_native_hook_frame(&self) -> (frame: Option<NativeHookFrame>)
        ensures
            frame == if self.frames@.len() == 0 {
                None
            } else {
                Some(self.frames@.last())
            },
    {
        let count: usize = self.frames.len();
        if count == 0 {
            None
        } else {
            Some(self.frames[count - 1])
        }
    }
}

/// The registers of a hooked call.
#[derive(Clone, Copy, Debug)]
pub struct HookContext {
    pub x: [u64; 31],
    pub sp: u64,
    pub pc: u64,
    pub nzcv: u64,
    /// Bits of the first eight floating-point registers.
    pub d: [u64; 8],
    /// Whether the return of the function is to be seen too.
    pub intercept_leave: bool,
}

/// What happens when a replaced function is called.
#[derive(Clone, Copy, Debug)]
pub enum ReplaceEntry {
    /// Nothing: there is no such hook.
    Ignore,
    /// The original function runs: the thread is inside a script already.
    CallOriginal { trampoline: u64 },
    /// The script runs.
    RunScript { ctx: u64, callback_bytes: [u8; 16], trampoline: u64 },
}

/// Enters a call of a replaced function. `hook` is what the registry holds for the
/// address; `would_reenter` says whether this thread is inside a script already.
pub fn hook_callback_enter(
    stack: &mut NativeHookStack,
    ctx_ptr: u64,
    target: u64,
    hook: Option<HookData>,
    would_reenter: bool,
) -> (entry: ReplaceEntry)
    ensures
        ctx_ptr == 0 || target == 0 || hook is None ==> {
            &&& entry is Ignore
            &&& final(stack).frames@ == old(stack).frames@
        },
        ctx_ptr != 0 && target != 0 && hook is Some && would_reenter ==> {
            &&& final(stack).frames@ == old(stack).frames@
            &&& if hook->0.trampoline != 0 {
                entry == (ReplaceEntry::CallOriginal { trampoline: hook->0.trampoline })
            } else {
                entry is Ignore
            }
        },
        ctx_ptr != 0 && target != 0 && hook is Some && !would_reenter ==> {
            &&& entry == (ReplaceEntry::RunScript {
                ctx: hook->0.ctx,
                callback_bytes: hook->0.callback_bytes,
                trampoline: hook->0.trampoline,
            })
            &&& final(stack).frames@ == old(stack).frames@.push(
                NativeHookFrame {
                    ctx_ptr,
                    trampoline: hook->0.trampoline,
                    orig_called: false,
                },
            )
        },
{
    if ctx_ptr == 0 || target == 0 {
        return ReplaceEntry::Ignore;
    }
    match hook {
        None => ReplaceEntry::Ignore,
        Some(data) => {
            if would_reenter {
                if data.trampoline != 0 {
                    return ReplaceEntry::CallOriginal { trampoline: data.trampoline };
                }
                return ReplaceEntry::Ignore;
            }
            stack.push_native_hook_frame(ctx_ptr, data.trampoline);
            ReplaceEntry::RunScript {
                ctx: data.ctx,
                callback_bytes: data.callback_bytes,
                trampoline: data.trampoline,
            }
        },
    }
}

/// Leaves a call of a replaced function. The result is where the original function has
/// to be called after all: a script that threw before it gave a result or called the
/// original makes the hook transparent.
pub fn hook_callback_leave(stack: &mut NativeHookStack, trampoline: u64, result_was_set: bool) -> (fallback:
    Option<u64>)
    ensures
        final(stack).frames@ == if old(stack).frames@.len() > 0 {
            old(stack).frames@.drop_last()
        } else {
            old(stack).frames@
        },
        fallback == if !result_was_set && trampoline != 0 && !(old(stack).frames@.len() > 0 && old(
            stack,
        ).frames@.last().orig_called) {
            Some(trampoline)
        } else {
            None
        },
{
    let orig_called: bool = stack.pop_native_hook_frame();
    if !result_was_set && trampoline != 0 && !orig_called {
        Some(trampoline)
    } else {
        None
    }
}

/// A call of a replaced function leaves no trace on the stack, and a script's `$orig()`
/// marks the call that it belongs to and no other.
pub proof fn a_replaced_call_leaves_no_trace(
    frames: Seq<NativeHookFrame>,
    ctx_ptr: u64,
    trampoline: u64,
)
    ensures
        ({
            let entered = frames.push(
                NativeHookFrame { ctx_ptr, trampoline, orig_called: false },
            );
            let marked = entered.update(
                frames.len() as int,
                NativeHookFrame { ctx_ptr, trampoline, orig_called: true },
            );
            &&& innermost_frame(entered, ctx_ptr, trampoline) == Some(frames.len() as int)
            &&& entered.drop_last() == frames
            &&& marked.last().orig_called
            &&& marked.drop_last() == frames
        }),
{
    let entered = frames.push(NativeHookFrame { ctx_ptr, trampoline, orig_called: false });
    let marked = entered.update(
        frames.len() as int,
        NativeHookFrame { ctx_ptr, trampoline, orig_called: true },
    );
    assert(entered.drop_last() =~= frames);
    assert(marked.drop_last() =~= frames);
}

/// The registers after a script has replaced a call: those that the script left behind,
/// with its result, if it gave one, in the first.
pub fn apply_script_result(context: &mut HookContext, registers: [u64; 31], result: Option<u64>)
    ensures
        final(context).sp == old(context).sp,
        final(context).pc == old(context).pc,
        final(context).nzcv == old(context).nzcv,
        final(context).d == old(context).d,
        final(context).intercept_leave == old(context).intercept_leave,
        forall|i: int|
            0 <= i < 31 ==> #[trigger] final(context).x@[i] == if i == 0 && result is Some {
                result->0
            } else {
                registers@[i]
            },
{
    context.x = registers;
    match result {
        Some(value) => {
            context.x[0] = value;
        },
        None => {},
    }
}

/// Where a script's call of the original function goes.
#[derive(Clone, Copy, Debug, PartialEq, Eq, Structural)]
pub struct OriginalCall {
    pub ctx_ptr: u64,
    pub trampoline: u64,
}

/// Finds the call that a script's `$orig()` belongs to: the one bound to the context
/// object, or else the innermost one.
pub fn resolve_original(stack: &NativeHookStack, bound_ctx_ptr: u64, bound_trampoline: u64) -> (result:
    Result<OriginalCall, ScriptError>)
    ensures
        ({
            let frames = stack.frames@;
            let ctx_ptr = if bound_ctx_ptr != 0 || frames.len() == 0 {
                bound_ctx_ptr
            } else {
                frames.last().ctx_ptr
            };
            let trampoline = if bound_trampoline != 0 || frames.len() == 0 {
                bound_trampoline
            } else {
                frames.last().trampoline
            };
            if ctx_ptr == 0 || trampoline == 0 {
                result is Err && result->Err_0@ == (
                    ErrorKind::InternalError,
                    "$orig() can only be called inside a hook callback"@,
                )
            } else {
                result == Ok::<OriginalCall, ScriptError>(OriginalCall { ctx_ptr, trampoline })
            }
        }),
{
    let current: Option<NativeHookFrame> = stack.current_native_hook_frame();
    let ctx_ptr: u64 = if bound_ctx_ptr != 0 {
        bound_ctx_ptr
    } else {
        match current {
            Some(frame) => frame.ctx_ptr,
            None => 0,
        }
    };
    let trampoline: u64 = if bound_trampoline != 0 {
        bound_trampoline
    } else {
        match current {
            Some(frame) => frame.trampoline,
            None => 0,
        }
    };
    if ctx_ptr == 0 || trampoline == 0 {
        return Err(internal_error("$orig() can only be called inside a hook callback"));
    }
    Ok(OriginalCall { ctx_ptr, trampoline })
}

/// The registers with which the original function is called: those of the script's
/// context object, the first ones replaced by arguments that the script passed.
pub fn prepare_original_call(context: &mut HookContext, registers: [u64; 31], sp: u64, arguments: &[u64])
    ensures
        final(context).sp == sp,
        final(context).pc == old(context).pc,
        final(context).nzcv == old(context).nzcv,
        final(context).d == old(context).d,
        final(context).intercept_leave == old(context).intercept_leave,
        forall|i: int|
            0 <= i < 31 ==> #[trigger] final(context).x@[i] == if i < arguments@.len() {
                arguments@[i]
            } else {
                registers@[i]
            },
{
    context.x = registers;
    context.sp = sp;
    let mut i: usize = 0;
    while i < 31 && i < arguments.len()
        invariant
            i <= 31,
            i <= arguments@.len(),
            context.sp == sp,
            context.pc == old(context).pc,
            context.nzcv == old(context).nzcv,
            context.d == old(context).d,
            context.intercept_leave == old(context).intercept_leave,
            forall|k: int|
                0 <= k < 31 ==> #[trigger] context.x@[k] == if k < i {
                    arguments@[k]
                } else {
                    registers@[k]
                },
        decreases 31 - i,
    {
        context.x[i] = arguments[i];
        i = i + 1;
    }
}

/// Calls the original function for a script's `$orig()`: the registers are set, and the
/// call is marked on the stack.
pub fn js_native_call_original(
    stack: &mut NativeHookStack,
    call: OriginalCall,
    context: &mut HookContext,
    registers: [u64; 31],
    sp: u64,
    arguments: &[u64],
)
    ensures
        final(stack).frames@ == match innermost_frame(
            old(stack).frames@,
            call.ctx_ptr,
            call.trampoline,
        ) {
            Some(index) => old(stack).frames@.update(
                index,
                NativeHookFrame {
                    ctx_ptr: call.ctx_ptr,
                    trampoline: call.trampoline,
                    orig_called: true,
                },
            ),
            None => old(stack).frames@,
        },
        final(context).sp == sp,
        final(context).pc == old(context).pc,
        final(context).nzcv == old(context).nzcv,
        final(context).d == old(context).d,
        final(context).intercept_leave == old(context).intercept_leave,
        forall|i: int|
            0 <= i < 31 ==> #[trigger] final(context).x@[i] == if i < arguments@.len() {
                arguments@[i]
            } else {
                registers@[i]
            },
{
    prepare_original_call(context, registers, sp, arguments);
    let _ = stack.mark_native_hook_frame_orig_called(call.ctx_ptr, call.trampoline);
}

/// Takes in what the original function returned.
pub fn original_returned(context: &mut HookContext, result: u64)
    ensures
        final(context).x@ == old(context).x@.update(0, result),
        final(context).sp == old(context).sp,
        final(context).pc == old(context).pc,
        final(context).nzcv == old(context).nzcv,
        final(context).d == old(context).d,
        final(context).intercept_leave == old(context).intercept_leave,
{
    context.x[0] = result;
}

/// What a script is shown of the registers of an intercepted call.
#[derive(Clone, Copy, Debug)]
pub struct ShownRegisters {
    pub x: [u64; 31],
    /// Bits of the first eight floating-point registers.
    pub d: [u64; 8],
    pub sp: u64,
    pub pc: u64,
    pub fp: u64,
    pub lr: u64,
    pub nzcv: u64,
    pub errno: i64,
}

/// What a script is shown of the registers.
pub fn refresh_invocation_registers(context: &HookContext, system_error: i32) -> (shown:
    ShownRegisters)
    ensures
        shown == (ShownRegisters {
            x: context.x,
            d: context.d,
            sp: context.sp,
            pc: context.pc,
            fp: context.x@[29],
            lr: context.x@[30],
            nzcv: context.nzcv,
            errno: system_error as i64,
        }),
{
    ShownRegisters {
        x: context.x,
        d: context.d,
        sp: context.sp,
        pc: context.pc,
        fp: context.x[29],
        lr: context.x[30],
        nzcv: context.nzcv,
        errno: system_error as i64,
    }
}

/// What a listener's `this` holds when a call is entered.
#[derive(Clone, Copy, Debug)]
pub struct InvocationContext {
    pub registers: ShownRegisters,
    pub return_address: u64,
    pub thread_id: u64,
    pub depth: u64,
    pub hook_ctx_ptr: u64,
}

/// What a listener's `this` holds when a call is entered.
pub fn build_invocation_ctx(
    context: &HookContext,
    ctx_ptr: u64,
    depth: u32,
    system_error: i32,
    thread_id: u64,
) -> (invocation: InvocationContext)
    ensures
        invocation.registers == (ShownRegisters {
            x: context.x,
            d: context.d,
            sp: context.sp,
            pc: context.pc,
            fp: context.x@[29],
            lr: context.x@[30],
            nzcv: context.nzcv,
            errno: system_error as i64,
        }),
        invocation.return_address == context.x@[30],
        invocation.thread_id == thread_id,
        invocation.depth == depth,
        invocation.hook_ctx_ptr == ctx_ptr,
{
    InvocationContext {
        registers: refresh_invocation_registers(context, system_error),
        return_address: context.x[30],
        thread_id,
        depth: depth as u64,
        hook_ctx_ptr: ctx_ptr,
    }
}

/// What a script wrote to the registers of an intercepted call. A floating-point register
/// holds no number where the script left something else.
#[derive(Clone, Copy, Debug)]
pub struct ScriptRegisters {
    pub x: [u64; 29],
    pub fp: u64,
    pub lr: u64,
    pub sp: u64,
    pub pc: u64,
    pub nzcv: u64,
    pub d: [Option<u64>; 8],
    /// The error number, if it is an integer.
    pub errno: Option<i64>,
}

/// The registers of a call after a script has had them. The frame pointer and the link
/// register are taken from their own names, not from the numbered ones. A floating-point
/// register that holds no number stays.
pub open spec fn synced(before: HookContext, registers: ScriptRegisters, after: HookContext) -> bool {
    &&& forall|i: int| 0 <= i < 29 ==> #[trigger] after.x@[i] == registers.x@[i]
    &&& after.x@[29] == registers.fp
    &&& after.x@[30] == registers.lr
    &&& after.sp == registers.sp
    &&& after.pc == registers.pc
    &&& after.nzcv == registers.nzcv
    &&& forall|i: int|
        0 <= i < 8 ==> #[trigger] after.d@[i] == match registers.d@[i] {
            Some(bits) => bits,
            None => before.d@[i],
        }
    &&& after.intercept_leave == before.intercept_leave
}

/// Whether a script left the registers as they were shown.
pub open spec fn untouched(shown: ShownRegisters, registers: ScriptRegisters) -> bool {
    &&& forall|i: int| 0 <= i < 29 ==> #[trigger] registers.x@[i] == shown.x@[i]
    &&& registers.fp == shown.fp
    &&& registers.lr == shown.lr
    &&& registers.sp == shown.sp
    &&& registers.pc == shown.pc
    &&& registers.nzcv == shown.nzcv
    &&& forall|i: int| 0 <= i < 8 ==> #[trigger] registers.d@[i] == Some(shown.d@[i])
    &&& registers.errno == Some(shown.errno)
}

/// A script that leaves the registers as they were shown leaves the call as it was.
pub proof fn an_untouched_call_stays(
    before: HookContext,
    registers: ScriptRegisters,
    after: HookContext,
    errno: i32,
)
    requires
        synced(before, registers, after),
        untouched(
            ShownRegisters {
                x: before.x,
                d: before.d,
                sp: before.sp,
                pc: before.pc,
                fp: before.x@[29],
                lr: before.x@[30],
                nzcv: before.nzcv,
                errno: errno as i64,
            },
            registers,
        ),
    ensures
        after.x@ == before.x@,
        after.d@ == before.d@,
        after.sp == before.sp,
        after.pc == before.pc,
        after.nzcv == before.nzcv,
        after.intercept_leave == before.intercept_leave,
        script_errno(registers) == errno,
{
    assert(after.x@ =~= before.x@);
    assert forall|i: int| 0 <= i < 8 implies #[trigger] after.d@[i] == before.d@[i] by {
        assert(registers.d@[i] == Some(before.d@[i]));
    }
    assert(after.d@ =~= before.d@);
}

/// The error number that a script leaves; what is no integer is zero.
pub open spec fn script_errno(registers: ScriptRegisters) -> i32 {
    match registers.errno {
        Some(value) => value as i32,
        None => 0,
    }
}

fn errno_left(registers: &ScriptRegisters) -> (errno: i32)
    ensures
        errno == script_errno(*registers),
{
    match registers.errno {
        Some(value) => value as i32,
        None => 0,
    }
}

/// Writes back what a script did to the registers.
pub fn sync_js_ctx_to_hook_ctx(context: &mut HookContext, registers: &ScriptRegisters)
    ensures
        synced(*old(context), *registers, *final(context)),
{
    let mut i: usize = 0;
    while i < 29
        invariant
            i <= 29,
            context.intercept_leave == old(context).intercept_leave,
            context.d == old(context).d,
            forall|k: int| 0 <= k < i ==> #[trigger] context.x@[k] == registers.x@[k],
        decreases 29 - i,
    {
        context.x[i] = registers.x[i];
        i = i + 1;
    }
    context.x[29] = registers.fp;
    context.x[30] = registers.lr;
    context.sp = registers.sp;
    context.pc = registers.pc;
    context.nzcv = registers.nzcv;
    let ghost x = context.x;
    let mut j: usize = 0;
    while j < 8
        invariant
            j <= 8,
            context.intercept_leave == old(context).intercept_leave,
            context.x == x,
            context.sp == registers.sp,
            context.pc == registers.pc,
            context.nzcv == registers.nzcv,
            forall|k: int|
                0 <= k < j ==> #[trigger] context.d@[k] == match registers.d@[k] {
                    Some(bits) => bits,
                    None => old(context).d@[k],
                },
            forall|k: int| j <= k < 8 ==> #[trigger] context.d@[k] == old(context).d@[k],
        decreases 8 - j,
    {
        match registers.d[j] {
            Some(bits) => {
                context.d[j] = bits;
            },
            None => {},
        }
        j = j + 1;
    }
}

/// What a listener keeps from the entry of a call to its end.
#[derive(Clone, Copy, Debug)]
pub struct InvocationListenerState {
    pub listener_id: u64,
    pub this_bytes: [u8; 16],
    pub on_leave_bytes: [u8; 16],
}

/// A call of an intercepted function.
#[derive(Debug)]
pub struct InvocationFrame {
    pub id: u64,
    pub target: u64,
    pub ctx: u64,
    pub listeners: Vec<InvocationListenerState>,
}

/// What a frame holds.
#[verifier::ext_equal]
pub struct FrameView {
    pub id: u64,
    pub target: u64,
    pub ctx: u64,
    pub listeners: Seq<InvocationListenerState>,
}

impl InvocationFrame {
    pub open spec fn view(&self) -> FrameView {
        FrameView {
            id: self.id,
            target: self.target,
            ctx: self.ctx,
            listeners: self.listeners@,
        }
    }
}

/// The calls of intercepted functions on one thread, innermost last.
#[derive(Debug)]
pub struct InvocationStack {
    pub frames: Vec<InvocationFrame>,
    pub next_id: u64,
}

/// The id behind another one; zero is passed over.
pub open spec fn next_invocation_id(id: u64) -> u64 {
    if id == u64::MAX {
        1
    } else {
        (id + 1) as u64
    }
}

/// The frames of a stack.
pub open spec fn frame_views(frames: Seq<InvocationFrame>) -> Seq<FrameView> {
    Seq::new(frames.len(), |i: int| frames[i]@)
}

/// The position of the innermost frame with an id.
pub open spec fn frame_with_id(frames: Seq<FrameView>, id: u64) -> Option<int>
    decreases frames.len(),
{
    if frames.len() == 0 {
        None
    } else if frames.last().id == id {
        Some(frames.len() - 1)
    } else {
        frame_with_id(frames.drop_last(), id)
    }
}

/// The position of the innermost frame of a target.
pub open spec fn frame_of_target(frames: Seq<FrameView>, target: u64) -> Option<int>
    decreases frames.len(),
{
    if frames.len() == 0 {
        None
    } else if frames.last().target == target {
        Some(frames.len() - 1)
    } else {
        frame_of_target(frames.drop_last(), target)
    }
}

/// The frame of a new call.
pub open spec fn new_frame(id: u64, target: u64, ctx: u64) -> FrameView {
    FrameView { id, target, ctx, listeners: Seq::empty() }
}

/// A found frame exists and has the id.
pub proof fn lemma_frame_with_id(frames: Seq<FrameView>, id: u64)
    ensures
        frame_with_id(frames, id) matches Some(i) ==> 0 <= i < frames.len() && frames[i].id == id,
        frame_with_id(frames, id) is None ==> forall|k: int|
            0 <= k < frames.len() ==> (#[trigger] frames[k]).id != id,
    decreases frames.len(),
{
    if frames.len() > 0 {
        lemma_frame_with_id(frames.drop_last(), id);
        if frame_with_id(frames, id) is None {
            assert forall|k: int| 0 <= k < frames.len() implies (#[trigger] frames[k]).id != id by {
                if k < frames.len() - 1 {
                    assert(frames.drop_last()[k].id != id);
                }
            }
        }
    }
}

/// A found frame exists and has the target.
pub proof fn lemma_frame_of_target(frames: Seq<FrameView>, target: u64)
    ensures
        frame_of_target(frames, target) matches Some(i) ==> 0 <= i < frames.len()
            && frames[i].target == target,
    decreases frames.len(),
{
    if frames.len() > 0 {
        lemma_frame_of_target(frames.drop_last(), target);
    }
}

/// A call that is left right after it was entered leaves the calls around it as they
/// were.
pub proof fn leaving_undoes_entering(frames: Seq<FrameView>, id: u64, target: u64, ctx: u64)
    ensures
        frame_with_id(frames.push(new_frame(id, target, ctx)), id) == Some(frames.len() as int),
        frame_of_target(frames.push(new_frame(id, target, ctx)), target) == Some(
            frames.len() as int,
        ),
        frames.push(new_frame(id, target, ctx)).remove(frames.len() as int) == frames,
{
    assert(frames.push(new_frame(id, target, ctx)).remove(frames.len() as int) =~= frames);
}

impl InvocationStack {
    /// Ids are never zero.
    pub open spec fn wf(&self) -> bool {
        self.next_id != 0
    }

    pub open spec fn view(&self) -> Seq<FrameView> {
        frame_views(self.frames@)
    }

    pub fn new() -> (stack: InvocationStack)
        ensures
            stack.wf(),
            stack@.len() == 0,
            stack.next_id == 1,
    {
        InvocationStack { frames: Vec::new(), next_id: 1 }
    }

    /// Enters a call. The result is its id and its depth.
    pub fn invocation_begin(&mut self, target: u64, ctx: u64) -> (entered: (u64, u32))
        requires
            old(self).wf(),
        ensures
            final(self).wf(),
            entered.0 == old(self).next_id,
            entered.0 != 0,
            entered.1 == if old(self)@.len() <= u32::MAX {
                old(self)@.len()
            } else {
                u32::MAX as nat
            },
            final(self).next_id == next_invocation_id(old(self).next_id),
            final(self)@ == old(self)@.push(new_frame(entered.0, target, ctx)),
    {
        let id: u64 = self.next_id;
        let candidate: u64 = id.wrapping_add(1);
        self.next_id = if candidate == 0 {
            1
        } else {
            candidate
        };
        let depth: u32 = if self.frames.len() as u64 <= u32::MAX as u64 {
            self.frames.len() as u32
        } else {
            u32::MAX
        };
        let ghost before = self@;
        self.frames.push(InvocationFrame { id, target, ctx, listeners: Vec::new() });
        assert(self@ =~= before.push(new_frame(id, target, ctx)));
        (id, depth)
    }

    fn position_by_id(&self, frame_id: u64) -> (index: Option<usize>)
        ensures
            match index {
                Some(i) => frame_with_id(self@, frame_id) == Some(i as int) && i
                    < self.frames@.len(),
                None => frame_with_id(self@, frame_id) is None,
            },
    {
        let mut i: usize = self.frames.len();
        assert(self@.take(i as int) =~= self@);
        while i > 0
            invariant
                i <= self.frames@.len(),
                frame_with_id(self@, frame_id) == frame_with_id(self@.take(i as int), frame_id),
            decreases i,
        {
            assert(self@.take(i as int).drop_last() =~= self@.take(i - 1));
            if self.frames[i - 1].id == frame_id {
                return Some(i - 1);
            }
            i = i - 1;
        }
        None
    }

    fn position_by_target(&self, target: u64) -> (index: Option<usize>)
        ensures
            match index {
                Some(i) => frame_of_target(self@, target) == Some(i as int) && i
                    < self.frames@.len(),
                None => frame_of_target(self@, target) is None,
            },
    {
        let mut i: usize = self.frames.len();
        assert(self@.take(i as int) =~= self@);
        while i > 0
            invariant
                i <= self.frames@.len(),
                frame_of_target(self@, target) == frame_of_target(self@.take(i as int), target),
            decreases i,
        {
            assert(self@.take(i as int).drop_last() =~= self@.take(i - 1));
            if self.frames[i - 1].target == target {
                return Some(i - 1);
            }
            i = i - 1;
        }
        None
    }

    /// Keeps the state of a listener for the end of the call.
    pub fn invocation_append(&mut self, frame_id: u64, listener: InvocationListenerState) -> (kept:
        bool)
        requires
            old(self).wf(),
        ensures
            final(self).wf(),
            final(self).next_id == old(self).next_id,
            match frame_with_id(old(self)@, frame_id) {
                None => !kept && final(self)@ == old(self)@,
                Some(index) => {
                    &&& kept
                    &&& final(self)@ == old(self)@.update(
                        index,
                        FrameView {
                            listeners: old(self)@[index].listeners.push(listener),
                            ..old(self)@[index]
                        },
                    )
                },
            },
    {
        let ghost before = self@;
        match self.position_by_id(frame_id) {
            None => false,
            Some(index) => {
                self.frames[index].listeners.push(listener);
                assert(self@ =~= before.update(
                    index as int,
                    FrameView {
                        listeners: before[index as int].listeners.push(listener),
                        ..before[index as int]
                    },
                ));
                true
            },
        }
    }

    /// Ends the entry of a call. A call whose end no listener waits for is forgotten,
    /// and its return is not intercepted.
    pub fn invocation_finish_enter(&mut self, frame_id: u64) -> (intercept: bool)
        requires
            old(self).wf(),
        ensures
            final(self).wf(),
            final(self).next_id == old(self).next_id,
            match frame_with_id(old(self)@, frame_id) {
                None => !intercept && final(self)@ == old(self)@,
                Some(index) => {
                    &&& intercept == (old(self)@[index].listeners.len() > 0)
                    &&& final(self)@ == if intercept {
                        old(self)@
                    } else {
                        old(self)@.remove(index)
                    }
                },
            },
    {
        let ghost before = self@;
        match self.position_by_id(frame_id) {
            None => false,
            Some(index) => {
                if self.frames[index].listeners.len() == 0 {
                    let _ = self.frames.remove(index);
                    assert(self@ =~= before.remove(index as int));
                    false
                } else {
                    true
                }
            },
        }
    }

    /// Takes the innermost call of a target to end it. Its place on the stack stays
    /// until it has ended, so that calls made meanwhile see the right depth.
    pub fn invocation_take(&mut self, target: u64) -> (taken: Option<InvocationFrame>)
        requires
            old(self).wf(),
        ensures
            final(self).wf(),
            final(self).next_id == old(self).next_id,
            match frame_of_target(old(self)@, target) {
                None => taken is None && final(self)@ == old(self)@,
                Some(index) => {
                    &&& taken matches Some(frame)
                    &&& frame@ == old(self)@[index]
                    &&& final(self)@ == old(self)@.update(
                        index,
                        new_frame(
                            old(self)@[index].id,
                            old(self)@[index].target,
                            old(self)@[index].ctx,
                        ),
                    )
                },
            },
    {
        let ghost before = self@;
        match self.position_by_target(target) {
            None => None,
            Some(index) => {
                let id: u64 = self.frames[index].id;
                let frame_target: u64 = self.frames[index].target;
                let ctx: u64 = self.frames[index].ctx;
                let mut frame: InvocationFrame = InvocationFrame {
                    id,
                    target: frame_target,
                    ctx,
                    listeners: Vec::new(),
                };
                core::mem::swap(&mut self.frames[index], &mut frame);
                assert(self@ =~= before.update(
                    index as int,
                    new_frame(
                        before[index as int].id,
                        before[index as int].target,
                        before[index as int].ctx,
                    ),
                ));
                Some(frame)
            },
        }
    }

    /// Forgets a call that has ended.
    pub fn invocation_end_leave(&mut self, frame_id: u64)
        requires
            old(self).wf(),
        ensures
            final(self).wf(),
            final(self).next_id == old(self).next_id,
            final(self)@ == match frame_with_id(old(self)@, frame_id) {
                None => old(self)@,
                Some(index) => old(self)@.remove(index),
            },
    {
        let ghost before = self@;
        match self.position_by_id(frame_id) {
            None => {},
            Some(index) => {
                let _ = self.frames.remove(index);
                assert(self@ =~= before.remove(index as int));
            },
        }
    }
}

/// Begins the entry of an intercepted call. The result is the script context in which it
/// is seen, if there is such a hook. Its return is not intercepted for now.
pub fn interceptor_context(context: &mut HookContext, target: u64, hook: Option<HookData>) -> (ctx:
    Option<u64>)
    ensures
        *final(context) == if target != 0 {
            HookContext { intercept_leave: false, ..*old(context) }
        } else {
            *old(context)
        },
        ctx == if target != 0 && hook is Some && hook->0.kind == HookKind::Interceptor {
            Some(hook->0.ctx)
        } else {
            None
        },
{
    if target == 0 {
        return None;
    }
    context.intercept_leave = false;
    match hook {
        None => None,
        Some(data) => match data.kind {
            HookKind::Interceptor => Some(data.ctx),
            _ => None,
        },
    }
}

/// The listeners of one context, in order.
pub open spec fn in_context(
    listeners: Seq<InterceptorListenerData>,
    ctx: u64,
) -> Seq<InterceptorListenerData>
    decreases listeners.len(),
{
    if listeners.len() == 0 {
        Seq::empty()
    } else {
        let front = in_context(listeners.drop_last(), ctx);
        if listeners.last().ctx == ctx {
            front.push(listeners.last())
        } else {
            front
        }
    }
}

/// The entry of an intercepted call: which listeners still have to see it.
#[derive(Debug)]
pub struct EnterDispatch {
    pub target: u64,
    pub frame_id: u64,
    pub depth: u32,
    pub listeners: Vec<InterceptorListenerData>,
    pub position: usize,
    /// The error number of the thread; it is restored when the entry ends.
    pub system_error: i32,
}

/// What to do about the next listener.
#[derive(Clone, Copy, Debug)]
pub enum EnterStep {
    /// All listeners have been dealt with.
    Done,
    /// The listener was detached meanwhile: release its functions.
    Skip(InterceptorListenerData),
    /// Call the listener's `onEnter`, if it has one.
    Run(InterceptorListenerData),
}

impl EnterDispatch {
    pub open spec fn wf(&self) -> bool {
        self.position <= self.listeners@.len()
    }

    /// Enters a call. The listeners are those that are attached now; one that a
    /// listener attaches meanwhile does not see this call.
    pub fn attach_on_enter_wrapper(
        registry: &ListenerRegistry,
        stack: &mut InvocationStack,
        target: u64,
        ctx: u64,
        system_error: i32,
    ) -> (dispatch: EnterDispatch)
        requires
            old(stack).wf(),
        ensures
            final(stack).wf(),
            final(stack).next_id == next_invocation_id(old(stack).next_id),
            dispatch.wf(),
            dispatch.position == 0,
            dispatch.target == target,
            dispatch.system_error == system_error,
            dispatch.listeners@ == in_context(listeners_on(registry.listeners@, target), ctx),
            dispatch.frame_id == old(stack).next_id,
            dispatch.frame_id != 0,
            dispatch.depth == if old(stack)@.len() <= u32::MAX {
                old(stack)@.len()
            } else {
                u32::MAX as nat
            },
            final(stack)@ == old(stack)@.push(new_frame(dispatch.frame_id, target, ctx)),
            frame_with_id(final(stack)@, dispatch.frame_id) == Some(old(stack)@.len() as int),
    {
        let all: Vec<InterceptorListenerData> = registry.interceptor_listener_snapshot(target);
        let mut listeners: Vec<InterceptorListenerData> = Vec::new();
        let mut i: usize = 0;
        assert(all@.take(0) =~= Seq::<InterceptorListenerData>::empty());
        while i < all.len()
            invariant
                i <= all@.len(),
                listeners@ == in_context(all@.take(i as int), ctx),
            decreases all@.len() - i,
        {
            assert(all@.take(i + 1).drop_last() =~= all@.take(i as int));
            if all[i].ctx == ctx {
                listeners.push(all[i]);
            }
            i = i + 1;
        }
        assert(all@.take(all@.len() as int) =~= all@);
        let (frame_id, depth) = stack.invocation_begin(target, ctx);
        proof {
            leaving_undoes_entering(old(stack)@, frame_id, target, ctx);
        }
        EnterDispatch { target, frame_id, depth, listeners, position: 0, system_error }
    }

    /// Takes the next listener. One that was detached since the call was entered is
    /// passed over.
    pub fn next(&mut self, registry: &ListenerRegistry) -> (step: EnterStep)
        requires
            old(self).wf(),
        ensures
            final(self).wf(),
            final(self).target == old(self).target,
            final(self).frame_id == old(self).frame_id,
            final(self).depth == old(self).depth,
            final(self).listeners == old(self).listeners,
            final(self).system_error == old(self).system_error,
            if old(self).position == old(self).listeners@.len() {
                step is Done && final(self).position == old(self).position
            } else {
                let listener = old(self).listeners@[old(self).position as int];
                &&& final(self).position == old(self).position + 1
                &&& step == if listening(registry.listeners@, old(self).target, listener.id) {
                    EnterStep::Run(listener)
                } else {
                    EnterStep::Skip(listener)
                }
            },
    {
        if self.position == self.listeners.len() {
            return EnterStep::Done;
        }
        let listener: InterceptorListenerData = self.listeners[self.position];
        self.position = self.position + 1;
        if registry.interceptor_listener_is_active(self.target, listener.id) {
            EnterStep::Run(listener)
        } else {
            EnterStep::Skip(listener)
        }
    }

    /// Takes in that a listener's `onEnter` has returned, and what it did to the
    /// registers. The result says whether its `this` is kept for `onLeave`: only if it
    /// has one and is still attached.
    pub fn entered(
        &mut self,
        registry: &ListenerRegistry,
        stack: &mut InvocationStack,
        context: &mut HookContext,
        registers: &ScriptRegisters,
        listener: InterceptorListenerData,
        this_bytes: [u8; 16],
    ) -> (kept: bool)
        requires
            old(self).wf(),
            old(stack).wf(),
        ensures
            final(stack).wf(),
            final(stack).next_id == old(stack).next_id,
            *final(self) == (EnterDispatch { system_error: script_errno(*registers), ..*old(self) }),
            synced(*old(context), *registers, *final(context)),
            kept == (listener.has_on_leave && listening(
                registry.listeners@,
                old(self).target,
                listener.id,
            ) && frame_with_id(old(stack)@, old(self).frame_id) is Some),
            !kept ==> final(stack)@ == old(stack)@,
            kept ==> {
                let index = frame_with_id(old(stack)@, old(self).frame_id)->0;
                final(stack)@ == old(stack)@.update(
                    index,
                    FrameView {
                        listeners: old(stack)@[index].listeners.push(
                            InvocationListenerState {
                                listener_id: listener.id,
                                this_bytes,
                                on_leave_bytes: listener.on_leave_bytes,
                            },
                        ),
                        ..old(stack)@[index]
                    },
                )
            },
    {
        sync_js_ctx_to_hook_ctx(context, registers);
        self.system_error = errno_left(registers);
        if listener.has_on_leave && registry.interceptor_listener_is_active(
            self.target,
            listener.id,
        ) {
            stack.invocation_append(
                self.frame_id,
                InvocationListenerState {
                    listener_id: listener.id,
                    this_bytes,
                    on_leave_bytes: listener.on_leave_bytes,
                },
            )
        } else {
            false
        }
    }

    /// Ends the entry of the call. Its return is intercepted if a listener waits for it.
    /// The result is the thread's error number.
    pub fn finish(&self, stack: &mut InvocationStack, context: &mut HookContext) -> (errno: i32)
        requires
            old(stack).wf(),
        ensures
            final(stack).wf(),
            final(stack).next_id == old(stack).next_id,
            errno == self.system_error,
            match frame_with_id(old(stack)@, self.frame_id) {
                None => *final(context) == *old(context) && final(stack)@ == old(stack)@,
                Some(index) => if old(stack)@[index].listeners.len() > 0 {
                    &&& *final(context) == (HookContext { intercept_leave: true, ..*old(context) })
                    &&& final(stack)@ == old(stack)@
                } else {
                    &&& *final(context) == *old(context)
                    &&& final(stack)@ == old(stack)@.remove(index)
                },
            },
    {
        if stack.invocation_finish_enter(self.frame_id) {
            context.intercept_leave = true;
        }
        self.system_error
    }
}

/// The end of an intercepted call: which listeners still have to see it.
#[derive(Debug)]
pub struct LeaveDispatch {
    pub frame: InvocationFrame,
    pub position: usize,
    /// The error number of the thread; it is restored when the call has ended.
    pub system_error: i32,
}

/// What to do about the next listener. Its `onLeave` and its `this` are released behind it.
#[derive(Clone, Copy, Debug)]
pub enum LeaveStep {
    /// All listeners have been dealt with.
    Done,
    /// The listener was detached meanwhile.
    Skip(InvocationListenerState),
    /// Call the listener's `onLeave`.
    Run(InvocationListenerState),
}

impl LeaveDispatch {
    pub open spec fn wf(&self) -> bool {
        self.position <= self.frame.listeners@.len()
    }

    /// Ends the innermost call of a target, if one was entered.
    pub fn attach_on_leave_wrapper(stack: &mut InvocationStack, target: u64, system_error: i32) -> (dispatch:
        Option<LeaveDispatch>)
        requires
            old(stack).wf(),
        ensures
            final(stack).wf(),
            final(stack).next_id == old(stack).next_id,
            if target == 0 {
                dispatch is None && final(stack)@ == old(stack)@
            } else {
                match frame_of_target(old(stack)@, target) {
                    None => dispatch is None && final(stack)@ == old(stack)@,
                    Some(index) => {
                        &&& dispatch matches Some(d)
                        &&& d.wf()
                        &&& d.frame@ == old(stack)@[index]
                        &&& d.position == 0
                        &&& d.system_error == system_error
                        &&& final(stack)@ == old(stack)@.update(
                            index,
                            new_frame(
                                old(stack)@[index].id,
                                old(stack)@[index].target,
                                old(stack)@[index].ctx,
                            ),
                        )
                    },
                }
            },
    {
        if target == 0 {
            return None;
        }
        match stack.invocation_take(target) {
            None => None,
            Some(frame) => Some(LeaveDispatch { frame, position: 0, system_error }),
        }
    }

    /// Takes the next listener. Only one that is still attached sees the end of the call.
    pub fn next(&mut self, registry: &ListenerRegistry) -> (step: LeaveStep)
        requires
            old(self).wf(),
        ensures
            final(self).wf(),
            final(self).frame == old(self).frame,
            final(self).system_error == old(self).system_error,
            if old(self).position == old(self).frame.listeners@.len() {
                step is Done && final(self).position == old(self).position
            } else {
                let listener = old(self).frame.listeners@[old(self).position as int];
                &&& final(self).position == old(self).position + 1
                &&& step == if listening(
                    registry.listeners@,
                    old(self).frame.target,
                    listener.listener_id,
                ) {
                    LeaveStep::Run(listener)
                } else {
                    LeaveStep::Skip(listener)
                }
            },
    {
        if self.position == self.frame.listeners.len() {
            return LeaveStep::Done;
        }
        let listener: InvocationListenerState = self.frame.listeners[self.position];
        self.position = self.position + 1;
        if registry.interceptor_listener_is_active(self.frame.target, listener.listener_id) {
            LeaveStep::Run(listener)
        } else {
            LeaveStep::Skip(listener)
        }
    }

    /// Takes in that a listener's `onLeave` has returned, and what it did to the registers.
    pub fn left(&mut self, context: &mut HookContext, registers: &ScriptRegisters)
        requires
            old(self).wf(),
        ensures
            *final(self) == (LeaveDispatch { system_error: script_errno(*registers), ..*old(self) }),
            synced(*old(context), *registers, *final(context)),
    {
        sync_js_ctx_to_hook_ctx(context, registers);
        self.system_error = errno_left(registers);
    }

    /// Forgets the call. The result is the thread's error number.
    pub fn finish(self, stack: &mut InvocationStack) -> (errno: i32)
        requires
            old(stack).wf(),
        ensures
            final(stack).wf(),
            final(stack).next_id == old(stack).next_id,
            errno == self.system_error,
            final(stack)@ == match frame_with_id(old(stack)@, self.frame.id) {
                None => old(stack)@,
                Some(index) => old(stack)@.remove(index),
            },
    {
        stack.invocation_end_leave(self.frame.id);
        self.system_error
    }
}

/// The native functions that see an intercepted call; zero stands for none.
#[derive(Clone, Copy, Debug, PartialEq, Eq, Structural)]
pub struct NativeAttachCallbacks {
    pub on_enter: u64,
    pub on_leave: u64,
    pub user_data: u64,
}

/// A native function that is called with the registers and its own data.
#[derive(Clone, Copy, Debug, PartialEq, Eq, Structural)]
pub struct NativeAttachCall {
    pub function: u64,
    pub user_data: u64,
}

/// The native function that is called when an intercepted call is entered.
pub fn native_attach_on_enter_wrapper(callbacks: &NativeAttachCallbacks) -> (call: Option<
    NativeAttachCall,
>)
    ensures
        call == if callbacks.on_enter != 0 {
            Some(
                NativeAttachCall { function: callbacks.on_enter, user_data: callbacks.user_data },
            )
        } else {
            None
        },
{
    if callbacks.on_enter == 0 {
        return None;
    }
    Some(NativeAttachCall { function: callbacks.on_enter, user_data: callbacks.user_data })
}

/// Ends the native entry of a call: without a function for its return, that is not
/// intercepted.
pub fn native_attach_entered(callbacks: &NativeAttachCallbacks, context: &mut HookContext)
    ensures
        *final(context) == if callbacks.on_leave == 0 {
            HookContext { intercept_leave: false, ..*old(context) }
        } else {
            *old(context)
        },
{
    if callbacks.on_leave == 0 {
        context.intercept_leave = false;
    }
}

/// The native function that is called when an intercepted call returns.
pub fn native_attach_on_leave_wrapper(callbacks: &NativeAttachCallbacks) -> (call: Option<
    NativeAttachCall,
>)
    ensures
        call == if callbacks.on_leave != 0 {
            Some(
                NativeAttachCall { function: callbacks.on_leave, user_data: callbacks.user_data },
            )
        } else {
            None
        },
{
    if callbacks.on_leave == 0 {
        return None;
    }
    Some(NativeAttachCall { function: callbacks.on_leave, user_data: callbacks.user_data })
}

/// The innermost frame of a call is the last one with its context and trampoline.
pub proof fn the_innermost_frame_is_the_last(
    frames: Seq<NativeHookFrame>,
    ctx_ptr: u64,
    trampoline: u64,
)
    ensures
        innermost_frame(frames, ctx_ptr, trampoline) matches Some(at) ==> {
            &&& 0 <= at < frames.len()
            &&& frames[at].ctx_ptr == ctx_ptr && frames[at].trampoline == trampoline
            &&& forall|i: int|
                at < i < frames.len() ==> !((#[trigger] frames[i]).ctx_ptr == ctx_ptr
                    && frames[i].trampoline == trampoline)
        },
        innermost_frame(frames, ctx_ptr, trampoline) is None ==> forall|i: int|
            0 <= i < frames.len() ==> !((#[trigger] frames[i]).ctx_ptr == ctx_ptr
                && frames[i].trampoline == trampoline),
    decreases frames.len(),
{
    if frames.len() > 0 {
        let front = frames.drop_last();
        the_innermost_frame_is_the_last(front, ctx_ptr, trampoline);
        assert(forall|i: int| 0 <= i < front.len() ==> #[trigger] frames[i] == front[i]);
    }
}

/// Frames are found from the inside: the last one with the id, and the last one of the
/// target.
pub proof fn frames_are_found_from_the_inside(frames: Seq<FrameView>, id: u64, target: u64)
    ensures
        frame_with_id(frames, id) matches Some(at) ==> {
            &&& 0 <= at < frames.len()
            &&& frames[at].id == id
            &&& forall|i: int| at < i < frames.len() ==> (#[trigger] frames[i]).id != id
        },
        frame_of_target(frames, target) matches Some(at) ==> {
            &&& 0 <= at < frames.len()
            &&& frames[at].target == target
            &&& forall|i: int| at < i < frames.len() ==> (#[trigger] frames[i]).target != target
        },
        frame_with_id(frames, id) is None ==> forall|i: int|
            0 <= i < frames.len() ==> (#[trigger] frames[i]).id != id,
        frame_of_target(frames, target) is None ==> forall|i: int|
            0 <= i < frames.len() ==> (#[trigger] frames[i]).target != target,
    decreases frames.len(),
{
    if frames.len() > 0 {
        let front = frames.drop_last();
        frames_are_found_from_the_inside(front, id, target);
        assert(forall|i: int| 0 <= i < front.len() ==> #[trigger] frames[i] == front[i]);
    }
}

/// The listeners that see a call are those of its context, in the order in which they were
/// attached.
pub proof fn listeners_of_other_contexts_are_left_out(
    listeners: Seq<InterceptorListenerData>,
    ctx: u64,
)
    ensures
        in_context(listeners, ctx) == listeners.filter(|l: InterceptorListenerData| l.ctx == ctx),
    decreases listeners.len(),
{
    reveal(Seq::filter);
    if listeners.len() > 0 {
        listeners_of_other_contexts_are_left_out(listeners.drop_last(), ctx);
    }
}

/// Numbers of calls go up by one and never become zero; what a script writes to a register
/// arrives in that register, and the error number keeps its low bits.
pub proof fn registers_arrive_where_they_are_written(
    before: HookContext,
    registers: ScriptRegisters,
    after: HookContext,
    id: u64,
)
    requires
        synced(before, registers, after),
    ensures
        after.x@[0] == registers.x@[0],
        after.x@[28] == registers.x@[28],
        after.x@[29] == registers.fp,
        after.x@[30] == registers.lr,
        after.sp == registers.sp,
        after.pc == registers.pc,
        after.nzcv == registers.nzcv,
        forall|i: int| 0 <= i < 29 ==> #[trigger] after.x@[i] == registers.x@[i],
        forall|i: int|
            0 <= i < 8 && registers.d@[i] is Some ==> #[trigger] after.d@[i]
                == registers.d@[i]->0,
        forall|i: int|
            0 <= i < 8 && registers.d@[i] is None ==> #[trigger] after.d@[i] == before.d@[i],
        registers.errno matches Some(value) ==> (-0x8000_0000 <= value <= 0x7fff_ffff
            ==> script_errno(registers) == value),
        registers.errno is None ==> script_errno(registers) == 0,
        next_invocation_id(id) != 0,
        id < u64::MAX ==> next_invocation_id(id) == id + 1,
{
}

} // verus!
