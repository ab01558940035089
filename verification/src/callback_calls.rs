//! How a native function that calls into a script is made, and what a call of it does.

use crate::native_callback::{
    argument_kinds, argument_value, argument_value_of, callback_type, construct_error,
    construct_signature, location_exists, nonzero_id, planned, raw_argument, thunk_of, word_in,
    AbiArgument, ArgumentPlan, NativeCallbackData, NativeCallbackFrame, NativeCallbackRegistry,
    NativeValue, ReleasedCallback, ScalarKind,
};
use crate::native_ffi::{
    plan_size, read_value, reads, FfiValue, NativeFfiSignature, FFI_CLOSURE_SIZE_ARM64,
};
use crate::script::{joined, ErrorKind, ScriptError, ScriptType};
use vstd::prelude::*;
use vstd::string::*;

verus! {

/// The page of a callback's entry on its way.
#[derive(Debug)]
pub enum ThunkAllocation {
    /// The system maps that many bytes that can be written.
    Mapping { size: u64 },
    /// The code has been written; the system makes it executable.
    Protecting { start: u64, size: u64 },
    /// The page is given back, for the reason.
    Unmapping { start: u64, size: u64, reason: String },
    Ready { start: u64, size: u64 },
    Failed { reason: String },
}

/// Begins the page of an entry. A size that is not positive stands for one that the
/// system does not tell.
pub fn allocate_thunk(page_size: i64) -> (allocation: ThunkAllocation)
    ensures
        page_size > 0 ==> allocation == (ThunkAllocation::Mapping { size: page_size as u64 }),
        page_size <= 0 ==> {
            &&& allocation is Failed
            &&& allocation->Failed_reason@ == "unable to query page size"@
        },
{
    if page_size <= 0 {
        return ThunkAllocation::Failed { reason: String::from_str("unable to query page size") };
    }
    ThunkAllocation::Mapping { size: page_size as u64 }
}

impl ThunkAllocation {
    /// Takes in the system's answer: the start of the page while it is mapped, or the
    /// system's reason. A page that cannot be made executable is given back.
    pub fn advance(self, answer: Result<u64, String>) -> (next: ThunkAllocation)
        ensures
            match self {
                ThunkAllocation::Mapping { size } => match answer {
                    Ok(start) => next == (ThunkAllocation::Protecting { start, size }),
                    Err(error) => next is Failed && next->Failed_reason@ == "mmap failed: "@
                        + error@,
                },
                ThunkAllocation::Protecting { start, size } => match answer {
                    Ok(_) => next == (ThunkAllocation::Ready { start, size }),
                    Err(error) => {
                        &&& next is Unmapping
                        &&& next->Unmapping_start == start
                        &&& next->Unmapping_size == size
                        &&& next->Unmapping_reason@ == "mprotect RX failed: "@ + error@
                    },
                },
                ThunkAllocation::Unmapping { reason, .. } => next == (ThunkAllocation::Failed {
                    reason,
                }),
                _ => next == self,
            },
    {
        match self {
            ThunkAllocation::Mapping { size } => match answer {
                Ok(start) => ThunkAllocation::Protecting { start, size },
                Err(error) => ThunkAllocation::Failed {
                    reason: joined("mmap failed: ", error.as_str()),
                },
            },
            ThunkAllocation::Protecting { start, size } => match answer {
                Ok(_) => ThunkAllocation::Ready { start, size },
                Err(error) => ThunkAllocation::Unmapping {
                    start,
                    size,
                    reason: joined("mprotect RX failed: ", error.as_str()),
                },
            },
            ThunkAllocation::Unmapping { reason, .. } => ThunkAllocation::Failed { reason },
            ThunkAllocation::Ready { start, size } => ThunkAllocation::Ready { start, size },
            ThunkAllocation::Failed { reason } => ThunkAllocation::Failed { reason },
        }
    }
}

/// An entry of the foreign-function library on its way.
#[derive(Debug)]
pub enum ClosureAllocation {
    /// The library allocates that many bytes for the closure.
    Allocating { size: usize },
    /// The library binds the closure to its callback.
    Preparing { closure: u64, code: u64 },
    /// The closure is given back, for the reason.
    Freeing { closure: u64, reason: String },
    Ready { closure: u64, code: u64 },
    Failed { reason: String },
}

/// Begins an entry of the foreign-function library: says how large a closure it is asked
/// for.
pub fn allocate_callback_closure() -> (allocation: ClosureAllocation)
    ensures
        allocation == (ClosureAllocation::Allocating { size: FFI_CLOSURE_SIZE_ARM64 }),
        FFI_CLOSURE_SIZE_ARM64 == 48,
{
    ClosureAllocation::Allocating { size: FFI_CLOSURE_SIZE_ARM64 }
}

impl ClosureAllocation {
    /// Takes in what the library allocated, the closure and the address of its code; zero
    /// stands for nothing.
    pub fn allocated(self, closure: u64, code: u64) -> (next: ClosureAllocation)
        ensures
            match self {
                ClosureAllocation::Allocating { .. } => if closure != 0 && code != 0 {
                    next == (ClosureAllocation::Preparing { closure, code })
                } else {
                    &&& next is Failed
                    &&& next->Failed_reason@ == "failed to allocate closure"@
                },
                _ => next == self,
            },
    {
        match self {
            ClosureAllocation::Allocating { .. } => {
                if closure == 0 || code == 0 {
                    return ClosureAllocation::Failed {
                        reason: String::from_str("failed to allocate closure"),
                    };
                }
                ClosureAllocation::Preparing { closure, code }
            },
            other => other,
        }
    }

    /// Takes in whether the library did what was asked. A closure that it could not bind
    /// is given back.
    pub fn advance(self, done: bool) -> (next: ClosureAllocation)
        ensures
            match self {
                ClosureAllocation::Preparing { closure, code } => if done {
                    next == (ClosureAllocation::Ready { closure, code })
                } else {
                    &&& next is Freeing
                    &&& next->Freeing_closure == closure
                    &&& next->Freeing_reason@ == "failed to prepare closure"@
                },
                ClosureAllocation::Freeing { reason, .. } => next == (ClosureAllocation::Failed {
                    reason,
                }),
                _ => next == self,
            },
    {
        match self {
            ClosureAllocation::Preparing { closure, code } => {
                if done {
                    ClosureAllocation::Ready { closure, code }
                } else {
                    ClosureAllocation::Freeing {
                        closure,
                        reason: String::from_str("failed to prepare closure"),
                    }
                }
            },
            ClosureAllocation::Freeing { reason, .. } => ClosureAllocation::Failed { reason },
            other => other,
        }
    }
}

/// A page that is given back.
#[derive(Clone, Copy, Debug, PartialEq, Eq, Structural)]
pub struct MappedEntry {
    pub start: u64,
    pub size: u64,
}

/// What has to be undone of a callback that was not published.
#[derive(Clone, Copy, Debug, PartialEq, Eq, Structural)]
pub struct DestroyedCallback {
    pub released: Option<ReleasedCallback>,
    pub unmapped: Option<MappedEntry>,
}

/// What an unpublished callback holds.
pub open spec fn held_by(data: NativeCallbackData) -> DestroyedCallback {
    DestroyedCallback {
        released: if data.callback_alive {
            Some(ReleasedCallback { context: data.context, callback: data.callback })
        } else {
            None
        },
        unmapped: if data.thunk != 0 && data.mapping_size != 0 {
            Some(MappedEntry { start: data.thunk, size: data.mapping_size })
        } else {
            None
        },
    }
}

/// Undoes a callback that was not published.
pub fn destroy_unpublished_callback(data: NativeCallbackData) -> (destroyed: DestroyedCallback)
    ensures
        destroyed == held_by(data),
{
    DestroyedCallback {
        released: if data.callback_alive {
            Some(ReleasedCallback { context: data.context, callback: data.callback })
        } else {
            None
        },
        unmapped: if data.thunk != 0 && data.mapping_size != 0 {
            Some(MappedEntry { start: data.thunk, size: data.mapping_size })
        } else {
            None
        },
    }
}

/// Begins a callback: checks the arguments of the constructor and gives it an id. The
/// callback holds the script function from here on; it has no entry yet.
pub fn js_native_callback_construct(
    registry: &mut NativeCallbackRegistry,
    argument_count: usize,
    is_function: bool,
    abi: &AbiArgument,
    return_type: &ScriptType,
    arguments: &ScriptType,
    context: u64,
    callback: u64,
) -> (result: Result<NativeCallbackData, ScriptError>)
    ensures
        ({
            let problem = construct_error(
                argument_count,
                is_function,
                *abi,
                *return_type,
                *arguments,
            );
            &&& final(registry).live == old(registry).live
            &&& final(registry).retired == old(registry).retired
            &&& result is Err <==> problem is Some
            &&& result matches Err(error) ==> Some(error@) == problem && final(registry).next_id
                == old(registry).next_id
            &&& result matches Ok(data) ==> {
                &&& data.id == nonzero_id(old(registry).next_id)
                &&& final(registry).next_id == if data.id == u64::MAX {
                    0
                } else {
                    (data.id + 1) as u64
                }
                &&& data.context == context
                &&& data.callback == callback
                &&& data.callback_alive
                &&& data.active
                &&& data.thunk == 0
                &&& data.mapping_size == 0
                &&& callback_type(*return_type, "return"@, true) == Ok::<
                    ScalarKind,
                    (ErrorKind, Seq<char>),
                >(data.signature.return_kind)
                &&& data.signature.arguments@ == planned(argument_kinds(arguments->List_0@))
            }
        }),
{
    match construct_signature(argument_count, is_function, abi, return_type, arguments) {
        Err(error) => Err(error),
        Ok(signature) => {
            let id: u64 = registry.next_callback_id();
            Ok(
                NativeCallbackData {
                    id,
                    context,
                    callback,
                    callback_alive: true,
                    signature,
                    thunk: 0,
                    mapping_size: 0,
                    active: true,
                },
            )
        },
    }
}

/// Why a callback was not made, and what has to be undone.
#[derive(Debug)]
pub struct ConstructFailure {
    pub error: ScriptError,
    pub destroyed: DestroyedCallback,
}

/// Gives a callback its entry, or undoes it where there is none.
pub fn entry_allocated(data: NativeCallbackData, allocation: Result<MappedEntry, String>) -> (result:
    Result<NativeCallbackData, ConstructFailure>)
    ensures
        match allocation {
            Ok(entry) => result == Ok::<NativeCallbackData, ConstructFailure>(
                NativeCallbackData { thunk: entry.start, mapping_size: entry.size, ..data },
            ),
            Err(reason) => {
                &&& result is Err
                &&& result->Err_0.error@ == (
                    ErrorKind::InternalError,
                    "NativeCallback: "@ + reason@,
                )
                &&& result->Err_0.destroyed == held_by(data)
            },
        },
{
    match allocation {
        Ok(entry) => {
            let mut made: NativeCallbackData = data;
            made.thunk = entry.start;
            made.mapping_size = entry.size;
            Ok(made)
        },
        Err(reason) => {
            let error: ScriptError = ScriptError {
                kind: ErrorKind::InternalError,
                message: joined("NativeCallback: ", reason.as_str()),
            };
            Err(ConstructFailure { error, destroyed: destroy_unpublished_callback(data) })
        },
    }
}

/// Publishes a callback whose script object exists, or undoes it where the engine could
/// not make one. The result is the id that the object stands for.
pub fn object_created(registry: &mut NativeCallbackRegistry, data: NativeCallbackData, created: bool) -> (result:
    Result<u64, DestroyedCallback>)
    ensures
        final(registry).retired == old(registry).retired,
        final(registry).next_id == old(registry).next_id,
        created ==> {
            &&& result == Ok::<u64, DestroyedCallback>(data.id)
            &&& final(registry).live@ == old(registry).live@.push(data)
            &&& thunk_of(final(registry).live@, data.id) == Some(data.thunk)
        },
        !created ==> {
            &&& result == Err::<u64, DestroyedCallback>(held_by(data))
            &&& final(registry).live == old(registry).live
        },
{
    if created {
        let id: u64 = data.id;
        registry.publish(data);
        Ok(id)
    } else {
        Err(destroy_unpublished_callback(data))
    }
}

/// How far a call of a callback has come.
#[derive(Clone, Copy, Debug, PartialEq, Eq, Structural)]
pub enum CallPhase {
    /// The script's engine is entered.
    Entering,
    /// The callback may have been cut meanwhile.
    Entered,
    /// The script function runs.
    Running,
    /// The script function has returned and its result is stored.
    Storing,
    Finished,
}

/// A call of a callback.
#[derive(Clone, Copy, Debug, PartialEq, Eq, Structural)]
pub struct CallbackCall {
    pub id: u64,
    pub context: u64,
    pub callback: u64,
    /// The thread's error number when the script function was called.
    pub saved_error: i32,
    pub phase: CallPhase,
}

/// Begins a call of a callback. Nothing happens if it has been cut or its script is gone.
pub fn invoke_native_callback(data: &NativeCallbackData) -> (call: Option<CallbackCall>)
    ensures
        call == if data.active && data.callback_alive {
            Some(
                CallbackCall {
                    id: data.id,
                    context: data.context,
                    callback: data.callback,
                    saved_error: 0,
                    phase: CallPhase::Entering,
                },
            )
        } else {
            None
        },
{
    if !data.active || !data.callback_alive {
        return None;
    }
    Some(
        CallbackCall {
            id: data.id,
            context: data.context,
            callback: data.callback,
            saved_error: 0,
            phase: CallPhase::Entering,
        },
    )
}

impl CallbackCall {
    /// Takes in whether the script's engine could be entered.
    pub fn engine_entered(&mut self, entered: bool)
        requires
            old(self).phase == CallPhase::Entering,
        ensures
            *final(self) == (CallbackCall {
                phase: if entered {
                    CallPhase::Entered
                } else {
                    CallPhase::Finished
                },
                ..*old(self)
            }),
    {
        self.phase = if entered {
            CallPhase::Entered
        } else {
            CallPhase::Finished
        };
    }

    /// Calls the script function, unless the callback was cut while the engine was
    /// entered. `errno` is the thread's error number.
    pub fn run(&mut self, active: bool, errno: i32)
        requires
            old(self).phase == CallPhase::Entered,
        ensures
            *final(self) == if active {
                CallbackCall { phase: CallPhase::Running, saved_error: errno, ..*old(self) }
            } else {
                CallbackCall { phase: CallPhase::Finished, ..*old(self) }
            },
    {
        if active {
            self.saved_error = errno;
            self.phase = CallPhase::Running;
        } else {
            self.phase = CallPhase::Finished;
        }
    }

    /// Takes in whether the script function threw. The result is the thread's error
    /// number, if it is settled.
    pub fn returned(&mut self, threw: bool) -> (errno: Option<i32>)
        requires
            old(self).phase == CallPhase::Running,
        ensures
            *final(self) == (CallbackCall {
                phase: if threw {
                    CallPhase::Finished
                } else {
                    CallPhase::Storing
                },
                ..*old(self)
            }),
            errno == if threw {
                Some(old(self).saved_error)
            } else {
                None
            },
    {
        if threw {
            self.phase = CallPhase::Finished;
            Some(self.saved_error)
        } else {
            self.phase = CallPhase::Storing;
            None
        }
    }

    /// Takes in whether the result could be stored, and the error number that the script
    /// left, if it is one. The result is the thread's error number: what the script left,
    /// or the one from before the call.
    pub fn stored(&mut self, stored: bool, script_errno: Option<i64>) -> (errno: i32)
        requires
            old(self).phase == CallPhase::Storing,
        ensures
            *final(self) == (CallbackCall { phase: CallPhase::Finished, ..*old(self) }),
            errno == match script_errno {
                Some(value) if stored => value as i32,
                _ => old(self).saved_error,
            },
    {
        self.phase = CallPhase::Finished;
        if stored {
            match script_errno {
                Some(value) => value as i32,
                None => self.saved_error,
            }
        } else {
            self.saved_error
        }
    }
}

/// The arguments that a script function is called with.
pub fn native_callback_dispatch(
    frame: &NativeCallbackFrame,
    stack: &[u64],
    arguments: &Vec<ArgumentPlan>,
) -> (values: Vec<NativeValue>)
    requires
        forall|i: int|
            0 <= i < arguments@.len() ==> location_exists(
                (#[trigger] arguments@[i]).location,
                stack@.len(),
            ),
    ensures
        values@.len() == arguments@.len(),
        forall|i: int|
            0 <= i < values@.len() ==> #[trigger] values@[i] == argument_value_of(
                word_in(*frame, stack@, arguments@[i].location),
                arguments@[i].kind,
            ),
{
    let mut values: Vec<NativeValue> = Vec::new();
    let mut i: usize = 0;
    while i < arguments.len()
        invariant
            i <= arguments@.len(),
            values@.len() == i,
            forall|k: int|
                0 <= k < arguments@.len() ==> location_exists(
                    (#[trigger] arguments@[k]).location,
                    stack@.len(),
                ),
            forall|k: int|
                0 <= k < i ==> #[trigger] values@[k] == argument_value_of(
                    word_in(*frame, stack@, arguments@[k].location),
                    arguments@[k].kind,
                ),
        decreases arguments@.len() - i,
    {
        let argument: ArgumentPlan = arguments[i];
        let raw: u64 = raw_argument(frame, stack, argument);
        values.push(argument_value(raw, argument.kind));
        i = i + 1;
    }
    values
}

/// A call that came through the foreign-function library.
#[derive(Debug)]
pub struct FfiDispatch {
    /// The result until the script gives one.
    pub result: Vec<u8>,
    pub arguments: Vec<FfiValue>,
}

/// The arguments of a call that came through the foreign-function library, each in its
/// own piece of memory. The result begins as zeros.
pub fn native_callback_ffi_dispatch(signature: &NativeFfiSignature, arguments: &Vec<Vec<u8>>) -> (dispatch:
    FfiDispatch)
    requires
        arguments@.len() == signature.arguments@.len(),
        plan_size(signature.return_type) <= usize::MAX,
        forall|i: int|
            0 <= i < arguments@.len() ==> plan_size(signature.arguments@[i]) <= (
            #[trigger] arguments@[i])@.len(),
    ensures
        dispatch.result@ == Seq::new(plan_size(signature.return_type), |i: int| 0u8),
        dispatch.arguments@.len() == arguments@.len(),
        forall|i: int|
            0 <= i < arguments@.len() ==> reads(
                signature.arguments@[i],
                arguments@[i]@,
                #[trigger] dispatch.arguments@[i],
            ),
{
    let size: usize = signature.return_type.size();
    let mut result: Vec<u8> = Vec::new();
    while result.len() < size
        invariant
            result@.len() <= size,
            forall|k: int| 0 <= k < result@.len() ==> #[trigger] result@[k] == 0,
        decreases size - result@.len(),
    {
        result.push(0);
    }
    assert(result@ =~= Seq::new(plan_size(signature.return_type), |i: int| 0u8));
    let mut values: Vec<FfiValue> = Vec::new();
    let mut i: usize = 0;
    while i < arguments.len()
        invariant
            i <= arguments@.len(),
            arguments@.len() == signature.arguments@.len(),
            values@.len() == i,
            forall|k: int|
                0 <= k < arguments@.len() ==> plan_size(signature.arguments@[k]) <= (
                #[trigger] arguments@[k])@.len(),
            forall|k: int|
                0 <= k < i ==> reads(
                    signature.arguments@[k],
                    arguments@[k]@,
                    #[trigger] values@[k],
                ),
        decreases arguments@.len() - i,
    {
        assert(plan_size(signature.arguments@[i as int]) <= arguments@[i as int]@.len());
        values.push(read_value(&signature.arguments[i], arguments[i].as_slice()));
        i = i + 1;
    }
    FfiDispatch { result, arguments: values }
}

/// A callback that was not published gives back its script function if it still holds one,
/// and its code if that is mapped.
pub proof fn unpublished_callbacks_give_back_what_they_hold(data: NativeCallbackData)
    ensures
        held_by(data).released is Some <==> data.callback_alive,
        held_by(data).released matches Some(function) ==> function.context == data.context
            && function.callback == data.callback,
        held_by(data).unmapped is Some <==> data.thunk != 0 && data.mapping_size != 0,
        held_by(data).unmapped matches Some(entry) ==> entry.start == data.thunk && entry.size
            == data.mapping_size,
{
}

} // verus!
