//! Which threads are followed, and what the tracing engine is asked to do about it.
//!
//! Every operation of the backend is a step from the recorded state to the next
//! one, together with what the embedder has to ask of the tracing engine. What the
//! engine answers comes in as an argument.

use crate::events::{
    interval_nanos, pushed, record_bytes, Event, StalkerEventBatch, StalkerFollowConfig,
    StalkerTraceStatistics, TraceBuffer, LATEST_NOW, VALID_EVENT_MASK,
};
use crate::sorting::{stable_sort, stable_sorted, SortKey};
use crate::text::{numeral, prefixed_hex, push_numeral, push_prefixed_hex};
use std::collections::{HashMap, HashSet};
use vstd::prelude::*;
use vstd::string::*;

verus! {

broadcast use vstd::std_specs::hash::group_hash_axioms;

/// Events that a trace holds if nothing else is asked for.
pub const DEFAULT_QUEUE_CAPACITY: u32 = 16_384;

/// Milliseconds between drains if nothing else is asked for.
pub const DEFAULT_QUEUE_DRAIN_INTERVAL: u32 = 250;

/// Where the backend stands between its start and its end.
#[derive(Clone, Copy, Debug, PartialEq, Eq, Structural)]
pub enum StalkerLifecycle {
    Ready,
    ShuttingDown,
    /// A shutdown gave up; what it could not release is kept.
    Retained,
    Stopped,
}

/// A probe that a script has put on a function.
#[derive(Clone, Copy, Debug, PartialEq, Eq, Structural)]
pub struct ActiveCallProbe {
    pub id: u32,
    pub gum_id: u32,
    pub target_address: u64,
    pub state: Option<CallProbeState>,
}

/// What the callback of a scripted probe refers to.
#[derive(Clone, Copy, Debug, PartialEq, Eq, Structural)]
pub struct CallProbeState {
    pub id: u32,
    pub context: u64,
}

/// The mapping that owned a probe target when its anchor was installed. After an
/// unload the same address can be handed to a different module.
#[derive(Debug)]
pub struct AnchorModuleIdentity {
    pub base: u64,
    pub path: String,
}

impl AnchorModuleIdentity {
    pub open spec fn view(&self) -> (u64, Seq<char>) {
        (self.base, self.path@)
    }
}

/// A probe that keeps the code of a probed function stable while user probes on it
/// come and go.
#[derive(Debug)]
pub struct CallProbeAnchor {
    pub address: u64,
    pub gum_id: u32,
    pub module: Option<AnchorModuleIdentity>,
}

/// A request for a probe. A native probe has a callback address; a scripted one has
/// zero there, and a context.
#[derive(Clone, Copy, Debug, PartialEq, Eq, Structural)]
pub struct StalkerCallProbeConfig {
    pub id: u32,
    pub target_address: u64,
    pub context: u64,
    pub native_callback: u64,
    pub native_data: u64,
}

/// The state behind the backend while it runs.
pub struct StalkerRuntime {
    /// Traces of followed threads, one for each thread.
    pub active: Vec<TraceBuffer>,
    /// Threads that execute inside the tracing engine.
    pub execution_active: HashSet<u64>,
    /// How many native calls each thread is inside of.
    pub native_call_depth: HashMap<u64, u64>,
    /// Threads that will be followed once they leave the script.
    pub pending: HashMap<u64, StalkerFollowConfig>,
    /// Traces of threads that are followed no longer.
    pub retired: Vec<TraceBuffer>,
    pub call_probes: Vec<ActiveCallProbe>,
    pub call_probe_anchors: Vec<CallProbeAnchor>,
    pub retired_call_probes: Vec<CallProbeState>,
    /// How many events the traces that are gone have dropped.
    pub dropped_before: u64,
}

/// The slot that holds the runtime.
pub struct StalkerRuntimeSlot {
    pub lifecycle: StalkerLifecycle,
    pub runtime: Option<StalkerRuntime>,
    /// How many events the runtimes that are gone have dropped; while there is a runtime,
    /// that counts them too.
    pub dropped_before: u64,
}

/// How a shutdown begins.
pub enum ShutdownStart {
    Started(Option<StalkerRuntime>),
    AlreadyStopped,
}

/// Callback and data of a sink in native code.
#[derive(Clone, Copy, Debug, PartialEq, Eq, Structural)]
pub struct NativeSink {
    pub callback: u64,
    pub data: u64,
}

/// What the embedder asks of the tracing engine to follow a thread.
#[derive(Clone, Copy, Debug, PartialEq, Eq, Structural)]
pub struct FollowPlan {
    pub thread_id: u64,
    /// Whether the thread is the one that asks.
    pub current: bool,
    pub event_mask: u32,
    pub transform: bool,
    pub context: u64,
    /// The native sink; `None` for the trace's own queue.
    pub native_sink: Option<NativeSink>,
    /// Whether the periodic drain worker has to run.
    pub start_worker: bool,
}

/// What follows from a request to follow a thread.
#[derive(Clone, Copy, Debug, PartialEq, Eq, Structural)]
pub enum FollowDecision {
    /// The thread is the current one and starts being followed later.
    Deferred,
    Start(FollowPlan),
}

/// What follows from entering a native call on a followed thread.
#[derive(Clone, Copy, Debug, PartialEq, Eq, Structural)]
pub struct ActivateDecision {
    /// Whether the thread is followed at all.
    pub followed: bool,
    /// Whether the engine has to be activated for this thread.
    pub activate: bool,
}

/// What has to be done about the anchor of a probe target.
#[derive(Clone, Copy, Debug, PartialEq, Eq, Structural)]
pub enum AnchorDecision {
    Keep,
    Add,
    /// Remove the probe with this engine id, then add an anchor.
    Replace(u32),
}

/// Counters of the backend.
#[derive(Debug)]
pub struct StalkerStatistics {
    pub dropped_events: u64,
    pub active_traces: u64,
    pub pending_traces: u64,
    pub retired_traces: u64,
    pub active_call_probes: u64,
    pub retired_call_probes: u64,
    pub call_probe_anchors: u64,
    pub traces: Vec<StalkerTraceStatistics>,
}

impl SortKey for StalkerTraceStatistics {
    open spec fn sort_key(&self) -> u64 {
        self.thread_id
    }

    fn key(&self) -> (key: u64) {
        self.thread_id
    }
}

/// Why the backend cannot be used in a given part of its life.
pub open spec fn not_ready_message(lifecycle: StalkerLifecycle) -> Seq<char> {
    match lifecycle {
        StalkerLifecycle::ShuttingDown => "Stalker is shutting down"@,
        StalkerLifecycle::Retained => "Stalker shutdown is incomplete"@,
        _ => "Stalker backend is stopped"@,
    }
}

impl Default for StalkerRuntimeSlot {
    fn default() -> (slot: StalkerRuntimeSlot)
        ensures
            slot.lifecycle == StalkerLifecycle::Ready,
            slot.runtime is None,
            slot.dropped_before == 0,
            slot.wf(),
    {
        StalkerRuntimeSlot { lifecycle: StalkerLifecycle::Ready, runtime: None, dropped_before: 0 }
    }
}

/// Whether some trace in a list belongs to the thread.
pub open spec fn traced(traces: Seq<TraceBuffer>, thread_id: u64) -> bool {
    exists|i: int| 0 <= i < traces.len() && (#[trigger] traces[i]).thread_id == thread_id
}

/// Whether no thread occurs twice in a list of traces.
pub open spec fn one_trace_each(traces: Seq<TraceBuffer>) -> bool {
    forall|i: int, j: int|
        #![trigger traces[i], traces[j]]
        0 <= i < j < traces.len() ==> traces[i].thread_id != traces[j].thread_id
}

/// Whether some probe has the id.
pub open spec fn has_probe(probes: Seq<ActiveCallProbe>, id: u32) -> bool {
    exists|i: int| 0 <= i < probes.len() && (#[trigger] probes[i]).id == id
}

/// Whether some probe is on the address.
pub open spec fn probed(probes: Seq<ActiveCallProbe>, address: u64) -> bool {
    exists|i: int| 0 <= i < probes.len() && (#[trigger] probes[i]).target_address == address
}

/// Whether some anchor is on the address.
pub open spec fn anchored(anchors: Seq<CallProbeAnchor>, address: u64) -> bool {
    exists|i: int| 0 <= i < anchors.len() && (#[trigger] anchors[i]).address == address
}

impl StalkerRuntime {
    /// What holds of the records of traces and probes at any time.
    pub open spec fn wf(&self) -> bool {
        &&& forall|i: int| 0 <= i < self.active.len() ==> (#[trigger] self.active[i]).wf()
        &&& forall|i: int| 0 <= i < self.retired.len() ==> (#[trigger] self.retired[i]).wf()
        &&& one_trace_each(self.active@)
        &&& forall|i: int, j: int|
            #![trigger self.call_probes[i], self.call_probes[j]]
            0 <= i < j < self.call_probes.len() ==> self.call_probes[i].id != self.call_probes[j].id
        &&& forall|i: int, j: int|
            #![trigger self.call_probe_anchors[i], self.call_probe_anchors[j]]
            0 <= i < j < self.call_probe_anchors.len() ==> self.call_probe_anchors[i].address
                != self.call_probe_anchors[j].address
        &&& forall|thread_id: u64| #[trigger]
            self.pending@.contains_key(thread_id) ==> self.pending@[thread_id].thread_id
                == thread_id
    }

    /// What holds in addition while the backend is ready: a thread is followed or
    /// waits to be, not both; only followed threads execute inside the engine; and a
    /// thread that is inside a native call executes inside the engine.
    pub open spec fn consistent(&self) -> bool {
        &&& self.wf()
        &&& forall|thread_id: u64| #[trigger]
            self.pending@.contains_key(thread_id) ==> !traced(self.active@, thread_id)
        &&& forall|thread_id: u64| #[trigger]
            self.execution_active@.contains(thread_id) ==> traced(self.active@, thread_id)
        &&& forall|thread_id: u64| #[trigger]
            self.native_call_depth@.contains_key(thread_id) ==> {
                &&& self.execution_active@.contains(thread_id)
                &&& self.native_call_depth@[thread_id] >= 1
            }
    }

    /// Whether nothing but the traces and the sets of threads differs.
    pub open spec fn same_probes(&self, other: &StalkerRuntime) -> bool {
        &&& self.call_probes@ == other.call_probes@
        &&& self.call_probe_anchors@ == other.call_probe_anchors@
        &&& self.retired_call_probes@ == other.retired_call_probes@
        &&& self.dropped_before == other.dropped_before
    }

    /// Whether nothing but the probes differs.
    pub open spec fn same_threads(&self, other: &StalkerRuntime) -> bool {
        &&& self.active@ == other.active@
        &&& self.execution_active@ == other.execution_active@
        &&& self.native_call_depth@ == other.native_call_depth@
        &&& self.pending@ == other.pending@
        &&& self.retired@ == other.retired@
        &&& self.dropped_before == other.dropped_before
    }

    /// How many events have been dropped: by the followed threads, by those that are
    /// followed no longer, and by traces that are gone.
    pub open spec fn dropped(&self) -> nat {
        capped(total_dropped(self.active@) + total_dropped(self.retired@) + self.dropped_before as nat)
    }

    /// How many events have been dropped.
    pub fn dropped_events(&self) -> (dropped: u64)
        ensures
            dropped == self.dropped(),
    {
        sum_dropped(&self.active).saturating_add(sum_dropped(&self.retired)).saturating_add(
            self.dropped_before,
        )
    }

    /// Lets the retired traces go. What they have dropped stays counted.
    pub fn forget_retired(&mut self)
        requires
            old(self).wf(),
        ensures
            final(self).wf(),
            old(self).consistent() ==> final(self).consistent(),
            final(self).retired@ == Seq::<TraceBuffer>::empty(),
            final(self).dropped_before == capped(
                total_dropped(old(self).retired@) + old(self).dropped_before as nat,
            ),
            final(self).dropped() == old(self).dropped(),
            final(self).active@ == old(self).active@,
            final(self).execution_active@ == old(self).execution_active@,
            final(self).native_call_depth@ == old(self).native_call_depth@,
            final(self).pending@ == old(self).pending@,
            final(self).call_probes@ == old(self).call_probes@,
            final(self).call_probe_anchors@ == old(self).call_probe_anchors@,
            final(self).retired_call_probes@ == old(self).retired_call_probes@,
    {
        self.dropped_before = sum_dropped(&self.retired).saturating_add(self.dropped_before);
        self.retired.clear();
    }

    /// A runtime that follows nothing. Earlier ones have dropped `dropped_before` events.
    pub fn new(dropped_before: u64) -> (runtime: StalkerRuntime)
        ensures
            runtime.dropped_before == dropped_before,
            runtime.consistent(),
            runtime.active@ == Seq::<TraceBuffer>::empty(),
            runtime.execution_active@ == Set::<u64>::empty(),
            runtime.native_call_depth@ == Map::<u64, u64>::empty(),
            runtime.pending@ == Map::<u64, StalkerFollowConfig>::empty(),
            runtime.retired@ == Seq::<TraceBuffer>::empty(),
            runtime.call_probes@ == Seq::<ActiveCallProbe>::empty(),
            runtime.call_probe_anchors@ == Seq::<CallProbeAnchor>::empty(),
            runtime.retired_call_probes@ == Seq::<CallProbeState>::empty(),
    {
        StalkerRuntime {
            active: Vec::new(),
            execution_active: HashSet::new(),
            native_call_depth: HashMap::new(),
            pending: HashMap::new(),
            retired: Vec::new(),
            call_probes: Vec::new(),
            call_probe_anchors: Vec::new(),
            retired_call_probes: Vec::new(),
            dropped_before,
        }
    }

    /// The position of a thread's trace.
    pub fn find_trace(&self, thread_id: u64) -> (index: Option<usize>)
        ensures
            index matches Some(i) ==> i < self.active.len() && self.active[i as int].thread_id
                == thread_id,
            index is Some <==> traced(self.active@, thread_id),
    {
        let mut i: usize = 0;
        while i < self.active.len()
            invariant
                i <= self.active.len(),
                forall|k: int| 0 <= k < i ==> (#[trigger] self.active[k]).thread_id != thread_id,
            decreases self.active.len() - i,
        {
            if self.active[i].thread_id == thread_id {
                return Some(i);
            }
            i = i + 1;
        }
        None
    }
}

impl StalkerRuntimeSlot {
    /// The runtime is consistent while the backend is ready, well formed while it is
    /// kept after a failed shutdown, and gone otherwise.
    pub open spec fn wf(&self) -> bool {
        match self.lifecycle {
            StalkerLifecycle::Ready => self.runtime matches Some(r) ==> r.consistent(),
            StalkerLifecycle::Retained => self.runtime matches Some(r) ==> r.wf(),
            _ => self.runtime is None,
        }
    }

    /// Refuses every operation outside of the ready state.
    pub fn require_ready(&self) -> (result: Result<(), String>)
        ensures
            result is Ok <==> self.lifecycle == StalkerLifecycle::Ready,
            result matches Err(message) ==> message@ == not_ready_message(self.lifecycle),
    {
        match self.lifecycle {
            StalkerLifecycle::Ready => Ok(()),
            StalkerLifecycle::ShuttingDown => Err(String::from_str("Stalker is shutting down")),
            StalkerLifecycle::Retained => Err(String::from_str("Stalker shutdown is incomplete")),
            StalkerLifecycle::Stopped => Err(String::from_str("Stalker backend is stopped")),
        }
    }

    /// How many events have been dropped, now and by traces that are gone.
    pub open spec fn dropped(&self) -> nat {
        match self.runtime {
            Some(runtime) => runtime.dropped(),
            None => self.dropped_before as nat,
        }
    }

    /// Starts a shutdown, or a second attempt at one, and hands the runtime out. The slot
    /// keeps the count of what it has dropped.
    pub fn begin_shutdown(&mut self) -> (result: Result<ShutdownStart, String>)
        requires
            old(self).wf(),
        ensures
            final(self).wf(),
            match old(self).lifecycle {
                StalkerLifecycle::Ready | StalkerLifecycle::Retained => {
                    &&& final(self).lifecycle == StalkerLifecycle::ShuttingDown
                    &&& final(self).runtime is None
                    &&& final(self).dropped() == old(self).dropped()
                    &&& result matches Ok(ShutdownStart::Started(runtime))
                    &&& runtime == old(self).runtime
                },
                StalkerLifecycle::ShuttingDown => {
                    &&& *final(self) == *old(self)
                    &&& result matches Err(message)
                    &&& message@ == "Stalker shutdown is already in progress"@
                },
                StalkerLifecycle::Stopped => {
                    &&& *final(self) == *old(self)
                    &&& result matches Ok(ShutdownStart::AlreadyStopped)
                },
            },
    {
        match self.lifecycle {
            StalkerLifecycle::Ready | StalkerLifecycle::Retained => {
                self.lifecycle = StalkerLifecycle::ShuttingDown;
                match &self.runtime {
                    Some(runtime) => {
                        self.dropped_before = runtime.dropped_events();
                    },
                    None => {},
                }
                Ok(ShutdownStart::Started(self.runtime.take()))
            },
            StalkerLifecycle::ShuttingDown => Err(
                String::from_str("Stalker shutdown is already in progress"),
            ),
            StalkerLifecycle::Stopped => Ok(ShutdownStart::AlreadyStopped),
        }
    }

    /// Puts back what a shutdown could not release.
    pub fn retain_after_failed_shutdown(&mut self, runtime: Option<StalkerRuntime>)
        requires
            old(self).lifecycle == StalkerLifecycle::ShuttingDown,
            old(self).runtime is None,
            runtime matches Some(r) ==> r.wf(),
        ensures
            final(self).wf(),
            final(self).lifecycle == StalkerLifecycle::Retained,
            final(self).runtime == runtime,
            final(self).dropped_before == old(self).dropped_before,
    {
        self.runtime = runtime;
        self.lifecycle = StalkerLifecycle::Retained;
    }

    /// Ends a shutdown that released everything.
    pub fn finish_shutdown(&mut self)
        requires
            old(self).lifecycle == StalkerLifecycle::ShuttingDown,
            old(self).runtime is None,
        ensures
            final(self).wf(),
            final(self).lifecycle == StalkerLifecycle::Stopped,
            final(self).runtime is None,
            final(self).dropped_before == old(self).dropped_before,
    {
        self.lifecycle = StalkerLifecycle::Stopped;
    }

    /// Makes a stopped backend ready again.
    pub fn activate(&mut self) -> (result: Result<(), String>)
        requires
            old(self).wf(),
        ensures
            final(self).wf(),
            final(self).runtime == old(self).runtime,
            final(self).dropped_before == old(self).dropped_before,
            match old(self).lifecycle {
                StalkerLifecycle::Ready => result is Ok && *final(self) == *old(self),
                StalkerLifecycle::Stopped => {
                    &&& result is Ok
                    &&& final(self).lifecycle == StalkerLifecycle::Ready
                },
                StalkerLifecycle::ShuttingDown => {
                    &&& *final(self) == *old(self)
                    &&& result matches Err(message)
                    &&& message@ == "Stalker shutdown is still in progress"@
                },
                StalkerLifecycle::Retained => {
                    &&& *final(self) == *old(self)
                    &&& result matches Err(message)
                    &&& message@ == "previous Stalker shutdown did not complete"@
                },
            },
    {
        match self.lifecycle {
            StalkerLifecycle::Ready => Ok(()),
            StalkerLifecycle::Stopped => {
                self.lifecycle = StalkerLifecycle::Ready;
                Ok(())
            },
            StalkerLifecycle::ShuttingDown => Err(
                String::from_str("Stalker shutdown is still in progress"),
            ),
            StalkerLifecycle::Retained => Err(
                String::from_str("previous Stalker shutdown did not complete"),
            ),
        }
    }
}

/// The message for a thread that is followed already.
pub open spec fn already_followed_message(thread_id: u64) -> Seq<char> {
    "thread "@ + numeral(thread_id as nat, 10) + " is already being followed"@
}

/// The message for a thread that is followed already.
pub fn already_followed(thread_id: u64) -> (message: String)
    ensures
        message@ == already_followed_message(thread_id),
{
    let mut message: String = String::from_str("thread ");
    push_numeral(&mut message, thread_id, 10);
    message.append(" is already being followed");
    message
}

/// Why a request to follow a thread is refused before anything is done.
pub open spec fn follow_config_error(config: StalkerFollowConfig) -> Option<Seq<char>> {
    if config.thread_id == 0 {
        Some("threadId must be non-zero"@)
    } else if config.event_mask > VALID_EVENT_MASK {
        Some("invalid Stalker event mask: "@ + prefixed_hex(config.event_mask as nat))
    } else if config.transform && config.context == 0 {
        Some("Stalker transform requires a JavaScript context"@)
    } else {
        None
    }
}

/// Checks a request to follow a thread.
pub fn validate_follow_config(config: StalkerFollowConfig) -> (result: Result<(), String>)
    ensures
        result is Ok <==> follow_config_error(config) is None,
        result matches Err(message) ==> follow_config_error(config) == Some(message@),
{
    if config.thread_id == 0 {
        return Err(String::from_str("threadId must be non-zero"));
    }
    proof {
        let mask = config.event_mask;
        assert(mask & !0x1fu32 != 0 <==> mask > 0x1f) by (bit_vector);
    }
    if config.event_mask & !VALID_EVENT_MASK != 0 {
        let mut message: String = String::from_str("invalid Stalker event mask: ");
        push_prefixed_hex(&mut message, config.event_mask as u64);
        return Err(message);
    }
    if config.transform && config.context == 0 {
        return Err(String::from_str("Stalker transform requires a JavaScript context"));
    }
    Ok(())
}

/// The request that the trace's own queue is made for: a trace with a native sink
/// queues nothing and is never drained periodically.
pub open spec fn queue_config(config: StalkerFollowConfig) -> StalkerFollowConfig {
    if config.native_event_callback != 0 {
        StalkerFollowConfig { queue_capacity: 0, queue_drain_interval: 0, ..config }
    } else {
        config
    }
}

/// Whether `buffer` is the new trace for a request made at `now`.
pub open spec fn is_new_trace(buffer: TraceBuffer, config: StalkerFollowConfig, now: u64) -> bool {
    let queue = queue_config(config);
    &&& buffer.wf()
    &&& buffer.thread_id == config.thread_id
    &&& buffer.event_mask@ == config.event_mask & VALID_EVENT_MASK
    &&& buffer.capacity == queue.queue_capacity as usize
    &&& buffer.drain_interval == interval_nanos(queue.queue_drain_interval)
    &&& buffer.next_drain == match interval_nanos(queue.queue_drain_interval) {
        Some(interval) => Some((now + interval) as u64),
        None => None,
    }
    &&& buffer.queue.current@ == Seq::<u8>::empty()
    &&& buffer.queue.dropped == 0
    &&& buffer.queue.byte_limit == record_bytes(queue.queue_capacity as usize)
}

/// What the tracing engine is asked for.
pub open spec fn follow_plan(config: StalkerFollowConfig, current_thread: u64) -> FollowPlan {
    FollowPlan {
        thread_id: config.thread_id,
        current: config.thread_id == current_thread,
        event_mask: config.event_mask & VALID_EVENT_MASK,
        transform: config.transform,
        context: config.context,
        native_sink: if config.native_event_callback != 0 {
            Some(
                NativeSink {
                    callback: config.native_event_callback,
                    data: config.native_event_data,
                },
            )
        } else {
            None
        },
        start_worker: config.queue_drain_interval != 0 && config.native_event_callback == 0,
    }
}

/// The runtime after a thread has begun to be followed.
pub open spec fn follow_started(
    before: StalkerRuntime,
    after: StalkerRuntime,
    config: StalkerFollowConfig,
    now: u64,
) -> bool {
    &&& after.active@.len() == before.active@.len() + 1
    &&& after.active@.drop_last() == before.active@
    &&& is_new_trace(after.active@.last(), config, now)
    &&& after.execution_active@ == before.execution_active@.insert(config.thread_id)
    &&& after.native_call_depth@ == before.native_call_depth@
    &&& after.pending@ == before.pending@
    &&& after.retired@ == before.retired@
    &&& after.same_probes(&before)
}

proof fn lemma_push_trace(traces: Seq<TraceBuffer>, buffer: TraceBuffer)
    requires
        one_trace_each(traces),
        !traced(traces, buffer.thread_id),
    ensures
        one_trace_each(traces.push(buffer)),
        forall|thread_id: u64|
            traced(traces.push(buffer), thread_id) <==> traced(traces, thread_id) || thread_id
                == buffer.thread_id,
{
    let longer = traces.push(buffer);
    assert forall|thread_id: u64|
        traced(longer, thread_id) <==> traced(traces, thread_id) || thread_id
            == buffer.thread_id by {
        if traced(traces, thread_id) {
            let i = choose|i: int| 0 <= i < traces.len() && (#[trigger] traces[i]).thread_id == thread_id;
            assert(longer[i].thread_id == thread_id);
        }
        if thread_id == buffer.thread_id {
            assert(longer[traces.len() as int].thread_id == thread_id);
        }
        if traced(longer, thread_id) && thread_id != buffer.thread_id {
            let i = choose|i: int| 0 <= i < longer.len() && (#[trigger] longer[i]).thread_id == thread_id;
            assert(traces[i].thread_id == thread_id);
        }
    }
    assert forall|i: int, j: int|
        #![trigger longer[i], longer[j]]
        0 <= i < j < longer.len() implies longer[i].thread_id != longer[j].thread_id by {
        if j == traces.len() {
            assert(traces[i].thread_id != buffer.thread_id);
        } else {
            assert(traces[i].thread_id != traces[j].thread_id);
        }
    }
}

proof fn lemma_remove_trace(traces: Seq<TraceBuffer>, index: int)
    requires
        one_trace_each(traces),
        0 <= index < traces.len(),
    ensures
        one_trace_each(traces.remove(index)),
        forall|thread_id: u64|
            traced(traces.remove(index), thread_id) <==> traced(traces, thread_id) && thread_id
                != traces[index].thread_id,
{
    let shorter = traces.remove(index);
    assert forall|thread_id: u64|
        traced(shorter, thread_id) <==> traced(traces, thread_id) && thread_id
            != traces[index].thread_id by {
        if traced(shorter, thread_id) {
            let i = choose|i: int|
                0 <= i < shorter.len() && (#[trigger] shorter[i]).thread_id == thread_id;
            let k = if i < index {
                i
            } else {
                i + 1
            };
            assert(traces[k] == shorter[i]);
            if i < index {
                assert(traces[k].thread_id != traces[index].thread_id);
            } else {
                assert(traces[index].thread_id != traces[k].thread_id);
            }
        }
        if traced(traces, thread_id) && thread_id != traces[index].thread_id {
            let k = choose|k: int|
                0 <= k < traces.len() && (#[trigger] traces[k]).thread_id == thread_id;
            if k < index {
                assert(shorter[k] == traces[k]);
            } else {
                assert(shorter[k - 1] == traces[k]);
            }
        }
    }
    assert forall|i: int, j: int|
        #![trigger shorter[i], shorter[j]]
        0 <= i < j < shorter.len() implies shorter[i].thread_id != shorter[j].thread_id by {
        let a = if i < index {
            i
        } else {
            i + 1
        };
        let b = if j < index {
            j
        } else {
            j + 1
        };
        assert(traces[a] == shorter[i]);
        assert(traces[b] == shorter[j]);
    }
}

impl StalkerRuntime {
    /// Records that a thread is followed from now on. If the drain worker that the
    /// plan asks for cannot be started, [`StalkerRuntime::abandon_follow`] undoes it.
    pub fn start_follow(&mut self, config: StalkerFollowConfig, current_thread: u64, now: u64) -> (result:
        Result<FollowPlan, String>)
        requires
            old(self).consistent(),
            !old(self).pending@.contains_key(config.thread_id),
            now <= LATEST_NOW,
        ensures
            final(self).consistent(),
            final(self).dropped() == old(self).dropped(),
            traced(old(self).active@, config.thread_id) ==> {
                &&& *final(self) == *old(self)
                &&& result matches Err(message)
                &&& message@ == already_followed_message(config.thread_id)
            },
            !traced(old(self).active@, config.thread_id) ==> {
                &&& follow_started(*old(self), *final(self), config, now)
                &&& result == Ok::<FollowPlan, String>(follow_plan(config, current_thread))
            },
    {
        if self.find_trace(config.thread_id).is_some() {
            return Err(already_followed(config.thread_id));
        }
        let has_native_event_callback: bool = config.native_event_callback != 0;
        let buffer_config: StalkerFollowConfig = if has_native_event_callback {
            StalkerFollowConfig {
                thread_id: config.thread_id,
                event_mask: config.event_mask,
                queue_capacity: 0,
                queue_drain_interval: 0,
                transform: config.transform,
                context: config.context,
                native_event_callback: config.native_event_callback,
                native_event_data: config.native_event_data,
                defer_current_thread: config.defer_current_thread,
            }
        } else {
            config
        };
        let buffer: TraceBuffer = TraceBuffer::new_at(buffer_config, now);
        proof {
            lemma_push_trace(self.active@, buffer);
        }
        self.active.push(buffer);
        let _ = self.execution_active.insert(config.thread_id);
        assert(self.active@.drop_last() =~= old(self).active@);
        let native_sink: Option<NativeSink> = if has_native_event_callback {
            Some(
                NativeSink {
                    callback: config.native_event_callback,
                    data: config.native_event_data,
                },
            )
        } else {
            None
        };
        Ok(
            FollowPlan {
                thread_id: config.thread_id,
                current: config.thread_id == current_thread,
                event_mask: config.event_mask & VALID_EVENT_MASK,
                transform: config.transform,
                context: config.context,
                native_sink,
                start_worker: config.queue_drain_interval != 0 && !has_native_event_callback,
            },
        )
    }
}

/// The records that draining a list of traces yields, thread by thread.
pub open spec fn stored_batches(traces: Seq<TraceBuffer>) -> Seq<(u64, Seq<u8>)>
    decreases traces.len(),
{
    if traces.len() == 0 {
        Seq::empty()
    } else {
        let front = stored_batches(traces.drop_last());
        let last = traces.last();
        if last.queue.current@.len() == 0 {
            front
        } else {
            front.push((last.thread_id, last.queue.current@))
        }
    }
}

/// The records of the traces whose periodic drain is due.
pub open spec fn due_batches(traces: Seq<TraceBuffer>, now: u64) -> Seq<(u64, Seq<u8>)>
    decreases traces.len(),
{
    if traces.len() == 0 {
        Seq::empty()
    } else {
        let front = due_batches(traces.drop_last(), now);
        let last = traces.last();
        if last.queue.current@.len() == 0 || !last.is_due(now) {
            front
        } else {
            front.push((last.thread_id, last.queue.current@))
        }
    }
}

/// Batches with their records as sequences.
pub open spec fn batch_views(batches: Seq<StalkerEventBatch>) -> Seq<(u64, Seq<u8>)> {
    Seq::new(batches.len(), |i: int| (batches[i].thread_id, batches[i].data@))
}

/// Whether the second list holds the traces of the first with empty queues.
pub open spec fn emptied(before: Seq<TraceBuffer>, after: Seq<TraceBuffer>) -> bool {
    &&& before.len() == after.len()
    &&& forall|i: int|
        0 <= i < after.len() ==> {
            &&& (#[trigger] after[i]).wf()
            &&& after[i].same_trace(&before[i])
            &&& after[i].next_drain == before[i].next_drain
            &&& after[i].queue.current@.len() == 0
            &&& after[i].queue.byte_limit == before[i].queue.byte_limit
            &&& after[i].queue.dropped == before[i].queue.dropped
        }
}

/// Whether the second list holds the traces of the first, those that are due drained
/// and re-armed and the others untouched.
pub open spec fn due_emptied(before: Seq<TraceBuffer>, after: Seq<TraceBuffer>, now: u64) -> bool {
    &&& before.len() == after.len()
    &&& forall|i: int|
        0 <= i < after.len() ==> {
            &&& (#[trigger] after[i]).wf()
            &&& after[i].same_trace(&before[i])
            &&& after[i].queue.dropped == before[i].queue.dropped
            &&& after[i].queue.byte_limit == before[i].queue.byte_limit
            &&& !before[i].is_due(now) ==> after[i] == before[i]
            &&& before[i].is_due(now) ==> {
                &&& after[i].next_drain == Some((now + before[i].drain_interval->0) as u64)
                &&& after[i].queue.current@.len() == 0
            }
        }
}

proof fn lemma_same_threads_traced(before: Seq<TraceBuffer>, after: Seq<TraceBuffer>)
    requires
        before.len() == after.len(),
        forall|i: int|
            0 <= i < after.len() ==> (#[trigger] after[i]).thread_id == before[i].thread_id,
    ensures
        one_trace_each(before) ==> one_trace_each(after),
        forall|thread_id: u64| traced(before, thread_id) <==> traced(after, thread_id),
{
    assert forall|thread_id: u64| traced(before, thread_id) <==> traced(after, thread_id) by {
        if traced(before, thread_id) {
            let i = choose|i: int|
                0 <= i < before.len() && (#[trigger] before[i]).thread_id == thread_id;
            assert(after[i].thread_id == thread_id);
        }
        if traced(after, thread_id) {
            let i = choose|i: int|
                0 <= i < after.len() && (#[trigger] after[i]).thread_id == thread_id;
            assert(before[i].thread_id == thread_id);
        }
    }
    if one_trace_each(before) {
        assert forall|i: int, j: int|
            #![trigger after[i], after[j]]
            0 <= i < j < after.len() implies after[i].thread_id != after[j].thread_id by {
            assert(before[i].thread_id != before[j].thread_id);
        }
    }
}

fn drain_traces(traces: &mut Vec<TraceBuffer>, batches: &mut Vec<StalkerEventBatch>)
    requires
        forall|i: int| 0 <= i < old(traces)@.len() ==> (#[trigger] old(traces)@[i]).wf(),
    ensures
        emptied(old(traces)@, final(traces)@),
        batch_views(final(batches)@) == batch_views(old(batches)@) + stored_batches(old(traces)@),
{
    let ghost before = traces@;
    let ghost earlier = batch_views(batches@);
    let mut i: usize = 0;
    assert(before.take(0) =~= Seq::<TraceBuffer>::empty());
    assert(earlier + stored_batches(before.take(0)) =~= earlier);
    while i < traces.len()
        invariant
            i <= traces@.len(),
            traces@.len() == before.len(),
            forall|k: int| 0 <= k < before.len() ==> (#[trigger] before[k]).wf(),
            forall|k: int| i <= k < before.len() ==> #[trigger] traces@[k] == before[k],
            forall|k: int|
                0 <= k < i ==> {
                    &&& (#[trigger] traces@[k]).wf()
                    &&& traces@[k].same_trace(&before[k])
                    &&& traces@[k].next_drain == before[k].next_drain
                    &&& traces@[k].queue.current@.len() == 0
                    &&& traces@[k].queue.byte_limit == before[k].queue.byte_limit
                    &&& traces@[k].queue.dropped == before[k].queue.dropped
                },
            batch_views(batches@) == earlier + stored_batches(before.take(i as int)),
        decreases traces@.len() - i,
    {
        let ghost so_far = batches@;
        assert(traces@[i as int] == before[i as int]);
        let mut more: Vec<StalkerEventBatch> = traces[i].drain();
        let ghost fresh = more@;
        batches.append(&mut more);
        assert(before.take(i + 1).drop_last() =~= before.take(i as int));
        assert(before.take(i + 1).last() == before[i as int]);
        assert(batch_views(batches@) =~= batch_views(so_far) + batch_views(fresh));
        assert(batch_views(batches@) =~= earlier + stored_batches(before.take(i + 1)));
        i = i + 1;
    }
    assert(before.take(before.len() as int) =~= before);
}

fn drain_due_traces(traces: &mut Vec<TraceBuffer>, now: u64) -> (batches: Vec<StalkerEventBatch>)
    requires
        forall|i: int| 0 <= i < old(traces)@.len() ==> (#[trigger] old(traces)@[i]).wf(),
        now <= LATEST_NOW,
    ensures
        due_emptied(old(traces)@, final(traces)@, now),
        batch_views(batches@) == due_batches(old(traces)@, now),
{
    let ghost before = traces@;
    let mut batches: Vec<StalkerEventBatch> = Vec::new();
    let mut i: usize = 0;
    assert(before.take(0) =~= Seq::<TraceBuffer>::empty());
    assert(batch_views(batches@) =~= due_batches(before.take(0), now));
    while i < traces.len()
        invariant
            i <= traces@.len(),
            now <= LATEST_NOW,
            traces@.len() == before.len(),
            forall|k: int| 0 <= k < before.len() ==> (#[trigger] before[k]).wf(),
            forall|k: int| i <= k < before.len() ==> #[trigger] traces@[k] == before[k],
            forall|k: int|
                0 <= k < i ==> {
                    &&& (#[trigger] traces@[k]).wf()
                    &&& traces@[k].same_trace(&before[k])
                    &&& traces@[k].queue.dropped == before[k].queue.dropped
                    &&& traces@[k].queue.byte_limit == before[k].queue.byte_limit
                    &&& !before[k].is_due(now) ==> traces@[k] == before[k]
                    &&& before[k].is_due(now) ==> {
                        &&& traces@[k].next_drain == Some(
                            (now + before[k].drain_interval->0) as u64,
                        )
                        &&& traces@[k].queue.current@.len() == 0
                    }
                },
            batch_views(batches@) == due_batches(before.take(i as int), now),
        decreases traces@.len() - i,
    {
        let ghost so_far = batches@;
        assert(traces@[i as int] == before[i as int]);
        let mut more: Vec<StalkerEventBatch> = traces[i].drain_if_due(now);
        let ghost fresh = more@;
        batches.append(&mut more);
        assert(before.take(i + 1).drop_last() =~= before.take(i as int));
        assert(before.take(i + 1).last() == before[i as int]);
        assert(batch_views(batches@) =~= batch_views(so_far) + batch_views(fresh));
        assert(batch_views(batches@) =~= due_batches(before.take(i + 1), now));
        i = i + 1;
    }
    assert(before.take(before.len() as int) =~= before);
    batches
}

/// The anchors for which `keep` holds, in order.
pub open spec fn kept_anchors(anchors: Seq<CallProbeAnchor>, keep: Seq<bool>) -> Seq<CallProbeAnchor>
    decreases anchors.len(),
{
    if anchors.len() == 0 {
        Seq::empty()
    } else {
        let front = kept_anchors(anchors.drop_last(), keep.drop_last());
        if keep.last() {
            front.push(anchors.last())
        } else {
            front
        }
    }
}

/// The engine ids of the anchors for which `keep` does not hold, in order.
pub open spec fn dropped_anchor_ids(anchors: Seq<CallProbeAnchor>, keep: Seq<bool>) -> Seq<u32>
    decreases anchors.len(),
{
    if anchors.len() == 0 {
        Seq::empty()
    } else {
        let front = dropped_anchor_ids(anchors.drop_last(), keep.drop_last());
        if keep.last() {
            front
        } else {
            front.push(anchors.last().gum_id)
        }
    }
}

/// Whether no address occurs twice in a list of anchors.
pub open spec fn one_anchor_each(anchors: Seq<CallProbeAnchor>) -> bool {
    forall|i: int, j: int|
        #![trigger anchors[i], anchors[j]]
        0 <= i < j < anchors.len() ==> anchors[i].address != anchors[j].address
}

/// Keeping some of the anchors leaves at most one for each address, and an address
/// is left exactly if its anchor was kept.
pub proof fn kept_anchors_stay_unique(anchors: Seq<CallProbeAnchor>, keep: Seq<bool>)
    requires
        anchors.len() == keep.len(),
        one_anchor_each(anchors),
    ensures
        one_anchor_each(kept_anchors(anchors, keep)),
        forall|address: u64| #[trigger]
            anchored(kept_anchors(anchors, keep), address) <==> (exists|i: int|
                0 <= i < anchors.len() && (#[trigger] anchors[i]).address == address && keep[i]),
    decreases anchors.len(),
{
    let kept = kept_anchors(anchors, keep);
    if anchors.len() > 0 {
        let front = anchors.drop_last();
        let last = anchors.last();
        assert(one_anchor_each(front)) by {
            assert forall|i: int, j: int|
                #![trigger front[i], front[j]]
                0 <= i < j < front.len() implies front[i].address != front[j].address by {
                assert(anchors[i].address != anchors[j].address);
            }
        }
        kept_anchors_stay_unique(front, keep.drop_last());
        let kept_front = kept_anchors(front, keep.drop_last());
        assert(!anchored(kept_front, last.address)) by {
            if anchored(kept_front, last.address) {
                let i = choose|i: int|
                    0 <= i < front.len() && (#[trigger] front[i]).address == last.address
                        && keep.drop_last()[i];
                assert(anchors[i].address != anchors[anchors.len() - 1].address);
            }
        }
        assert forall|i: int, j: int|
            #![trigger kept[i], kept[j]]
            0 <= i < j < kept.len() implies kept[i].address != kept[j].address by {
            if j < kept_front.len() {
                assert(kept_front[i].address != kept_front[j].address);
            } else {
                assert(kept_front[i].address != last.address);
            }
        }
        assert forall|address: u64| #[trigger]
            anchored(kept, address) <==> (exists|i: int|
                0 <= i < anchors.len() && (#[trigger] anchors[i]).address == address
                    && keep[i]) by {
            if anchored(kept, address) {
                let k = choose|k: int| 0 <= k < kept.len() && (#[trigger] kept[k]).address == address;
                if k < kept_front.len() {
                    assert(kept_front[k].address == address);
                    assert(anchored(kept_front, address));
                    let i = choose|i: int|
                        0 <= i < front.len() && (#[trigger] front[i]).address == address
                            && keep.drop_last()[i];
                    assert(anchors[i].address == address && keep[i]);
                } else {
                    let n = anchors.len() - 1;
                    assert(anchors[n].address == address && keep[n]);
                }
            }
            if exists|i: int|
                0 <= i < anchors.len() && (#[trigger] anchors[i]).address == address && keep[i] {
                let i = choose|i: int|
                    0 <= i < anchors.len() && (#[trigger] anchors[i]).address == address && keep[i];
                if i < front.len() {
                    assert(front[i].address == address && keep.drop_last()[i]);
                    assert(anchored(kept_front, address));
                    let k = choose|k: int|
                        0 <= k < kept_front.len() && (#[trigger] kept_front[k]).address == address;
                    assert(kept[k].address == address);
                } else {
                    assert(kept[kept.len() - 1].address == address);
                }
            }
        }
    }
}

fn keep_anchors(anchors: &mut Vec<CallProbeAnchor>, keep: &Vec<bool>) -> (dropped: Vec<u32>)
    requires
        keep@.len() == old(anchors)@.len(),
    ensures
        final(anchors)@ == kept_anchors(old(anchors)@, keep@),
        dropped@ == dropped_anchor_ids(old(anchors)@, keep@),
{
    let mut all: Vec<CallProbeAnchor> = Vec::new();
    core::mem::swap(anchors, &mut all);
    let ghost before = all@;
    let mut dropped: Vec<u32> = Vec::new();
    let total: usize = keep.len();
    let mut i: usize = 0;
    assert(before.take(0) =~= Seq::<CallProbeAnchor>::empty());
    for anchor in it: all
        invariant
            it.seq() == before,
            total == keep@.len(),
            i == it.index(),
            keep@.len() == before.len(),
            anchors@ == kept_anchors(before.take(i as int), keep@.take(i as int)),
            dropped@ == dropped_anchor_ids(before.take(i as int), keep@.take(i as int)),
    {
        assert(before.take(i + 1).drop_last() =~= before.take(i as int));
        assert(keep@.take(i + 1).drop_last() =~= keep@.take(i as int));
        if keep[i] {
            anchors.push(anchor);
        } else {
            dropped.push(anchor.gum_id);
        }
        i = i + 1;
    }
    assert(before.take(before.len() as int) =~= before);
    assert(keep@.take(before.len() as int) =~= keep@);
    dropped
}

/// Whether an address lies in a range that may wrap round the end of memory.
pub open spec fn in_range(address: u64, base: u64, size: u64) -> bool {
    if address >= base {
        address - base < size
    } else {
        address + 0x1_0000_0000_0000_0000 - base < size
    }
}

/// Whether an address lies in a module's range.
pub fn address_is_in_range(address: u64, base: u64, size: u64) -> (inside: bool)
    ensures
        inside == in_range(address, base, size),
{
    address.wrapping_sub(base) < size
}

/// The runtime after the trace at `index` has been retired.
pub open spec fn trace_retired(before: StalkerRuntime, after: StalkerRuntime, index: int) -> bool {
    &&& 0 <= index < before.active@.len()
    &&& after.active@ == before.active@.remove(index)
    &&& after.retired@ == before.retired@.push(before.active@[index])
    &&& after.execution_active@ == before.execution_active@.remove(
        before.active@[index].thread_id,
    )
    &&& after.native_call_depth@ == before.native_call_depth@.remove(
        before.active@[index].thread_id,
    )
    &&& after.pending@ == before.pending@
    &&& after.same_probes(&before)
}

/// Whether the trace of `thread_id` has been retired.
pub open spec fn thread_retired(
    before: StalkerRuntime,
    after: StalkerRuntime,
    thread_id: u64,
) -> bool {
    exists|index: int|
        trace_retired(before, after, index) && (#[trigger] before.active@[index]).thread_id
            == thread_id
}

/// What has to be done to stop following a thread.
#[derive(Clone, Copy, Debug, PartialEq, Eq, Structural)]
pub enum UnfollowDecision {
    /// The thread is not followed, or was only waiting to be.
    Nothing,
    /// Unfollow the thread, which is the current one or another, then flush.
    Unfollow { current: bool },
}

/// What the recorded threads do when a native call is entered.
pub open spec fn activate_outcome(runtime: StalkerRuntime, thread_id: u64, following_me: bool) -> Result<
    ActivateDecision,
    Seq<char>,
> {
    let depth = if runtime.native_call_depth@.contains_key(thread_id) {
        runtime.native_call_depth@[thread_id]
    } else {
        0
    };
    if !traced(runtime.active@, thread_id) {
        Ok(ActivateDecision { followed: false, activate: false })
    } else if !following_me {
        Err(
            "thread "@ + numeral(thread_id as nat, 10)
                + " has no active Stalker execution context"@,
        )
    } else if depth != 0 && !runtime.execution_active@.contains(thread_id) {
        Err(
            "thread "@ + numeral(thread_id as nat, 10)
                + " has an inactive Stalker execution context at native call depth "@ + numeral(
                depth as nat,
                10,
            ),
        )
    } else if depth == u64::MAX {
        Err(
            "thread "@ + numeral(thread_id as nat, 10) + " Stalker native call depth overflow"@,
        )
    } else {
        Ok(
            ActivateDecision {
                followed: true,
                activate: depth == 0 && !runtime.execution_active@.contains(thread_id),
            },
        )
    }
}

impl StalkerRuntime {
    fn retire_trace(&mut self, index: usize)
        requires
            old(self).consistent(),
            index < old(self).active@.len(),
        ensures
            final(self).consistent(),
            trace_retired(*old(self), *final(self), index as int),
    {
        proof {
            lemma_remove_trace(self.active@, index as int);
        }
        let buffer: TraceBuffer = self.active.remove(index);
        let _ = self.execution_active.remove(&buffer.thread_id);
        let _ = self.native_call_depth.remove(&buffer.thread_id);
        self.retired.push(buffer);
        assert forall|i: int| 0 <= i < self.active.len() implies (#[trigger] self.active[i]).wf() by {
            if i < index {
                assert(self.active[i] == old(self).active[i]);
            } else {
                assert(self.active[i] == old(self).active[i + 1]);
            }
        }
    }

    /// Undoes a follow whose drain worker could not be started. The embedder unfollows
    /// the thread and flushes; the trace is kept until the engine has let go of it.
    pub fn abandon_follow(&mut self, thread_id: u64) -> (abandoned: bool)
        requires
            old(self).consistent(),
        ensures
            final(self).consistent(),
            abandoned == traced(old(self).active@, thread_id),
            abandoned ==> thread_retired(*old(self), *final(self), thread_id),
            !abandoned ==> *final(self) == *old(self),
            final(self).dropped() == old(self).dropped(),
    {
        match self.find_trace(thread_id) {
            None => false,
            Some(index) => {
                self.retire_trace(index);
                assert(old(self).active@[index as int].thread_id == thread_id);
                proof {
                    retiring_keeps_the_dropped_count(*old(self), *self, thread_id);
                }
                true
            },
        }
    }

    /// Stops following a thread, or waiting to follow it.
    pub fn stop_follow(&mut self, thread_id: u64, current_thread: u64) -> (decision: UnfollowDecision)
        requires
            old(self).consistent(),
        ensures
            final(self).consistent(),
            final(self).dropped() == old(self).dropped(),
            old(self).pending@.contains_key(thread_id) ==> {
                &&& decision == UnfollowDecision::Nothing
                &&& final(self).pending@ == old(self).pending@.remove(thread_id)
                &&& final(self).active@ == old(self).active@
                &&& final(self).execution_active@ == old(self).execution_active@
                &&& final(self).native_call_depth@ == old(self).native_call_depth@
                &&& final(self).retired@ == old(self).retired@
                &&& final(self).same_probes(old(self))
            },
            !old(self).pending@.contains_key(thread_id) && !traced(old(self).active@, thread_id) ==> {
                &&& decision == UnfollowDecision::Nothing
                &&& *final(self) == *old(self)
            },
            traced(old(self).active@, thread_id) ==> {
                &&& decision == UnfollowDecision::Unfollow { current: thread_id == current_thread }
                &&& thread_retired(*old(self), *final(self), thread_id)
            },
    {
        if self.pending.contains_key(&thread_id) {
            let _ = self.pending.remove(&thread_id);
            return UnfollowDecision::Nothing;
        }
        match self.find_trace(thread_id) {
            None => UnfollowDecision::Nothing,
            Some(index) => {
                self.retire_trace(index);
                assert(old(self).active@[index as int].thread_id == thread_id);
                proof {
                    retiring_keeps_the_dropped_count(*old(self), *self, thread_id);
                }
                UnfollowDecision::Unfollow { current: thread_id == current_thread }
            },
        }
    }

    /// Stores an event of a followed thread.
    pub fn record_event(&mut self, thread_id: u64, event: &Event) -> (stored: bool)
        requires
            old(self).consistent(),
        ensures
            final(self).consistent(),
            stored == traced(old(self).active@, thread_id),
            !stored ==> *final(self) == *old(self),
            final(self).execution_active@ == old(self).execution_active@,
            final(self).native_call_depth@ == old(self).native_call_depth@,
            final(self).pending@ == old(self).pending@,
            final(self).retired@ == old(self).retired@,
            final(self).same_probes(old(self)),
            final(self).dropped() >= old(self).dropped(),
            stored ==> exists|index: int|
                {
                    &&& 0 <= index < old(self).active@.len()
                    &&& (#[trigger] old(self).active@[index]).thread_id == thread_id
                    &&& final(self).active@.len() == old(self).active@.len()
                    &&& final(self).active@[index].same_trace(&old(self).active@[index])
                    &&& final(self).active@[index].next_drain == old(self).active@[index].next_drain
                    &&& final(self).active@[index].queue@ == pushed(
                        old(self).active@[index].queue@,
                        *event,
                    )
                    &&& forall|k: int|
                        0 <= k < old(self).active@.len() && k != index
                            ==> #[trigger] final(self).active@[k] == old(self).active@[k]
                },
    {
        match self.find_trace(thread_id) {
            None => false,
            Some(index) => {
                let ghost before = self.active@;
                assert(before[index as int].wf());
                self.active[index].queue.push(event);
                proof {
                    lemma_same_threads_traced(before, self.active@);
                    lemma_dropped_without(before, index as int);
                    lemma_dropped_without(self.active@, index as int);
                    assert(self.active@.remove(index as int) =~= before.remove(index as int));
                }
                assert(before[index as int].thread_id == thread_id);
                true
            },
        }
    }

    /// Enters a native call on the given thread. A thread that is followed but whose
    /// engine context is inactive is activated on the outermost call.
    pub fn activate_current(&mut self, thread_id: u64, following_me: bool) -> (result: Result<
        ActivateDecision,
        String,
    >)
        requires
            old(self).consistent(),
        ensures
            final(self).consistent(),
            final(self).active@ == old(self).active@,
            final(self).pending@ == old(self).pending@,
            final(self).retired@ == old(self).retired@,
            final(self).same_probes(old(self)),
            match (activate_outcome(*old(self), thread_id, following_me), result) {
                (Err(expected), Err(message)) => {
                    &&& message@ == expected
                    &&& *final(self) == *old(self)
                },
                (Ok(expected), Ok(decision)) => {
                    &&& decision == expected
                    &&& !expected.followed ==> *final(self) == *old(self)
                    &&& expected.followed ==> {
                        &&& final(self).execution_active@ == old(self).execution_active@.insert(
                            thread_id,
                        )
                        &&& final(self).native_call_depth@ == old(self).native_call_depth@.insert(
                            thread_id,
                            if old(self).native_call_depth@.contains_key(thread_id) {
                                (old(self).native_call_depth@[thread_id] + 1) as u64
                            } else {
                                1
                            },
                        )
                    }
                },
                _ => false,
            },
    {
        if self.find_trace(thread_id).is_none() {
            return Ok(ActivateDecision { followed: false, activate: false });
        }
        if !following_me {
            let mut message: String = String::from_str("thread ");
            push_numeral(&mut message, thread_id, 10);
            message.append(" has no active Stalker execution context");
            return Err(message);
        }
        let depth: u64 = match self.native_call_depth.get(&thread_id) {
            Some(depth) => *depth,
            None => 0,
        };
        if depth != 0 && !self.execution_active.contains(&thread_id) {
            let mut message: String = String::from_str("thread ");
            push_numeral(&mut message, thread_id, 10);
            message.append(" has an inactive Stalker execution context at native call depth ");
            push_numeral(&mut message, depth, 10);
            return Err(message);
        }
        if depth == u64::MAX {
            let mut message: String = String::from_str("thread ");
            push_numeral(&mut message, thread_id, 10);
            message.append(" Stalker native call depth overflow");
            return Err(message);
        }
        let activate: bool = depth == 0 && !self.execution_active.contains(&thread_id);
        let _ = self.execution_active.insert(thread_id);
        let _ = self.native_call_depth.insert(thread_id, depth + 1);
        assert(old(self).native_call_depth@.contains_key(thread_id) ==> old(self).execution_active@.insert(thread_id) =~= old(self).execution_active@);
        Ok(ActivateDecision { followed: true, activate })
    }

    /// Leaves a native call on the given thread. The result says whether the engine
    /// has to be deactivated, which happens on leaving the outermost call.
    pub fn deactivate_current(&mut self, thread_id: u64, following_me: bool) -> (deactivate: bool)
        requires
            old(self).consistent(),
        ensures
            final(self).consistent(),
            final(self).active@ == old(self).active@,
            final(self).pending@ == old(self).pending@,
            final(self).retired@ == old(self).retired@,
            final(self).same_probes(old(self)),
            !old(self).native_call_depth@.contains_key(thread_id) ==> {
                &&& !deactivate
                &&& *final(self) == *old(self)
            },
            old(self).native_call_depth@.contains_key(thread_id) ==> {
                let depth = old(self).native_call_depth@[thread_id];
                if depth > 1 {
                    &&& !deactivate
                    &&& final(self).native_call_depth@ == old(self).native_call_depth@.insert(
                        thread_id,
                        (depth - 1) as u64,
                    )
                    &&& final(self).execution_active@ == old(self).execution_active@
                } else {
                    &&& final(self).native_call_depth@ == old(self).native_call_depth@.remove(
                        thread_id,
                    )
                    &&& deactivate == following_me
                    &&& final(self).execution_active@ == if deactivate {
                        old(self).execution_active@.remove(thread_id)
                    } else {
                        old(self).execution_active@
                    }
                }
            },
    {
        let depth: u64 = match self.native_call_depth.get(&thread_id) {
            None => {
                return false;
            },
            Some(depth) => *depth,
        };
        if depth > 1 {
            let _ = self.native_call_depth.insert(thread_id, depth - 1);
            return false;
        }
        let _ = self.native_call_depth.remove(&thread_id);
        assert(old(self).execution_active@.contains(thread_id));
        assert(traced(self.active@, thread_id));
        if self.find_trace(thread_id).is_some() && self.execution_active.contains(&thread_id)
            && following_me {
            let _ = self.execution_active.remove(&thread_id);
            return true;
        }
        false
    }
}

/// In a consistent state a nested native call never finds its context inactive: the
/// outcome is never an error that names the depth.
pub proof fn nested_call_finds_an_active_context(runtime: StalkerRuntime, thread_id: u64)
    requires
        runtime.consistent(),
        traced(runtime.active@, thread_id),
        runtime.native_call_depth@.contains_key(thread_id) ==> runtime.native_call_depth@[thread_id]
            < u64::MAX,
    ensures
        activate_outcome(runtime, thread_id, true) is Ok,
{
}

/// Whether a module identity is the one recorded with an anchor.
pub open spec fn same_module(
    left: Option<AnchorModuleIdentity>,
    right: Option<AnchorModuleIdentity>,
) -> bool {
    match (left, right) {
        (Some(a), Some(b)) => a@ == b@,
        (None, None) => true,
        _ => false,
    }
}

/// What has to be done about the anchor on an address: it is replaced only if both
/// the recorded and the present module are known and differ. An address that belongs
/// to no known module cannot prove reuse either way.
pub open spec fn anchor_decision_at(
    anchor: CallProbeAnchor,
    identity: Option<AnchorModuleIdentity>,
) -> AnchorDecision {
    if anchor.module is None || identity is None || same_module(anchor.module, identity) {
        AnchorDecision::Keep
    } else {
        AnchorDecision::Replace(anchor.gum_id)
    }
}

/// The total of the dropped events of a list of traces.
pub open spec fn total_dropped(traces: Seq<TraceBuffer>) -> nat
    decreases traces.len(),
{
    if traces.len() == 0 {
        0
    } else {
        total_dropped(traces.drop_last()) + traces.last().queue.dropped as nat
    }
}

/// The statistics of one trace.
pub open spec fn trace_statistics(trace: TraceBuffer) -> StalkerTraceStatistics {
    StalkerTraceStatistics {
        thread_id: trace.thread_id,
        queue_capacity: trace.capacity as u64,
        queued_events: (trace.queue.current@.len() / 32) as u64,
        dropped_events: trace.queue.dropped,
    }
}

/// A count that stays at the largest value once it is reached.
pub open spec fn capped(count: nat) -> nat {
    if count <= u64::MAX {
        count
    } else {
        u64::MAX as nat
    }
}

fn sum_dropped(traces: &Vec<TraceBuffer>) -> (total: u64)
    ensures
        total == capped(total_dropped(traces@)),
{
    let mut total: u64 = 0;
    let mut i: usize = 0;
    assert(traces@.take(0) =~= Seq::<TraceBuffer>::empty());
    while i < traces.len()
        invariant
            i <= traces@.len(),
            total == capped(total_dropped(traces@.take(i as int))),
        decreases traces@.len() - i,
    {
        assert(traces@.take(i + 1).drop_last() =~= traces@.take(i as int));
        total = total.saturating_add(traces[i].queue.dropped);
        i = i + 1;
    }
    assert(traces@.take(traces@.len() as int) =~= traces@);
    total
}

/// Traces whose queues have dropped the same, each in its place, have dropped the same.
pub proof fn lemma_same_dropped(before: Seq<TraceBuffer>, after: Seq<TraceBuffer>)
    requires
        before.len() == after.len(),
        forall|i: int|
            0 <= i < after.len() ==> (#[trigger] after[i]).queue.dropped == before[i].queue.dropped,
    ensures
        total_dropped(after) == total_dropped(before),
    decreases before.len(),
{
    if before.len() > 0 {
        assert forall|i: int| 0 <= i < after.drop_last().len() implies (
        #[trigger] after.drop_last()[i]).queue.dropped == before.drop_last()[i].queue.dropped by {
            assert(after[i].queue.dropped == before[i].queue.dropped);
        }
        lemma_same_dropped(before.drop_last(), after.drop_last());
    }
}

/// What two lists of traces have dropped together.
pub proof fn lemma_dropped_together(left: Seq<TraceBuffer>, right: Seq<TraceBuffer>)
    ensures
        total_dropped(left + right) == total_dropped(left) + total_dropped(right),
    decreases right.len(),
{
    if right.len() > 0 {
        lemma_dropped_together(left, right.drop_last());
        assert((left + right).drop_last() =~= left + right.drop_last());
        assert((left + right).last() == right.last());
    } else {
        assert(left + right =~= left);
    }
}

proof fn lemma_dropped_without(traces: Seq<TraceBuffer>, index: int)
    requires
        0 <= index < traces.len(),
    ensures
        total_dropped(traces) == total_dropped(traces.remove(index))
            + traces[index].queue.dropped,
{
    let front = traces.take(index);
    let back = traces.skip(index + 1);
    lemma_dropped_together(front, back);
    lemma_dropped_together(front.push(traces[index]), back);
    assert(front.push(traces[index]).drop_last() =~= front);
    assert(traces =~= front.push(traces[index]) + back);
    assert(traces.remove(index) =~= front + back);
}

/// Retiring a trace forgets nothing that was dropped.
pub proof fn retiring_keeps_the_dropped_count(
    before: StalkerRuntime,
    after: StalkerRuntime,
    thread_id: u64,
)
    requires
        thread_retired(before, after, thread_id),
    ensures
        after.dropped() == before.dropped(),
{
    let index = choose|index: int|
        trace_retired(before, after, index) && (#[trigger] before.active@[index]).thread_id
            == thread_id;
    lemma_dropped_without(before.active@, index);
    assert(after.retired@.drop_last() =~= before.retired@);
}

impl StalkerRuntime {
    /// Drains every trace, the followed threads first.
    pub fn drain_runtime(&mut self) -> (batches: Vec<StalkerEventBatch>)
        requires
            old(self).consistent(),
        ensures
            final(self).consistent(),
            emptied(old(self).active@, final(self).active@),
            emptied(old(self).retired@, final(self).retired@),
            final(self).dropped() == old(self).dropped(),
            final(self).execution_active@ == old(self).execution_active@,
            final(self).native_call_depth@ == old(self).native_call_depth@,
            final(self).pending@ == old(self).pending@,
            final(self).same_probes(old(self)),
            batch_views(batches@) == stored_batches(old(self).active@) + stored_batches(
                old(self).retired@,
            ),
    {
        let mut batches: Vec<StalkerEventBatch> = Vec::new();
        let ghost before = self.active@;
        assert(batch_views(batches@) =~= Seq::<(u64, Seq<u8>)>::empty());
        drain_traces(&mut self.active, &mut batches);
        assert(batch_views(batches@) =~= stored_batches(before));
        drain_traces(&mut self.retired, &mut batches);
        proof {
            lemma_same_threads_traced(before, self.active@);
            lemma_same_dropped(before, self.active@);
            lemma_same_dropped(old(self).retired@, self.retired@);
        }
        batches
    }

    /// Drains the followed threads whose periodic drain is due.
    pub fn drain_due_runtime(&mut self, now: u64) -> (batches: Vec<StalkerEventBatch>)
        requires
            old(self).consistent(),
            now <= LATEST_NOW,
        ensures
            final(self).consistent(),
            due_emptied(old(self).active@, final(self).active@, now),
            final(self).dropped() == old(self).dropped(),
            final(self).retired@ == old(self).retired@,
            final(self).execution_active@ == old(self).execution_active@,
            final(self).native_call_depth@ == old(self).native_call_depth@,
            final(self).pending@ == old(self).pending@,
            final(self).same_probes(old(self)),
            batch_views(batches@) == due_batches(old(self).active@, now),
    {
        let ghost before = self.active@;
        let batches: Vec<StalkerEventBatch> = drain_due_traces(&mut self.active, now);
        proof {
            lemma_same_threads_traced(before, self.active@);
            lemma_same_dropped(before, self.active@);
        }
        batches
    }

    /// Puts back the engine's inactive state on the current thread if some call made it
    /// active. The result says whether the engine has to be deactivated.
    pub fn restore_current_execution_state(
        &mut self,
        current_thread: u64,
        was_active: bool,
        following_me: bool,
    ) -> (deactivate: bool)
        requires
            old(self).wf(),
            was_active == old(self).execution_active@.contains(current_thread),
        ensures
            final(self).wf(),
            old(self).consistent() ==> final(self).consistent(),
            final(self).same_threads(old(self)),
            final(self).same_probes(old(self)),
            deactivate == (!was_active && following_me && traced(
                old(self).active@,
                current_thread,
            )),
    {
        if !was_active && following_me && self.find_trace(current_thread).is_some() {
            let _ = self.execution_active.remove(&current_thread);
            assert(self.execution_active@ =~= old(self).execution_active@);
            true
        } else {
            false
        }
    }

    /// The position of the anchor on an address.
    pub fn find_anchor(&self, address: u64) -> (index: Option<usize>)
        ensures
            index matches Some(i) ==> i < self.call_probe_anchors.len()
                && self.call_probe_anchors[i as int].address == address,
            index is Some <==> anchored(self.call_probe_anchors@, address),
    {
        let mut i: usize = 0;
        while i < self.call_probe_anchors.len()
            invariant
                i <= self.call_probe_anchors.len(),
                forall|k: int|
                    0 <= k < i ==> (#[trigger] self.call_probe_anchors[k]).address != address,
            decreases self.call_probe_anchors.len() - i,
        {
            if self.call_probe_anchors[i].address == address {
                return Some(i);
            }
            i = i + 1;
        }
        None
    }

    /// What has to be done about the anchor of a probe target that lies in `identity`.
    pub fn anchor_decision(&self, target_address: u64, identity: &Option<AnchorModuleIdentity>) -> (decision:
        AnchorDecision)
        requires
            self.wf(),
        ensures
            !anchored(self.call_probe_anchors@, target_address) ==> decision == AnchorDecision::Add,
            forall|i: int|
                0 <= i < self.call_probe_anchors@.len() && (#[trigger] self.call_probe_anchors@[i]).address
                    == target_address ==> decision == anchor_decision_at(
                    self.call_probe_anchors@[i],
                    *identity,
                ),
    {
        match self.find_anchor(target_address) {
            None => AnchorDecision::Add,
            Some(index) => {
                let existing: &CallProbeAnchor = &self.call_probe_anchors[index];
                let decision: AnchorDecision = match (&existing.module, identity) {
                    (Some(recorded), Some(present)) => {
                        if recorded.base == present.base && recorded.path == present.path {
                            AnchorDecision::Keep
                        } else {
                            AnchorDecision::Replace(existing.gum_id)
                        }
                    },
                    _ => AnchorDecision::Keep,
                };
                assert(decision == anchor_decision_at(*existing, *identity));
                assert forall|i: int|
                    0 <= i < self.call_probe_anchors@.len()
                        && (#[trigger] self.call_probe_anchors@[i]).address
                        == target_address implies i == index by {
                    if i < index {
                        assert(self.call_probe_anchors[i].address
                            != self.call_probe_anchors[index as int].address);
                    } else if i > index {
                        assert(self.call_probe_anchors[index as int].address
                            != self.call_probe_anchors[i].address);
                    }
                }
                decision
            },
        }
    }

    /// Records a new anchor; an anchor that was on the address is forgotten.
    pub fn install_anchor(
        &mut self,
        target_address: u64,
        gum_id: u32,
        module: Option<AnchorModuleIdentity>,
    )
        requires
            old(self).consistent(),
        ensures
            final(self).consistent(),
            final(self).same_threads(old(self)),
            final(self).call_probes@ == old(self).call_probes@,
            final(self).retired_call_probes@ == old(self).retired_call_probes@,
            final(self).call_probe_anchors@.len() > 0,
            final(self).call_probe_anchors@.last() == (CallProbeAnchor {
                address: target_address,
                gum_id,
                module,
            }),
            forall|i: int|
                0 <= i < final(self).call_probe_anchors@.len() - 1 ==> old(self).call_probe_anchors@.contains(#[trigger] final(self).call_probe_anchors@[i]),
            forall|address: u64|
                anchored(final(self).call_probe_anchors@, address) <==> anchored(
                    old(self).call_probe_anchors@,
                    address,
                ) || address == target_address,
    {
        let ghost before = self.call_probe_anchors@;
        match self.find_anchor(target_address) {
            None => {},
            Some(index) => {
                let _ = self.call_probe_anchors.remove(index);
                let ghost shorter = self.call_probe_anchors@;
                proof {
                    lemma_remove_anchor(before, index as int);
                }
            },
        }
        let ghost middle = self.call_probe_anchors@;
        self.call_probe_anchors.push(CallProbeAnchor { address: target_address, gum_id, module });
        let ghost after = self.call_probe_anchors@;
        assert(!anchored(middle, target_address));
        assert forall|i: int, j: int|
            #![trigger after[i], after[j]]
            0 <= i < j < after.len() implies after[i].address != after[j].address by {
            if j < middle.len() {
                assert(middle[i].address != middle[j].address);
            } else {
                assert(middle[i].address != target_address);
            }
        }
        assert forall|address: u64|
            anchored(after, address) <==> anchored(before, address) || address
                == target_address by {
            if anchored(after, address) && address != target_address {
                let i = choose|i: int| 0 <= i < after.len() && (#[trigger] after[i]).address == address;
                assert(middle[i].address == address);
                assert(anchored(middle, address));
            }
            if anchored(before, address) && address != target_address {
                assert(anchored(middle, address));
                let i = choose|i: int|
                    0 <= i < middle.len() && (#[trigger] middle[i]).address == address;
                assert(after[i].address == address);
            }
            if address == target_address {
                assert(after[middle.len() as int].address == address);
            }
        }
        assert forall|i: int| 0 <= i < after.len() - 1 implies before.contains(#[trigger] after[i]) by {
            assert(middle[i] == after[i]);
            assert(before.contains(middle[i]));
        }
    }

    /// Forgets the anchors that no probe needs any more, once no thread is followed or
    /// waits to be, and hands out the engine ids to remove. Removing the last probe of a
    /// block while a thread is followed would let that thread run off its end.
    pub fn prune_unused_call_probe_anchors(&mut self, following_me: bool) -> (removed: Vec<u32>)
        requires
            old(self).consistent(),
        ensures
            final(self).consistent(),
            final(self).same_threads(old(self)),
            final(self).call_probes@ == old(self).call_probes@,
            final(self).retired_call_probes@ == old(self).retired_call_probes@,
            old(self).active@.len() > 0 || old(self).pending@.len() > 0 || following_me ==> {
                &&& removed@.len() == 0
                &&& final(self).call_probe_anchors@ == old(self).call_probe_anchors@
            },
            old(self).active@.len() == 0 && old(self).pending@.len() == 0 && !following_me ==> {
                let anchors = old(self).call_probe_anchors@;
                let keep = Seq::new(
                    anchors.len(),
                    |i: int| probed(old(self).call_probes@, anchors[i].address),
                );
                &&& final(self).call_probe_anchors@ == kept_anchors(anchors, keep)
                &&& removed@ == dropped_anchor_ids(anchors, keep)
            },
    {
        if self.active.len() != 0 || self.pending.len() != 0 || following_me {
            return Vec::new();
        }
        let mut keep: Vec<bool> = Vec::new();
        let mut i: usize = 0;
        while i < self.call_probe_anchors.len()
            invariant
                i <= self.call_probe_anchors@.len(),
                keep@ == Seq::new(
                    i as nat,
                    |k: int| probed(self.call_probes@, self.call_probe_anchors@[k].address),
                ),
            decreases self.call_probe_anchors@.len() - i,
        {
            let address: u64 = self.call_probe_anchors[i].address;
            keep.push(self.is_probed(address));
            i = i + 1;
            assert(keep@ =~= Seq::new(
                i as nat,
                |k: int| probed(self.call_probes@, self.call_probe_anchors@[k].address),
            ));
        }
        proof {
            kept_anchors_stay_unique(self.call_probe_anchors@, keep@);
        }
        let ghost anchors = self.call_probe_anchors@;
        let removed: Vec<u32> = keep_anchors(&mut self.call_probe_anchors, &keep);
        assert(keep@ =~= Seq::new(
            anchors.len(),
            |k: int| probed(old(self).call_probes@, anchors[k].address),
        ));
        removed
    }

    /// Whether some probe is on the address.
    pub fn is_probed(&self, address: u64) -> (found: bool)
        ensures
            found == probed(self.call_probes@, address),
    {
        let mut i: usize = 0;
        while i < self.call_probes.len()
            invariant
                i <= self.call_probes@.len(),
                forall|k: int|
                    0 <= k < i ==> (#[trigger] self.call_probes@[k]).target_address != address,
            decreases self.call_probes@.len() - i,
        {
            if self.call_probes[i].target_address == address {
                return true;
            }
            i = i + 1;
        }
        false
    }

    /// The position of the probe with an id.
    pub fn find_probe(&self, id: u32) -> (index: Option<usize>)
        ensures
            index matches Some(i) ==> i < self.call_probes.len() && self.call_probes[i as int].id
                == id,
            index is Some <==> has_probe(self.call_probes@, id),
    {
        let mut i: usize = 0;
        while i < self.call_probes.len()
            invariant
                i <= self.call_probes.len(),
                forall|k: int| 0 <= k < i ==> (#[trigger] self.call_probes[k]).id != id,
            decreases self.call_probes.len() - i,
        {
            if self.call_probes[i].id == id {
                return Some(i);
            }
            i = i + 1;
        }
        None
    }
}

proof fn lemma_remove_anchor(anchors: Seq<CallProbeAnchor>, index: int)
    requires
        one_anchor_each(anchors),
        0 <= index < anchors.len(),
    ensures
        one_anchor_each(anchors.remove(index)),
        !anchored(anchors.remove(index), anchors[index].address),
        forall|address: u64|
            address != anchors[index].address ==> (anchored(anchors.remove(index), address)
                <==> anchored(anchors, address)),
        forall|i: int|
            0 <= i < anchors.len() - 1 ==> anchors.contains(#[trigger] anchors.remove(index)[i]),
{
    let shorter = anchors.remove(index);
    assert forall|i: int| 0 <= i < shorter.len() implies anchors.contains(#[trigger] shorter[i])
        && shorter[i].address != anchors[index].address by {
        if i < index {
            assert(anchors[i] == shorter[i]);
        } else {
            assert(anchors[i + 1] == shorter[i]);
        }
    }
    assert forall|i: int, j: int|
        #![trigger shorter[i], shorter[j]]
        0 <= i < j < shorter.len() implies shorter[i].address != shorter[j].address by {
        let a = if i < index {
            i
        } else {
            i + 1
        };
        let b = if j < index {
            j
        } else {
            j + 1
        };
        assert(anchors[a] == shorter[i]);
        assert(anchors[b] == shorter[j]);
    }
    assert forall|address: u64| address != anchors[index].address implies (anchored(shorter, address)
        <==> anchored(anchors, address)) by {
        if anchored(shorter, address) {
            let i = choose|i: int|
                0 <= i < shorter.len() && (#[trigger] shorter[i]).address == address;
            let a = if i < index {
                i
            } else {
                i + 1
            };
            assert(anchors[a] == shorter[i]);
        }
        if anchored(anchors, address) {
            let a = choose|a: int|
                0 <= a < anchors.len() && (#[trigger] anchors[a]).address == address;
            let i = if a < index {
                a
            } else {
                a - 1
            };
            assert(anchors[a] == shorter[i]);
        }
    }
}

/// The message for an id that is taken.
pub open spec fn probe_exists_message(id: u32) -> Seq<char> {
    "call probe "@ + numeral(id as nat, 10) + " already exists"@
}

/// The probe that a request and the engine's id for it stand for.
pub open spec fn probe_for(config: StalkerCallProbeConfig, gum_id: u32) -> ActiveCallProbe {
    ActiveCallProbe {
        id: config.id,
        gum_id,
        target_address: config.target_address,
        state: if config.native_callback != 0 {
            None
        } else {
            Some(CallProbeState { id: config.id, context: config.context })
        },
    }
}

/// Refuses a scripted probe that belongs to no script. By then its anchor stands.
pub fn check_call_probe(config: StalkerCallProbeConfig) -> (result: Result<(), String>)
    ensures
        result is Ok <==> config.native_callback != 0 || config.context != 0,
        result matches Err(message) ==> message@
            == "JavaScript call probe requires a JavaScript context"@,
{
    if config.native_callback == 0 && config.context == 0 {
        Err(String::from_str("JavaScript call probe requires a JavaScript context"))
    } else {
        Ok(())
    }
}

/// What was removed with a probe.
#[derive(Debug)]
pub struct RemovedProbe {
    /// The engine's id of the probe.
    pub gum_id: u32,
    /// The engine's ids of the anchors that are needed no longer.
    pub anchors: Vec<u32>,
}

/// What was forgotten because its module went away.
#[derive(Debug)]
pub struct RetiredRange {
    /// The engine's ids of the anchors in the module.
    pub anchors: Vec<u32>,
    /// The threads for which the code at the retired target has to be invalidated.
    pub threads: Vec<u64>,
}

/// The threads of a list of traces.
pub open spec fn thread_ids(traces: Seq<TraceBuffer>) -> Seq<u64> {
    Seq::new(traces.len(), |i: int| traces[i].thread_id)
}

impl StalkerRuntime {
    /// Records a probe that the engine has installed.
    pub fn add_call_probe(&mut self, config: StalkerCallProbeConfig, gum_id: u32)
        requires
            old(self).consistent(),
            !has_probe(old(self).call_probes@, config.id),
        ensures
            final(self).consistent(),
            final(self).same_threads(old(self)),
            final(self).call_probe_anchors@ == old(self).call_probe_anchors@,
            final(self).retired_call_probes@ == old(self).retired_call_probes@,
            final(self).call_probes@ == old(self).call_probes@.push(probe_for(config, gum_id)),
    {
        let state: Option<CallProbeState> = if config.native_callback != 0 {
            None
        } else {
            Some(CallProbeState { id: config.id, context: config.context })
        };
        let ghost before = self.call_probes@;
        self.call_probes.push(
            ActiveCallProbe { id: config.id, gum_id, target_address: config.target_address, state },
        );
        let ghost after = self.call_probes@;
        assert forall|i: int, j: int|
            #![trigger after[i], after[j]]
            0 <= i < j < after.len() implies after[i].id != after[j].id by {
            if j < before.len() {
                assert(before[i].id != before[j].id);
            } else {
                assert(before[i].id != config.id);
            }
        }
    }

    /// Forgets a probe. The state that a running callback may still refer to is kept
    /// until shutdown.
    pub fn remove_call_probe(&mut self, id: u32, following_me: bool) -> (removed: Option<RemovedProbe>)
        requires
            old(self).consistent(),
        ensures
            final(self).consistent(),
            final(self).same_threads(old(self)),
            removed is Some <==> has_probe(old(self).call_probes@, id),
            removed is None ==> *final(self) == *old(self),
            removed matches Some(r) ==> exists|index: int|
                {
                    &&& 0 <= index < old(self).call_probes@.len()
                    &&& (#[trigger] old(self).call_probes@[index]).id == id
                    &&& r.gum_id == old(self).call_probes@[index].gum_id
                    &&& final(self).call_probes@ == old(self).call_probes@.remove(index)
                    &&& final(self).retired_call_probes@ == match old(self).call_probes@[index].state {
                        Some(state) => old(self).retired_call_probes@.push(state),
                        None => old(self).retired_call_probes@,
                    }
                    &&& if old(self).active@.len() > 0 || old(self).pending@.len() > 0
                        || following_me {
                        &&& r.anchors@.len() == 0
                        &&& final(self).call_probe_anchors@ == old(self).call_probe_anchors@
                    } else {
                        let anchors = old(self).call_probe_anchors@;
                        let keep = Seq::new(
                            anchors.len(),
                            |i: int| probed(final(self).call_probes@, anchors[i].address),
                        );
                        &&& final(self).call_probe_anchors@ == kept_anchors(anchors, keep)
                        &&& r.anchors@ == dropped_anchor_ids(anchors, keep)
                    }
                },
    {
        match self.find_probe(id) {
            None => None,
            Some(index) => {
                let ghost before = self.call_probes@;
                let probe: ActiveCallProbe = self.call_probes.remove(index);
                let ghost after = self.call_probes@;
                assert forall|i: int, j: int|
                    #![trigger after[i], after[j]]
                    0 <= i < j < after.len() implies after[i].id != after[j].id by {
                    let a = if i < index {
                        i
                    } else {
                        i + 1
                    };
                    let b = if j < index {
                        j
                    } else {
                        j + 1
                    };
                    assert(before[a] == after[i]);
                    assert(before[b] == after[j]);
                }
                let anchors: Vec<u32> = self.prune_unused_call_probe_anchors(following_me);
                match probe.state {
                    Some(state) => {
                        self.retired_call_probes.push(state);
                    },
                    None => {},
                }
                assert(before[index as int].id == id);
                Some(RemovedProbe { gum_id: probe.gum_id, anchors })
            },
        }
    }

    /// Forgets the anchors in a module that went away. `retired_target` is the address
    /// of a replacement that went with it; its code is invalidated on every followed
    /// thread.
    pub fn retire_in_range(&mut self, base: u64, size: u64, retired_target: Option<u64>) -> (retired:
        RetiredRange)
        requires
            old(self).wf(),
        ensures
            final(self).wf(),
            old(self).consistent() ==> final(self).consistent(),
            final(self).same_threads(old(self)),
            final(self).call_probes@ == old(self).call_probes@,
            final(self).retired_call_probes@ == old(self).retired_call_probes@,
            ({
                let anchors = old(self).call_probe_anchors@;
                let keep = Seq::new(
                    anchors.len(),
                    |i: int| !in_range(anchors[i].address, base, size),
                );
                &&& final(self).call_probe_anchors@ == kept_anchors(anchors, keep)
                &&& retired.anchors@ == dropped_anchor_ids(anchors, keep)
            }),
            retired.threads@ == if retired_target is Some {
                thread_ids(old(self).active@)
            } else {
                Seq::empty()
            },
    {
        let mut keep: Vec<bool> = Vec::new();
        let mut i: usize = 0;
        while i < self.call_probe_anchors.len()
            invariant
                i <= self.call_probe_anchors@.len(),
                keep@ == Seq::new(
                    i as nat,
                    |k: int| !in_range(self.call_probe_anchors@[k].address, base, size),
                ),
            decreases self.call_probe_anchors@.len() - i,
        {
            keep.push(!address_is_in_range(self.call_probe_anchors[i].address, base, size));
            i = i + 1;
            assert(keep@ =~= Seq::new(
                i as nat,
                |k: int| !in_range(self.call_probe_anchors@[k].address, base, size),
            ));
        }
        proof {
            kept_anchors_stay_unique(self.call_probe_anchors@, keep@);
        }
        let ghost anchors_before = self.call_probe_anchors@;
        let anchors: Vec<u32> = keep_anchors(&mut self.call_probe_anchors, &keep);
        assert(keep@ =~= Seq::new(
            anchors_before.len(),
            |k: int| !in_range(anchors_before[k].address, base, size),
        ));
        let mut threads: Vec<u64> = Vec::new();
        if retired_target.is_some() {
            let mut k: usize = 0;
            while k < self.active.len()
                invariant
                    k <= self.active@.len(),
                    threads@ == thread_ids(self.active@).take(k as int),
                decreases self.active@.len() - k,
            {
                threads.push(self.active[k].thread_id);
                k = k + 1;
                assert(threads@ =~= thread_ids(self.active@).take(k as int));
            }
            assert(threads@ =~= thread_ids(self.active@));
        }
        RetiredRange { anchors, threads }
    }

    /// Counters of the runtime. Retired traces, and those that are gone, keep contributing
    /// what they dropped.
    pub fn statistics(&self) -> (statistics: StalkerStatistics)
        ensures
            statistics.traces@ == stable_sorted(
                Seq::new(self.active@.len(), |i: int| trace_statistics(self.active@[i])),
            ),
            statistics.dropped_events == self.dropped(),
            statistics.active_traces == self.active@.len(),
            statistics.pending_traces == self.pending@.len(),
            statistics.retired_traces == self.retired@.len(),
            statistics.active_call_probes == self.call_probes@.len(),
            statistics.retired_call_probes == self.retired_call_probes@.len(),
            statistics.call_probe_anchors == self.call_probe_anchors@.len(),
    {
        let mut traces: Vec<StalkerTraceStatistics> = Vec::new();
        let mut i: usize = 0;
        while i < self.active.len()
            invariant
                i <= self.active@.len(),
                traces@ == Seq::new(i as nat, |k: int| trace_statistics(self.active@[k])),
            decreases self.active@.len() - i,
        {
            traces.push(self.active[i].statistics());
            i = i + 1;
            assert(traces@ =~= Seq::new(i as nat, |k: int| trace_statistics(self.active@[k])));
        }
        let traces: Vec<StalkerTraceStatistics> = stable_sort(traces);
        StalkerStatistics {
            dropped_events: self.dropped_events(),
            active_traces: self.active.len() as u64,
            pending_traces: self.pending.len() as u64,
            retired_traces: self.retired.len() as u64,
            active_call_probes: self.call_probes.len() as u64,
            retired_call_probes: self.retired_call_probes.len() as u64,
            call_probe_anchors: self.call_probe_anchors.len() as u64,
            traces,
        }
    }
}

/// What a garbage collection of the engine yields.
#[derive(Debug)]
pub struct StalkerDrainResult {
    /// Whether the engine still holds on to something.
    pub pending: bool,
    pub batches: Vec<StalkerEventBatch>,
}

/// What stopping to follow a thread yields.
#[derive(Debug)]
pub struct UnfollowResult {
    /// The engine's ids of anchors that are needed no longer.
    pub anchors: Vec<u32>,
    pub batches: Vec<StalkerEventBatch>,
}

impl StalkerRuntimeSlot {
    /// Whether the backend refused for want of readiness, and nothing has changed.
    pub open spec fn refused(before: &StalkerRuntimeSlot, after: &StalkerRuntimeSlot, message: Seq<char>) -> bool {
        &&& before.lifecycle != StalkerLifecycle::Ready
        &&& *after == *before
        &&& message == not_ready_message(before.lifecycle)
    }

    /// Counters of the backend, at any point of its life. Without a runtime there is
    /// nothing to count but what earlier ones have dropped.
    pub fn backend_statistics(&self) -> (statistics: StalkerStatistics)
        ensures
            statistics.dropped_events == self.dropped(),
            match self.runtime {
                Some(runtime) => {
                    &&& statistics.traces@ == stable_sorted(
                        Seq::new(
                            runtime.active@.len(),
                            |i: int| trace_statistics(runtime.active@[i]),
                        ),
                    )
                    &&& statistics.active_traces == runtime.active@.len()
                    &&& statistics.pending_traces == runtime.pending@.len()
                    &&& statistics.retired_traces == runtime.retired@.len()
                    &&& statistics.active_call_probes == runtime.call_probes@.len()
                    &&& statistics.retired_call_probes == runtime.retired_call_probes@.len()
                    &&& statistics.call_probe_anchors == runtime.call_probe_anchors@.len()
                },
                None => {
                    &&& statistics.traces@.len() == 0
                    &&& statistics.active_traces == 0
                    &&& statistics.pending_traces == 0
                    &&& statistics.retired_traces == 0
                    &&& statistics.active_call_probes == 0
                    &&& statistics.retired_call_probes == 0
                    &&& statistics.call_probe_anchors == 0
                },
            },
    {
        match &self.runtime {
            Some(runtime) => runtime.statistics(),
            None => StalkerStatistics {
                dropped_events: self.dropped_before,
                active_traces: 0,
                pending_traces: 0,
                retired_traces: 0,
                active_call_probes: 0,
                retired_call_probes: 0,
                call_probe_anchors: 0,
                traces: Vec::new(),
            },
        }
    }

    /// Makes sure that there is a runtime.
    pub fn ensure_runtime(&mut self, supported: bool) -> (result: Result<(), String>)
        requires
            old(self).wf(),
        ensures
            final(self).wf(),
            final(self).lifecycle == old(self).lifecycle,
            result is Ok <==> old(self).lifecycle == StalkerLifecycle::Ready && (old(self).runtime is Some || supported),
            result is Ok ==> final(self).runtime is Some,
            old(self).runtime is Some ==> final(self).runtime == old(self).runtime,
            result is Ok && old(self).runtime is None ==> is_new_runtime(
                final(self).runtime->0,
                old(self).dropped_before,
            ),
            final(self).dropped_before == old(self).dropped_before,
            final(self).dropped() == old(self).dropped(),
            result matches Err(message) ==> {
                &&& *final(self) == *old(self)
                &&& message@ == if old(self).lifecycle != StalkerLifecycle::Ready {
                    not_ready_message(old(self).lifecycle)
                } else {
                    "Stalker is not supported on this platform"@
                }
            },
    {
        match self.require_ready() {
            Err(message) => {
                return Err(message);
            },
            Ok(_) => {},
        }
        if self.runtime.is_none() {
            if !supported {
                return Err(String::from_str("Stalker is not supported on this platform"));
            }
            self.runtime = Some(StalkerRuntime::new(self.dropped_before));
        }
        Ok(())
    }
}

/// Whether a runtime follows nothing and has never followed anything; earlier ones have
/// dropped `dropped_before` events.
pub open spec fn is_new_runtime(runtime: StalkerRuntime, dropped_before: u64) -> bool {
    &&& runtime.consistent()
    &&& runtime.dropped_before == dropped_before
    &&& runtime.active@ == Seq::<TraceBuffer>::empty()
    &&& runtime.execution_active@ == Set::<u64>::empty()
    &&& runtime.native_call_depth@ == Map::<u64, u64>::empty()
    &&& runtime.pending@ == Map::<u64, StalkerFollowConfig>::empty()
    &&& runtime.retired@ == Seq::<TraceBuffer>::empty()
    &&& runtime.call_probes@ == Seq::<ActiveCallProbe>::empty()
    &&& runtime.call_probe_anchors@ == Seq::<CallProbeAnchor>::empty()
    &&& runtime.retired_call_probes@ == Seq::<CallProbeState>::empty()
}

/// An address lies in a range if it is less than the size behind its base, counted around
/// the end of memory.
pub proof fn ranges_may_wrap_around(address: u64, base: u64, size: u64)
    ensures
        base + size <= 0x1_0000_0000_0000_0000 ==> (in_range(address, base, size) <==> base
            <= address < base + size),
        base + size > 0x1_0000_0000_0000_0000 ==> (in_range(address, base, size) <==> address
            >= base || address < base + size - 0x1_0000_0000_0000_0000),
{
}

/// A request to follow a thread is refused for thread zero, for a mask with bits beyond the
/// five kinds, and for a script's transformer without a script; for nothing else.
pub proof fn requests_are_refused_for_what_they_lack(config: StalkerFollowConfig)
    ensures
        follow_config_error(config) is None <==> config.thread_id != 0 && config.event_mask < 32
            && (config.transform ==> config.context != 0),
        config.thread_id == 0 ==> follow_config_error(config) == Some("threadId must be non-zero"@),
{
}

/// What the engine is asked for is what the request says: its thread, its mask, its
/// transformer and its sink. A worker is started only for a queue that is drained
/// periodically.
pub proof fn plans_are_what_requests_say(config: StalkerFollowConfig, current_thread: u64)
    requires
        config.event_mask < 32,
    ensures
        ({
            let plan = follow_plan(config, current_thread);
            &&& plan.thread_id == config.thread_id
            &&& plan.current <==> config.thread_id == current_thread
            &&& plan.event_mask == config.event_mask
            &&& plan.transform == config.transform
            &&& plan.context == config.context
            &&& plan.native_sink is None <==> config.native_event_callback == 0
            &&& plan.native_sink matches Some(sink) ==> sink.callback
                == config.native_event_callback && sink.data == config.native_event_data
            &&& plan.start_worker <==> config.queue_drain_interval > 0
                && config.native_event_callback == 0
        }),
        config.native_event_callback != 0 ==> queue_config(config).queue_capacity == 0
            && queue_config(config).queue_drain_interval == 0,
        config.native_event_callback == 0 ==> queue_config(config) == config,
{
    let mask = config.event_mask;
    assert(mask < 32 ==> mask & 0x1f == mask) by (bit_vector);
}

/// Draining yields the records of the traces that have any, thread by thread in their order;
/// a periodic drain only those of the traces that are due.
pub proof fn batches_are_the_records_of_their_threads(traces: Seq<TraceBuffer>, now: u64)
    ensures
        stored_batches(traces) == traces.filter(
            |t: TraceBuffer| t.queue.current@.len() > 0,
        ).map_values(|t: TraceBuffer| (t.thread_id, t.queue.current@)),
        due_batches(traces, now) == traces.filter(
            |t: TraceBuffer| t.queue.current@.len() > 0 && t.is_due(now),
        ).map_values(|t: TraceBuffer| (t.thread_id, t.queue.current@)),
    decreases traces.len(),
{
    reveal(Seq::filter);
    let some = |t: TraceBuffer| t.queue.current@.len() > 0;
    let due = |t: TraceBuffer| t.queue.current@.len() > 0 && t.is_due(now);
    let show = |t: TraceBuffer| (t.thread_id, t.queue.current@);
    if traces.len() == 0 {
        assert(stored_batches(traces) =~= traces.filter(some).map_values(show));
        assert(due_batches(traces, now) =~= traces.filter(due).map_values(show));
    } else {
        let front = traces.drop_last();
        batches_are_the_records_of_their_threads(front, now);
        let last = traces.last();
        assert(front.filter(some).push(last).map_values(show) =~= front.filter(some).map_values(
            show,
        ).push(show(last)));
        assert(front.filter(due).push(last).map_values(show) =~= front.filter(due).map_values(
            show,
        ).push(show(last)));
    }
}

/// A trace is drained periodically when its next drain has come, and not before.
pub proof fn drains_are_due_at_their_time(trace: TraceBuffer, now: u64)
    requires
        trace.wf(),
    ensures
        trace.drain_interval is None ==> !trace.is_due(now),
        trace.drain_interval is Some ==> (trace.is_due(now) <==> now >= trace.next_drain->0),
{
}

/// The dropped events of all traces are added up; the statistics of a trace show its thread,
/// its capacity, how many records of 32 bytes wait and how many events were dropped.
pub proof fn statistics_show_what_was_counted(traces: Seq<TraceBuffer>, trace: TraceBuffer)
    requires
        trace.queue.current@.len() <= u64::MAX,
    ensures
        total_dropped(Seq::empty()) == 0,
        total_dropped(traces.push(trace)) == total_dropped(traces) + trace.queue.dropped,
        trace_statistics(trace).thread_id == trace.thread_id,
        trace_statistics(trace).queue_capacity == trace.capacity,
        32 * trace_statistics(trace).queued_events <= trace.queue.current@.len() < 32 * (
        trace_statistics(trace).queued_events + 1),
        trace_statistics(trace).dropped_events == trace.queue.dropped,
{
    assert(traces.push(trace).drop_last() =~= traces);
}

/// An anchor is kept or dropped by its own mark: the kept ones stay in their order, and the
/// others are given back to the engine.
pub proof fn anchors_go_by_their_marks(
    anchors: Seq<CallProbeAnchor>,
    keep: Seq<bool>,
    anchor: CallProbeAnchor,
)
    requires
        anchors.len() == keep.len(),
    ensures
        kept_anchors(anchors.push(anchor), keep.push(true)) == kept_anchors(anchors, keep).push(
            anchor,
        ),
        kept_anchors(anchors.push(anchor), keep.push(false)) == kept_anchors(anchors, keep),
        dropped_anchor_ids(anchors.push(anchor), keep.push(true)) == dropped_anchor_ids(
            anchors,
            keep,
        ),
        dropped_anchor_ids(anchors.push(anchor), keep.push(false)) == dropped_anchor_ids(
            anchors,
            keep,
        ).push(anchor.gum_id),
{
    assert(anchors.push(anchor).drop_last() =~= anchors);
    assert(keep.push(true).drop_last() =~= keep);
    assert(keep.push(false).drop_last() =~= keep);
}

/// An anchor is replaced only where both the module that it was set in and the present one
/// are known and differ.
pub proof fn anchors_are_replaced_if_their_module_changed(
    anchor: CallProbeAnchor,
    identity: Option<AnchorModuleIdentity>,
)
    ensures
        anchor.module is None || identity is None ==> anchor_decision_at(anchor, identity) is Keep,
        anchor.module is Some && identity is Some && anchor.module->0@ == identity->0@
            ==> anchor_decision_at(anchor, identity) is Keep,
        anchor.module is Some && identity is Some && anchor.module->0@ != identity->0@
            ==> anchor_decision_at(anchor, identity) == AnchorDecision::Replace(anchor.gum_id),
{
}

/// A probe is the one that was asked for; only a scripted one keeps a script.
pub proof fn probes_are_what_was_asked_for(config: StalkerCallProbeConfig, gum_id: u32)
    ensures
        probe_for(config, gum_id).id == config.id,
        probe_for(config, gum_id).gum_id == gum_id,
        probe_for(config, gum_id).target_address == config.target_address,
        probe_for(config, gum_id).state is None <==> config.native_callback != 0,
        probe_for(config, gum_id).state matches Some(state) ==> state.id == config.id
            && state.context == config.context,
{
}

/// A followed thread enters a native call if the engine is in it; it is activated only for
/// the outermost call and if it is not active yet. A thread that is not followed is left
/// alone.
pub proof fn native_calls_activate_once(
    runtime: StalkerRuntime,
    thread_id: u64,
    following_me: bool,
)
    requires
        runtime.consistent(),
    ensures
        !traced(runtime.active@, thread_id) ==> activate_outcome(runtime, thread_id, following_me)
            == Ok::<ActivateDecision, Seq<char>>(
            ActivateDecision { followed: false, activate: false },
        ),
        traced(runtime.active@, thread_id) && !following_me ==> activate_outcome(
            runtime,
            thread_id,
            following_me,
        ) is Err,
        traced(runtime.active@, thread_id) && following_me && runtime.execution_active@.contains(
            thread_id,
        ) && (runtime.native_call_depth@.contains_key(thread_id)
            ==> runtime.native_call_depth@[thread_id] < u64::MAX) ==> activate_outcome(
            runtime,
            thread_id,
            following_me,
        ) == Ok::<ActivateDecision, Seq<char>>(
            ActivateDecision { followed: true, activate: false },
        ),
        traced(runtime.active@, thread_id) && following_me && !runtime.execution_active@.contains(
            thread_id,
        ) ==> activate_outcome(runtime, thread_id, following_me) == Ok::<
            ActivateDecision,
            Seq<char>,
        >(ActivateDecision { followed: true, activate: true }),
{
}

/// A thread that begins to be followed gets one trace more, at the end: an empty queue for as
/// many events as were asked for, and its first periodic drain after the interval in
/// milliseconds; with a native sink there is neither. Other traces and threads stay as they
/// were, and the thread executes inside the engine.
pub proof fn a_new_trace_is_what_was_asked_for(
    before: StalkerRuntime,
    after: StalkerRuntime,
    config: StalkerFollowConfig,
    now: u64,
)
    requires
        follow_started(before, after, config, now),
        now + 1_000_000 * config.queue_drain_interval <= u64::MAX,
        config.event_mask < 32,
    ensures
        after.active@.len() == before.active@.len() + 1,
        forall|i: int|
            0 <= i < before.active@.len() ==> #[trigger] after.active@[i] == before.active@[i],
        ({
            let trace = after.active@[before.active@.len() as int];
            &&& trace.thread_id == config.thread_id
            &&& trace.event_mask@ == config.event_mask
            &&& trace.queue.current@.len() == 0
            &&& trace.queue.dropped == 0
            &&& config.native_event_callback == 0 ==> trace.capacity == config.queue_capacity
            &&& config.native_event_callback != 0 ==> trace.capacity == 0 && trace.next_drain
                is None
            &&& config.queue_drain_interval == 0 ==> trace.next_drain is None
            &&& config.native_event_callback == 0 && config.queue_drain_interval > 0
                ==> trace.next_drain == Some(
                (now + 1_000_000 * config.queue_drain_interval) as u64,
            ) && trace.drain_interval == Some((1_000_000 * config.queue_drain_interval) as u64)
        }),
        after.execution_active@.contains(config.thread_id),
        forall|thread_id: u64|
            thread_id != config.thread_id ==> (#[trigger] after.execution_active@.contains(
                thread_id,
            ) <==> before.execution_active@.contains(thread_id)),
        after.pending@ == before.pending@,
        after.retired@ == before.retired@,
        after.native_call_depth@ == before.native_call_depth@,
        after.call_probes@ == before.call_probes@,
        after.call_probe_anchors@ == before.call_probe_anchors@,
{
    let mask = config.event_mask;
    assert(mask < 32 ==> mask & 0x1f == mask) by (bit_vector);
    assert forall|i: int| 0 <= i < before.active@.len() implies #[trigger] after.active@[i]
        == before.active@[i] by {
        assert(after.active@.drop_last()[i] == after.active@[i]);
    }
    assert(after.active@.last() == after.active@[before.active@.len() as int]);
}

/// A thread that is followed no longer leaves the active traces and joins the retired ones,
/// with its records; the engine no longer executes in it, and other threads stay as they
/// were.
pub proof fn a_retired_trace_keeps_its_records(
    before: StalkerRuntime,
    after: StalkerRuntime,
    index: int,
    other: u64,
)
    requires
        before.wf(),
        trace_retired(before, after, index),
    ensures
        after.retired@.len() == before.retired@.len() + 1,
        after.retired@.last() == before.active@[index],
        after.retired@.drop_last() == before.retired@,
        after.active@ == before.active@.take(index) + before.active@.skip(index + 1),
        !traced(after.active@, before.active@[index].thread_id),
        !after.execution_active@.contains(before.active@[index].thread_id),
        !after.native_call_depth@.contains_key(before.active@[index].thread_id),
        other != before.active@[index].thread_id ==> (after.execution_active@.contains(other)
            <==> before.execution_active@.contains(other)),
        after.pending@ == before.pending@,
        after.call_probes@ == before.call_probes@,
{
    let gone = before.active@[index];
    assert(after.retired@.drop_last() =~= before.retired@);
    assert(after.active@ =~= before.active@.take(index) + before.active@.skip(index + 1));
    if traced(after.active@, gone.thread_id) {
        let i = choose|i: int|
            0 <= i < after.active@.len() && (#[trigger] after.active@[i]).thread_id
                == gone.thread_id;
        let k = if i < index {
            i
        } else {
            i + 1
        };
        assert(after.active@[i] == before.active@[k]);
        assert(before.active@[k].thread_id != before.active@[index].thread_id);
    }
}

/// Draining empties queues and nothing else: threads, limits and the counts of dropped
/// events stay. A periodic drain touches only the traces that are due, and sets their next
/// drain one interval later.
pub proof fn drains_empty_queues_only(
    before: Seq<TraceBuffer>,
    all: Seq<TraceBuffer>,
    some: Seq<TraceBuffer>,
    now: u64,
    at: int,
)
    requires
        emptied(before, all),
        due_emptied(before, some, now),
        0 <= at < before.len(),
    ensures
        all.len() == before.len(),
        some.len() == before.len(),
        all[at].queue.current@.len() == 0,
        all[at].thread_id == before[at].thread_id,
        all[at].capacity == before[at].capacity,
        all[at].queue.dropped == before[at].queue.dropped,
        all[at].queue.byte_limit == before[at].queue.byte_limit,
        all[at].next_drain == before[at].next_drain,
        some[at].thread_id == before[at].thread_id,
        some[at].queue.dropped == before[at].queue.dropped,
        some[at].queue.byte_limit == before[at].queue.byte_limit,
        before[at].next_drain is Some && before[at].drain_interval is Some
            && before[at].next_drain->0 <= now && now + before[at].drain_interval->0 <= u64::MAX
            ==> some[at].queue.current@.len() == 0 && some[at].next_drain == Some(
            (now + before[at].drain_interval->0) as u64,
        ),
        before[at].next_drain is None || before[at].next_drain->0 > now ==> some[at] == before[at],
{
    assert(all[at].same_trace(&before[at]));
    assert(some[at].same_trace(&before[at]));
}

} // verus!
