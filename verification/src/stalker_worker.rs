//! The periodic drain worker, the replacement hook and the console commands of the
//! tracing backend.

use crate::events::{
    StalkerEventBatch, StalkerFollowConfig, TraceBuffer, EVENT_EXEC, EVENT_RECORD_SIZE,
    NANOS_PER_MILLI,
};
use crate::stalker::{
    address_is_in_range, in_range, FollowDecision, RetiredRange, StalkerLifecycle,
    StalkerRuntimeSlot, DEFAULT_QUEUE_CAPACITY, DEFAULT_QUEUE_DRAIN_INTERVAL,
};
use crate::stalker_backend::{a_followed_thread_is_not_followed_again, follow_step};
use crate::text::{numeral, prefixed_hex, push_numeral, push_prefixed_hex};
use vstd::prelude::*;
use vstd::string::*;

verus! {

/// Longest sleep of the worker, in nanoseconds.
pub const DRAIN_WORKER_POLL_SLICE: u64 = 100_000_000;

/// Sleep of the worker while nothing is drained periodically, in nanoseconds.
pub const DRAIN_WORKER_IDLE_POLL: u64 = 25_000_000;

/// The time until the earliest periodic drain of a list of traces, if there is one.
pub open spec fn earliest_drain(traces: Seq<TraceBuffer>, now: u64) -> Option<u64>
    decreases traces.len(),
{
    if traces.len() == 0 {
        None
    } else {
        let front = earliest_drain(traces.drop_last(), now);
        match traces.last().next_drain {
            None => front,
            Some(deadline) => {
                let remaining = if deadline > now {
                    (deadline - now) as u64
                } else {
                    0
                };
                match front {
                    Some(earlier) if earlier <= remaining => front,
                    _ => Some(remaining),
                }
            },
        }
    }
}

/// How long the worker sleeps: a moment while the backend is locked, the idle poll
/// while there is nothing to drain periodically, and otherwise until the earliest
/// drain, but never longer than one slice.
pub open spec fn drain_delay(slot: Option<StalkerRuntimeSlot>, now: u64) -> u64 {
    match slot {
        None => NANOS_PER_MILLI,
        Some(slot) => if slot.lifecycle != StalkerLifecycle::Ready || slot.runtime is None {
            DRAIN_WORKER_IDLE_POLL
        } else {
            match earliest_drain(slot.runtime->0.active@, now) {
                None => DRAIN_WORKER_IDLE_POLL,
                Some(remaining) => if remaining < DRAIN_WORKER_POLL_SLICE {
                    remaining
                } else {
                    DRAIN_WORKER_POLL_SLICE
                },
            }
        },
    }
}

/// How long the worker sleeps; `slot` is `None` while another thread holds the
/// backend.
pub fn next_periodic_drain_delay(slot: Option<&StalkerRuntimeSlot>, now: u64) -> (delay: u64)
    ensures
        delay == drain_delay(
            match slot {
                Some(slot) => Some(*slot),
                None => None,
            },
            now,
        ),
{
    let slot: &StalkerRuntimeSlot = match slot {
        None => {
            return NANOS_PER_MILLI;
        },
        Some(slot) => slot,
    };
    if !matches!(slot.lifecycle, StalkerLifecycle::Ready) {
        return DRAIN_WORKER_IDLE_POLL;
    }
    match &slot.runtime {
        None => DRAIN_WORKER_IDLE_POLL,
        Some(runtime) => {
            let mut earliest: Option<u64> = None;
            let mut i: usize = 0;
            assert(runtime.active@.take(0) =~= Seq::<TraceBuffer>::empty());
            while i < runtime.active.len()
                invariant
                    i <= runtime.active@.len(),
                    earliest == earliest_drain(runtime.active@.take(i as int), now),
                decreases runtime.active@.len() - i,
            {
                assert(runtime.active@.take(i + 1).drop_last() =~= runtime.active@.take(i as int));
                match runtime.active[i].time_until_drain(now) {
                    None => {},
                    Some(remaining) => {
                        earliest = match earliest {
                            Some(earlier) => if earlier <= remaining {
                                Some(earlier)
                            } else {
                                Some(remaining)
                            },
                            None => Some(remaining),
                        };
                    },
                }
                i = i + 1;
            }
            assert(runtime.active@.take(runtime.active@.len() as int) =~= runtime.active@);
            match earliest {
                None => DRAIN_WORKER_IDLE_POLL,
                Some(remaining) => if remaining < DRAIN_WORKER_POLL_SLICE {
                    remaining
                } else {
                    DRAIN_WORKER_POLL_SLICE
                },
            }
        },
    }
}

/// The milliseconds to sleep for a delay: whole ones, and at least one.
pub fn sleep_millis(delay: u64) -> (millis: i64)
    ensures
        millis == if delay / NANOS_PER_MILLI == 0 {
            1
        } else {
            delay / NANOS_PER_MILLI
        },
{
    let millis: u64 = delay / NANOS_PER_MILLI;
    if millis == 0 {
        1
    } else {
        millis as i64
    }
}

/// What the worker does next.
#[derive(Clone, Copy, Debug, PartialEq, Eq, Structural)]
pub enum WorkerStep {
    Exit,
    Sleep { millis: i64 },
    /// Hand the due events to the script.
    Dispatch,
}

/// What the worker does next, given whether it has been told to stop and how long it
/// is until the next drain.
pub fn drain_worker_step(stop: bool, delay: u64) -> (step: WorkerStep)
    ensures
        step == if stop {
            WorkerStep::Exit
        } else if delay != 0 {
            WorkerStep::Sleep {
                millis: if delay / NANOS_PER_MILLI == 0 {
                    1
                } else {
                    (delay / NANOS_PER_MILLI) as i64
                },
            }
        } else {
            WorkerStep::Dispatch
        },
{
    if stop {
        WorkerStep::Exit
    } else if delay != 0 {
        WorkerStep::Sleep { millis: sleep_millis(delay) }
    } else {
        WorkerStep::Dispatch
    }
}

/// What follows from a dispatch.
#[derive(Clone, Copy, Debug, PartialEq, Eq, Structural)]
pub struct DispatchOutcome {
    /// Whether an error has been reported since the last success.
    pub error_reported: bool,
    /// Whether the error has to be logged now.
    pub log: bool,
    /// Whether to pause for a millisecond.
    pub pause: bool,
}

/// Takes in the result of a dispatch: a delivery, no delivery, or an error, of which
/// only the first in a row is logged.
pub fn after_dispatch(error_reported: bool, delivered: Result<bool, String>) -> (outcome:
    DispatchOutcome)
    ensures
        outcome == match delivered {
            Ok(true) => DispatchOutcome { error_reported: false, log: false, pause: false },
            Ok(false) => DispatchOutcome { error_reported, log: false, pause: true },
            Err(_) => DispatchOutcome { error_reported: true, log: !error_reported, pause: true },
        },
{
    match delivered {
        Ok(handed_over) => if handed_over {
            DispatchOutcome { error_reported: false, log: false, pause: false }
        } else {
            DispatchOutcome { error_reported, log: false, pause: true }
        },
        Err(_) => DispatchOutcome { error_reported: true, log: !error_reported, pause: true },
    }
}

/// The worker thread as the backend knows it.
#[derive(Clone, Copy, Debug, PartialEq, Eq, Structural)]
pub struct DrainWorker {
    pub stop: bool,
    pub running: bool,
    pub tid: i32,
}

/// What follows from polling a worker that was told to stop.
#[derive(Clone, Copy, Debug, PartialEq, Eq, Structural)]
pub enum StopPoll {
    Stopped,
    TimedOut,
    Wait,
}

impl DrainWorker {
    /// A worker that has not been started.
    pub fn new() -> (worker: DrainWorker)
        ensures
            worker == (DrainWorker { stop: true, running: false, tid: 0 }),
    {
        DrainWorker { stop: true, running: false, tid: 0 }
    }

    /// Whether a thread has to be spawned; `alive` says whether the recorded thread
    /// exists.
    pub fn start(&mut self, alive: bool) -> (spawn: bool)
        ensures
            spawn == !(old(self).running && old(self).tid > 0 && alive),
            *final(self) == if spawn {
                DrainWorker { stop: false, running: true, tid: old(self).tid }
            } else {
                *old(self)
            },
    {
        if self.running && self.tid > 0 && alive {
            return false;
        }
        self.stop = false;
        self.running = true;
        true
    }

    /// Takes in the result of spawning the thread.
    pub fn spawned(&mut self, result: Result<i32, String>) -> (outcome: Result<(), String>)
        ensures
            match result {
                Ok(tid) => {
                    &&& outcome is Ok
                    &&& *final(self) == (DrainWorker { tid, ..*old(self) })
                },
                Err(error) => {
                    &&& outcome matches Err(message)
                    &&& message@ == "failed to start Stalker drain worker: "@ + error@
                    &&& *final(self) == (DrainWorker {
                        stop: true,
                        running: false,
                        tid: old(self).tid,
                    })
                },
            },
    {
        match result {
            Ok(tid) => {
                self.tid = tid;
                Ok(())
            },
            Err(error) => {
                self.stop = true;
                self.running = false;
                let mut message: String = String::from_str("failed to start Stalker drain worker: ");
                message.append(error.as_str());
                Err(message)
            },
        }
    }

    /// Tells the worker to stop. The result says whether there is a thread to wait for.
    pub fn request_stop(&mut self) -> (wait: bool)
        ensures
            wait == (old(self).tid > 0),
            *final(self) == (DrainWorker {
                stop: true,
                running: old(self).running && old(self).tid > 0,
                tid: old(self).tid,
            }),
    {
        self.stop = true;
        if self.tid <= 0 {
            self.running = false;
            return false;
        }
        true
    }

    /// Looks after a worker that was told to stop.
    pub fn poll_stop(&mut self, alive: bool, elapsed: u64, timeout: u64) -> (poll: StopPoll)
        ensures
            poll == if !alive {
                StopPoll::Stopped
            } else if elapsed >= timeout {
                StopPoll::TimedOut
            } else {
                StopPoll::Wait
            },
            *final(self) == if !alive {
                DrainWorker { stop: old(self).stop, running: false, tid: 0 }
            } else {
                *old(self)
            },
    {
        if alive {
            if elapsed >= timeout {
                StopPoll::TimedOut
            } else {
                StopPoll::Wait
            }
        } else {
            self.tid = 0;
            self.running = false;
            StopPoll::Stopped
        }
    }

    /// The worker's last act.
    pub fn exited(&mut self)
        ensures
            *final(self) == (DrainWorker { running: false, ..*old(self) }),
    {
        self.running = false;
    }
}

/// The request for a thread that is followed from the console; thread zero stands for
/// the current one.
pub open spec fn console_config(tid: u64, current_thread: u64) -> StalkerFollowConfig {
    StalkerFollowConfig {
        thread_id: if tid == 0 {
            current_thread
        } else {
            tid
        },
        event_mask: EVENT_EXEC,
        queue_capacity: DEFAULT_QUEUE_CAPACITY,
        queue_drain_interval: DEFAULT_QUEUE_DRAIN_INTERVAL,
        transform: false,
        context: 0,
        native_event_callback: 0,
        native_event_data: 0,
        defer_current_thread: false,
    }
}

/// The request for a thread that is followed from the console.
pub fn follow(tid: u64, current_thread: u64) -> (config: StalkerFollowConfig)
    ensures
        config == console_config(tid, current_thread),
{
    let thread_id: u64 = if tid == 0 {
        current_thread
    } else {
        tid
    };
    StalkerFollowConfig {
        thread_id,
        event_mask: EVENT_EXEC,
        queue_capacity: DEFAULT_QUEUE_CAPACITY,
        queue_drain_interval: DEFAULT_QUEUE_DRAIN_INTERVAL,
        transform: false,
        context: 0,
        native_event_callback: 0,
        native_event_data: 0,
        defer_current_thread: false,
    }
}

/// What the console says about a thread that was to be followed.
pub open spec fn follow_text(thread_id: u64, result: Result<FollowDecision, String>) -> Seq<char> {
    match result {
        Ok(_) => "Stalker following thread "@ + numeral(thread_id as nat, 10),
        Err(error) => "Stalker follow failed: "@ + error@,
    }
}

/// A thread that was followed from the console and still is, is not followed again: the
/// console says so, and nothing changes. Thread zero stands for the current one.
pub proof fn following_twice_is_refused(
    before: StalkerRuntimeSlot,
    tid: u64,
    begun: Result<FollowDecision, String>,
    between: StalkerRuntimeSlot,
    again: u64,
    refused: Result<FollowDecision, String>,
    after: StalkerRuntimeSlot,
    supported: bool,
    current_thread: u64,
    now: u64,
    later: u64,
)
    requires
        tid != 0,
        again == tid || (again == 0 && current_thread == tid),
        follow_step(
            before,
            console_config(tid, current_thread),
            supported,
            current_thread,
            now,
            begun,
            between,
        ),
        begun is Ok,
        follow_step(
            between,
            console_config(again, current_thread),
            supported,
            current_thread,
            later,
            refused,
            after,
        ),
    ensures
        after == between,
        follow_text(tid, refused) == "Stalker follow failed: "@ + ("thread "@ + numeral(
            tid as nat,
            10,
        ) + " is already being followed"@),
{
    a_followed_thread_is_not_followed_again(
        before,
        console_config(tid, current_thread),
        begun,
        between,
        console_config(again, current_thread),
        refused,
        after,
        supported,
        current_thread,
        now,
        later,
    );
}

/// What the console says about a thread that was to be followed.
pub fn follow_message(thread_id: u64, result: &Result<FollowDecision, String>) -> (message: String)
    ensures
        message@ == follow_text(thread_id, *result),
{
    match result {
        Ok(_) => {
            let mut message: String = String::from_str("Stalker following thread ");
            push_numeral(&mut message, thread_id, 10);
            message
        },
        Err(error) => {
            let mut message: String = String::from_str("Stalker follow failed: ");
            message.append(error.as_str());
            message
        },
    }
}

/// The number of events in a list of batches.
pub open spec fn event_count(batches: Seq<StalkerEventBatch>) -> nat
    decreases batches.len(),
{
    if batches.len() == 0 {
        0
    } else {
        event_count(batches.drop_last()) + batches.last().data@.len() / EVENT_RECORD_SIZE as nat
    }
}

proof fn lemma_event_count_grows(batches: Seq<StalkerEventBatch>, count: int)
    requires
        0 <= count <= batches.len(),
    ensures
        event_count(batches.take(count)) <= event_count(batches),
    decreases batches.len(),
{
    if count < batches.len() {
        lemma_event_count_grows(batches.drop_last(), count);
        assert(batches.drop_last().take(count) =~= batches.take(count));
    } else {
        assert(batches.take(count) =~= batches);
    }
}

/// What the console says about a thread that was to be followed no longer.
pub fn unfollow(tid: u64, current_thread: u64, result: &Result<Vec<StalkerEventBatch>, String>) -> (message:
    String)
    requires
        result matches Ok(batches) ==> event_count(batches@) <= u64::MAX,
    ensures
        ({
            let thread_id = if tid == 0 {
                current_thread
            } else {
                tid
            };
            message@ == match *result {
                Ok(batches) => "Stalker stopped thread "@ + numeral(thread_id as nat, 10) + " ("@
                    + numeral(event_count(batches@), 10) + " events)"@,
                Err(error) => "Stalker stop failed: "@ + error@,
            }
        }),
{
    let thread_id: u64 = if tid == 0 {
        current_thread
    } else {
        tid
    };
    match result {
        Ok(batches) => {
            let mut events: u64 = 0;
            let mut i: usize = 0;
            assert(batches@.take(0) =~= Seq::<StalkerEventBatch>::empty());
            while i < batches.len()
                invariant
                    i <= batches@.len(),
                    event_count(batches@) <= u64::MAX,
                    events == event_count(batches@.take(i as int)),
                decreases batches@.len() - i,
            {
                assert(batches@.take(i + 1).drop_last() =~= batches@.take(i as int));
                proof {
                    lemma_event_count_grows(batches@, i + 1);
                }
                events = events + (batches[i].data.len() / EVENT_RECORD_SIZE) as u64;
                i = i + 1;
            }
            assert(batches@.take(batches@.len() as int) =~= batches@);
            let mut message: String = String::from_str("Stalker stopped thread ");
            push_numeral(&mut message, thread_id, 10);
            message.append(" (");
            push_numeral(&mut message, events, 10);
            message.append(" events)");
            message
        },
        Err(error) => {
            let mut message: String = String::from_str("Stalker stop failed: ");
            message.append(error.as_str());
            message
        },
    }
}

/// A function that the replacement hook stands in for, and the original behind it.
#[derive(Clone, Copy, Debug, PartialEq, Eq, Structural)]
pub struct HfollowState {
    pub target: Option<u64>,
    pub original: u64,
}

/// How a replacement is taken back.
#[derive(Clone, Copy, Debug, PartialEq, Eq, Structural)]
pub enum HfollowRelease {
    Nothing,
    /// Put the code back.
    Revert(u64),
    /// Forget the hook; its code is gone.
    Discard(u64),
}

/// How the replacement of a target is taken back: its code is touched only if it is
/// still mapped.
pub open spec fn release_of(target: Option<u64>, mapped: bool) -> HfollowRelease {
    match target {
        None => HfollowRelease::Nothing,
        Some(target) => if mapped {
            HfollowRelease::Revert(target)
        } else {
            HfollowRelease::Discard(target)
        },
    }
}

impl HfollowState {
    pub fn new() -> (state: HfollowState)
        ensures
            state == (HfollowState { target: None, original: 0 }),
    {
        HfollowState { target: None, original: 0 }
    }

    fn take_target(&mut self, mapped: bool) -> (release: HfollowRelease)
        ensures
            release == release_of(old(self).target, mapped),
            *final(self) == (HfollowState { target: None, original: old(self).original }),
    {
        match self.target.take() {
            None => HfollowRelease::Nothing,
            Some(target) => if mapped {
                HfollowRelease::Revert(target)
            } else {
                HfollowRelease::Discard(target)
            },
        }
    }

    /// Takes the replacement back for good.
    pub fn shutdown_hfollow(&mut self, mapped: bool) -> (release: HfollowRelease)
        ensures
            release == release_of(old(self).target, mapped),
            *final(self) == (HfollowState { target: None, original: 0 }),
    {
        let release: HfollowRelease = self.take_target(mapped);
        self.original = 0;
        release
    }

    /// Forgets the replacement if its target lay in a module that went away. The engine
    /// has dropped the hook by then, so the code is not touched.
    pub fn retire_hfollow_in_range(&mut self, base: u64, size: u64) -> (retired: Option<u64>)
        ensures
            retired == match old(self).target {
                Some(target) if in_range(target, base, size) => Some(target),
                _ => None,
            },
            *final(self) == if retired is Some {
                HfollowState { target: None, original: 0 }
            } else {
                *old(self)
            },
    {
        match self.target {
            None => None,
            Some(target) => {
                if !address_is_in_range(target, base, size) {
                    return None;
                }
                self.target = None;
                self.original = 0;
                Some(target)
            },
        }
    }

    /// Begins to replace another function: takes the present replacement back.
    pub fn hfollow(&mut self, mapped: bool) -> (release: HfollowRelease)
        ensures
            release == release_of(old(self).target, mapped),
            *final(self) == (HfollowState { target: None, original: old(self).original }),
    {
        self.take_target(mapped)
    }

    /// Takes in the result of installing a replacement, with the log line for it.
    pub fn hfollow_installed(&mut self, target: u64, result: Result<u64, String>) -> (message: String)
        ensures
            match result {
                Ok(original) => {
                    &&& *final(self) == (HfollowState { target: Some(target), original })
                    &&& message@ == "Frida Interceptor replacement installed at "@ + prefixed_hex(
                        target as nat,
                    )
                },
                Err(error) => {
                    &&& *final(self) == *old(self)
                    &&& message@ == "Frida Interceptor replacement failed: "@ + error@
                },
            },
    {
        match result {
            Ok(original) => {
                self.original = original;
                self.target = Some(target);
                let mut message: String = String::from_str(
                    "Frida Interceptor replacement installed at ",
                );
                push_prefixed_hex(&mut message, target);
                message
            },
            Err(error) => {
                let mut message: String = String::from_str(
                    "Frida Interceptor replacement failed: ",
                );
                message.append(error.as_str());
                message
            },
        }
    }

    /// The function that a call of the replacement goes on to, if there is one.
    pub fn replacecb(&self) -> (original: Option<u64>)
        ensures
            original == if self.original == 0 {
                None
            } else {
                Some(self.original)
            },
    {
        if self.original == 0 {
            None
        } else {
            Some(self.original)
        }
    }
}

/// What the agent keeps of the tracing engine besides its own state.
#[derive(Clone, Copy, Debug, PartialEq, Eq, Structural)]
pub struct EngineHandles {
    /// Whether module removals are observed.
    pub observing: bool,
    /// Whether the engine is kept initialised.
    pub engine: bool,
}

impl EngineHandles {
    pub fn new() -> (handles: EngineHandles)
        ensures
            handles == (EngineHandles { observing: false, engine: false }),
    {
        EngineHandles { observing: false, engine: false }
    }

    /// Keeps the engine initialised from now on.
    pub fn retain_gum(&mut self)
        ensures
            *final(self) == (EngineHandles { engine: true, ..*old(self) }),
    {
        self.engine = true;
    }

    /// Observes module removals, if that has not begun; `connected` says whether the
    /// engine could be asked for it.
    pub fn install_module_unload_observer(&mut self, connected: bool) -> (result: Result<(), String>)
        ensures
            result is Ok <==> old(self).observing || connected,
            result matches Err(message) ==> message@ == "failed to observe Gum module removals"@,
            *final(self) == if old(self).observing {
                *old(self)
            } else {
                EngineHandles { observing: connected, engine: true }
            },
    {
        if self.observing {
            return Ok(());
        }
        self.retain_gum();
        if !connected {
            return Err(String::from_str("failed to observe Gum module removals"));
        }
        self.observing = true;
        Ok(())
    }
}

/// Drops the observer while the engine stays initialised: it cannot be initialised a second
/// time in the same process. The result says whether there is an observer to disconnect.
pub fn pause_module_unload_observer_for_reload(handles: &mut EngineHandles) -> (disconnect: bool)
    ensures
        *final(handles) == (EngineHandles { observing: false, ..*old(handles) }),
        disconnect == old(handles).observing,
{
    let disconnect: bool = handles.observing;
    handles.observing = false;
    disconnect
}

/// What has to be done to let the engine go.
#[derive(Clone, Copy, Debug, PartialEq, Eq, Structural)]
pub struct EngineRelease {
    /// Disconnect the observer.
    pub disconnect: bool,
    /// Forget the handle on the engine without dropping it: the last drop would take the
    /// engine down, and it faults while it does so.
    pub leak: bool,
}

/// Lets the engine go: the observer is disconnected, and a handle that is held is leaked,
/// never dropped, so that the engine stays initialised.
pub fn shutdown_module_observer(handles: &mut EngineHandles) -> (release: EngineRelease)
    ensures
        *final(handles) == (EngineHandles { observing: false, engine: false }),
        release == (EngineRelease {
            disconnect: old(handles).observing,
            leak: old(handles).engine,
        }),
{
    let disconnect: bool = pause_module_unload_observer_for_reload(handles);
    let leak: bool = handles.engine;
    handles.engine = false;
    EngineRelease { disconnect, leak }
}

/// Makes the backend ready and observes module removals.
pub fn install_quickjs_backend(
    slot: &mut StalkerRuntimeSlot,
    handles: &mut EngineHandles,
    connected: bool,
) -> (result: Result<(), String>)
    requires
        old(slot).wf(),
    ensures
        final(slot).wf(),
        final(slot).runtime == old(slot).runtime,
        final(slot).dropped_before == old(slot).dropped_before,
        match old(slot).lifecycle {
            StalkerLifecycle::ShuttingDown => {
                &&& *final(slot) == *old(slot)
                &&& *final(handles) == *old(handles)
                &&& result matches Err(message)
                &&& message@ == "Stalker shutdown is still in progress"@
            },
            StalkerLifecycle::Retained => {
                &&& *final(slot) == *old(slot)
                &&& *final(handles) == *old(handles)
                &&& result matches Err(message)
                &&& message@ == "previous Stalker shutdown did not complete"@
            },
            _ => {
                &&& final(slot).lifecycle == StalkerLifecycle::Ready
                &&& *final(handles) == if old(handles).observing {
                    *old(handles)
                } else {
                    EngineHandles { observing: connected, engine: true }
                }
                &&& result is Ok <==> old(handles).observing || connected
                &&& result matches Err(message) ==> message@
                    == "failed to observe Gum module removals"@
            },
        },
{
    match slot.activate() {
        Err(message) => Err(message),
        Ok(_) => handles.install_module_unload_observer(connected),
    }
}

/// Takes in that a module went away: the replacement hook in it is forgotten first, so
/// that its code can be invalidated together with the anchors.
pub fn module_removed(
    slot: &mut StalkerRuntimeSlot,
    hfollow: &mut HfollowState,
    base: u64,
    size: u64,
) -> (retired: RetiredRange)
    requires
        old(slot).wf(),
    ensures
        final(slot).wf(),
        final(slot).lifecycle == old(slot).lifecycle,
        final(slot).dropped_before == old(slot).dropped_before,
        *final(hfollow) == match old(hfollow).target {
            Some(target) if in_range(target, base, size) => HfollowState { target: None, original: 0 },
            _ => *old(hfollow),
        },
        old(slot).runtime is None ==> {
            &&& *final(slot) == *old(slot)
            &&& retired.anchors@.len() == 0
            &&& retired.threads@.len() == 0
        },
        old(slot).runtime is Some ==> {
            let before = old(slot).runtime->0;
            let anchors = before.call_probe_anchors@;
            let keep = Seq::new(anchors.len(), |i: int| !in_range(anchors[i].address, base, size));
            &&& final(slot).runtime is Some
            &&& final(slot).runtime->0.same_threads(&before)
            &&& final(slot).runtime->0.call_probes@ == before.call_probes@
            &&& final(slot).runtime->0.retired_call_probes@ == before.retired_call_probes@
            &&& final(slot).runtime->0.call_probe_anchors@ == crate::stalker::kept_anchors(
                anchors,
                keep,
            )
            &&& retired.anchors@ == crate::stalker::dropped_anchor_ids(anchors, keep)
            &&& retired.threads@ == match old(hfollow).target {
                Some(target) if in_range(target, base, size) => crate::stalker::thread_ids(
                    before.active@,
                ),
                _ => Seq::empty(),
            }
        },
{
    let target: Option<u64> = hfollow.retire_hfollow_in_range(base, size);
    slot.retire_stalker_state_in_range(base, size, target)
}

/// The registers that a callout can read and write.
#[derive(Clone, Copy, Debug)]
pub struct CalloutRegisters {
    pub x: [u64; 29],
    pub fp: u64,
    pub lr: u64,
    pub sp: u64,
    pub pc: u64,
    pub nzcv: u64,
}

/// The register with a field number: the general registers, then the frame pointer,
/// the link register, the stack pointer, the program counter and the flags.
pub open spec fn register_field(registers: CalloutRegisters, field: u32) -> u64 {
    if field <= 28 {
        registers.x@[field as int]
    } else if field == 29 {
        registers.fp
    } else if field == 30 {
        registers.lr
    } else if field == 31 {
        registers.sp
    } else if field == 32 {
        registers.pc
    } else if field == 33 {
        registers.nzcv
    } else {
        0
    }
}

impl CalloutRegisters {
    /// The register with a field number, or zero.
    pub fn callout_get_register(&self, field: u32) -> (value: u64)
        ensures
            value == register_field(*self, field),
    {
        if field <= 28 {
            self.x[field as usize]
        } else if field == 29 {
            self.fp
        } else if field == 30 {
            self.lr
        } else if field == 31 {
            self.sp
        } else if field == 32 {
            self.pc
        } else if field == 33 {
            self.nzcv
        } else {
            0
        }
    }

    /// Sets the register with a field number; other numbers are ignored.
    pub fn callout_set_register(&mut self, field: u32, value: u64)
        ensures
            forall|other: u32| #[trigger]
                register_field(*final(self), other) == if other == field && field <= 33 {
                    value
                } else {
                    register_field(*old(self), other)
                },
    {
        if field <= 28 {
            self.x[field as usize] = value;
        } else if field == 29 {
            self.fp = value;
        } else if field == 30 {
            self.lr = value;
        } else if field == 31 {
            self.sp = value;
        } else if field == 32 {
            self.pc = value;
        } else if field == 33 {
            self.nzcv = value;
        }
    }
}

/// How many bytes of an instruction's byte buffer belong to it.
pub fn instruction_bytes_len(size: u16, buffer: usize) -> (length: u32)
    ensures
        length == if size <= buffer {
            size as int
        } else {
            buffer as int
        },
{
    if size as usize <= buffer {
        size as u32
    } else {
        buffer as u32
    }
}

/// Whether a callout can be put: there is an iterator, a script and an id.
pub fn callout_accepted(iterator: u64, context: u64, id: u32) -> (accepted: bool)
    ensures
        accepted == (iterator != 0 && context != 0 && id != 0),
{
    iterator != 0 && context != 0 && id != 0
}

/// The vector registers that a callout can read and write.
#[derive(Clone, Copy, Debug)]
pub struct VectorRegisters {
    pub v: [[u8; 16]; 32],
}

impl VectorRegisters {
    /// The vector register with a number, if there is one.
    pub fn callout_get_vector(&self, index: u32) -> (value: Option<[u8; 16]>)
        ensures
            value == if index < 32 {
                Some(self.v@[index as int])
            } else {
                None
            },
    {
        if index >= 32 {
            return None;
        }
        Some(self.v[index as usize])
    }

    /// Sets the vector register with a number. The result says whether there is one.
    pub fn callout_set_vector(&mut self, index: u32, value: [u8; 16]) -> (set: bool)
        ensures
            set == (index < 32),
            final(self).v@ == if index < 32 {
                old(self).v@.update(index as int, value)
            } else {
                old(self).v@
            },
    {
        if index >= 32 {
            return false;
        }
        self.v[index as usize] = value;
        true
    }
}

/// An instruction as the decoder gives it.
#[derive(Debug)]
pub struct RawInstruction {
    pub id: u32,
    pub address: u64,
    pub size: u16,
    pub bytes: Vec<u8>,
    pub mnemonic: Vec<i8>,
    pub op_str: Vec<i8>,
}

/// An instruction as a transformer sees it. The texts fill their fields from the front.
#[derive(Debug)]
pub struct StalkerInstruction {
    pub id: u32,
    pub address: u64,
    pub size: u32,
    pub bytes_len: u32,
    pub bytes: Vec<u8>,
    pub mnemonic: Vec<u8>,
    pub op_str: Vec<u8>,
}

/// A text in a field of the given length: cut where it is longer, with zeros behind it
/// where it is shorter.
pub open spec fn text_field(text: Seq<i8>, length: nat) -> Seq<u8> {
    Seq::new(
        length,
        |i: int|
            if i < text.len() {
                text[i] as u8
            } else {
                0u8
            },
    )
}

fn fill_text_field(text: &Vec<i8>, length: usize) -> (field: Vec<u8>)
    ensures
        field@ == text_field(text@, length as nat),
{
    let mut field: Vec<u8> = Vec::new();
    let mut i: usize = 0;
    while i < length
        invariant
            i <= length,
            field@.len() == i,
            forall|k: int|
                0 <= k < i ==> #[trigger] field@[k] == text_field(text@, length as nat)[k],
        decreases length - i,
    {
        if i < text.len() {
            field.push(text[i] as u8);
        } else {
            field.push(0);
        }
        i = i + 1;
    }
    assert(field@ =~= text_field(text@, length as nat));
    field
}

/// What a transformer sees of the next instruction, whose texts have fields of the given
/// lengths.
pub fn transform_iterator_next(
    instruction: RawInstruction,
    mnemonic_length: usize,
    op_str_length: usize,
) -> (snapshot: StalkerInstruction)
    ensures
        snapshot.id == instruction.id,
        snapshot.address == instruction.address,
        snapshot.size == instruction.size,
        snapshot.bytes_len == if instruction.size <= instruction.bytes@.len() {
            instruction.size as int
        } else {
            instruction.bytes@.len() as int
        },
        snapshot.bytes == instruction.bytes,
        snapshot.mnemonic@ == text_field(instruction.mnemonic@, mnemonic_length as nat),
        snapshot.op_str@ == text_field(instruction.op_str@, op_str_length as nat),
{
    let bytes_len: u32 = instruction_bytes_len(instruction.size, instruction.bytes.len());
    let mnemonic: Vec<u8> = fill_text_field(&instruction.mnemonic, mnemonic_length);
    let op_str: Vec<u8> = fill_text_field(&instruction.op_str, op_str_length);
    StalkerInstruction {
        id: instruction.id,
        address: instruction.address,
        size: instruction.size as u32,
        bytes_len,
        bytes: instruction.bytes,
        mnemonic,
        op_str,
    }
}

/// The time until the earliest drain is that of the trace whose drain comes first; a drain
/// that is overdue needs no waiting, and traces without one do not count.
pub proof fn the_earliest_drain_comes_first(traces: Seq<TraceBuffer>, now: u64, at: int)
    ensures
        earliest_drain(traces, now) is None <==> forall|i: int|
            0 <= i < traces.len() ==> (#[trigger] traces[i]).next_drain is None,
        earliest_drain(traces, now) matches Some(wait) ==> {
            &&& 0 <= at < traces.len() && traces[at].next_drain is Some ==> now + wait
                <= traces[at].next_drain->0 || wait == 0
            &&& wait > 0 ==> exists|i: int|
                0 <= i < traces.len() && (#[trigger] traces[i]).next_drain == Some(
                    (now + wait) as u64,
                ) && now + wait <= u64::MAX
            &&& wait == 0 ==> exists|i: int|
                0 <= i < traces.len() && (#[trigger] traces[i]).next_drain is Some
                    && traces[i].next_drain->0 <= now
        },
    decreases traces.len(),
{
    if traces.len() > 0 {
        let front = traces.drop_last();
        the_earliest_drain_comes_first(front, now, at);
        let last = traces[traces.len() - 1];
        assert(last == traces.last());
        assert(forall|i: int| 0 <= i < front.len() ==> #[trigger] front[i] == traces[i]);
        if earliest_drain(front, now) is Some {
            let wait = earliest_drain(front, now)->0;
            if wait > 0 {
                let i = choose|i: int|
                    0 <= i < front.len() && (#[trigger] front[i]).next_drain == Some(
                        (now + wait) as u64,
                    ) && now + wait <= u64::MAX;
                assert(traces[i] == front[i]);
            } else {
                let i = choose|i: int|
                    0 <= i < front.len() && (#[trigger] front[i]).next_drain is Some
                        && front[i].next_drain->0 <= now;
                assert(traces[i] == front[i]);
            }
        } else {
            assert forall|i: int| 0 <= i < front.len() implies (
            #[trigger] traces[i]).next_drain is None by {
                assert(front[i].next_drain is None);
            }
        }
        if forall|i: int| 0 <= i < traces.len() ==> (#[trigger] traces[i]).next_drain is None {
            assert forall|i: int| 0 <= i < front.len() implies (
            #[trigger] front[i]).next_drain is None by {
                assert(traces[i].next_drain is None);
            }
        }
    }
}

/// The worker sleeps a millisecond while the backend is locked, twenty-five while there is
/// nothing to drain, and else until the earliest drain, but a hundred at most.
pub proof fn the_worker_wakes_in_time(slot: StalkerRuntimeSlot, now: u64)
    ensures
        drain_delay(None, now) == 1_000_000,
        slot.lifecycle != StalkerLifecycle::Ready || slot.runtime is None ==> drain_delay(
            Some(slot),
            now,
        ) == 25_000_000,
        slot.lifecycle == StalkerLifecycle::Ready && slot.runtime is Some ==> {
            let wait = earliest_drain(slot.runtime->0.active@, now);
            let delay = drain_delay(Some(slot), now);
            &&& wait is None ==> delay == 25_000_000
            &&& wait matches Some(w) ==> delay <= w && delay <= 100_000_000 && (delay == w || delay
                == 100_000_000)
        },
{
}

/// From the console a thread is followed instruction by instruction, with a queue of 16384
/// events that is drained four times a second, and without a script.
pub proof fn the_console_follows_instructions(tid: u64, current_thread: u64)
    ensures
        ({
            let config = console_config(tid, current_thread);
            &&& tid != 0 ==> config.thread_id == tid
            &&& tid == 0 ==> config.thread_id == current_thread
            &&& config.event_mask == 4
            &&& config.queue_capacity == 16384
            &&& 4 * config.queue_drain_interval == 1000
            &&& !config.transform && config.context == 0 && config.native_event_callback == 0
                && !config.defer_current_thread
        }),
{
}

/// The events of batches are counted by their records of 32 bytes.
pub proof fn events_are_counted_by_their_records(
    batches: Seq<StalkerEventBatch>,
    batch: StalkerEventBatch,
)
    ensures
        event_count(Seq::empty()) == 0,
        event_count(batches.push(batch)) == event_count(batches) + batch.data@.len() / 32,
{
    assert(batches.push(batch).drop_last() =~= batches);
}

/// A replacement is taken back from code that is mapped, and forgotten where it is not.
pub proof fn replacements_are_taken_back_from_mapped_code(target: u64, mapped: bool)
    ensures
        release_of(None, mapped) is Nothing,
        mapped ==> release_of(Some(target), mapped) == HfollowRelease::Revert(target),
        !mapped ==> release_of(Some(target), mapped) == HfollowRelease::Discard(target),
{
}

/// Registers are numbered as they are encoded: the general ones from zero, the frame pointer
/// and the link register behind them, and then stack pointer, program counter and flags.
pub proof fn registers_are_numbered(registers: CalloutRegisters, field: u32)
    ensures
        field < 29 ==> register_field(registers, field) == registers.x@[field as int],
        register_field(registers, 29) == registers.fp,
        register_field(registers, 30) == registers.lr,
        register_field(registers, 31) == registers.sp,
        register_field(registers, 32) == registers.pc,
        register_field(registers, 33) == registers.nzcv,
        field > 33 ==> register_field(registers, field) == 0,
{
}

/// A text in a field is cut to the field's length, or filled up with zeros.
pub proof fn text_fields_are_filled_up(text: Seq<i8>, length: nat, at: int)
    requires
        0 <= at < length,
    ensures
        text_field(text, length).len() == length,
        at < text.len() && text[at] >= 0 ==> text_field(text, length)[at] == text[at],
        at < text.len() && text[at] < 0 ==> text_field(text, length)[at] == 256 + text[at],
        at >= text.len() ==> text_field(text, length)[at] == 0,
{
    if at < text.len() {
        let c = text[at];
        assert(c as u8 == if c >= 0 {
            c as int
        } else {
            256 + c
        }) by (bit_vector);
    }
}

} // verus!
