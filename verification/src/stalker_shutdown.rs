//! Shutting the tracing backend down, step by step.
//!
//! The embedder does what the phase says and reports whether it is finished; a
//! phase that takes too long ends the shutdown, and everything that could not be
//! released is kept for a later attempt.

use crate::events::TraceBuffer;
use crate::stalker::{
    capped, lemma_dropped_together, total_dropped, ActiveCallProbe, CallProbeState, ShutdownStart, StalkerLifecycle, StalkerRuntime,
    StalkerRuntimeSlot,
};
use vstd::prelude::*;
use vstd::string::*;

verus! {

/// Milliseconds that the engine gets to collect what it no longer needs.
pub const SHUTDOWN_GC_TIMEOUT: u64 = 500;

/// Milliseconds that every other phase gets.
pub const DRAIN_WORKER_STOP_TIMEOUT: u64 = 1_500;

/// What a shutdown is waiting for.
#[derive(Clone, Copy, Debug, PartialEq, Eq, Structural)]
pub enum ShutdownPhase {
    /// The drain worker has to end.
    StopWorker,
    /// The engine has to be stopped and flushed.
    StopEngine,
    /// The probes' states must not be referred to any more.
    WaitProbeStates,
    /// Probe callbacks must have returned.
    WaitProbeCallbacks,
    /// Transform callbacks must have returned.
    WaitTransforms,
    /// Callouts must have returned.
    WaitCallouts,
    /// The engine has to collect its garbage.
    Collect,
    /// The engine and the replacement hook have to be released.
    Release,
    /// Everything is released.
    Finished,
    /// The phase took too long.
    Failed(FailedPhase),
}

/// The phase in which a shutdown gave up.
#[derive(Clone, Copy, Debug, PartialEq, Eq, Structural)]
pub enum FailedPhase {
    Worker,
    ProbeStates,
    ProbeCallbacks,
    Transforms,
    Callouts,
    Collection,
}

/// A shutdown in progress, with the runtime that it took out of the slot.
pub struct ShutdownRun {
    pub phase: ShutdownPhase,
    pub runtime: Option<StalkerRuntime>,
}

/// How a shutdown begins.
pub enum ShutdownBegin {
    Running(ShutdownRun),
    /// There is nothing left but the replacement hook.
    AlreadyStopped,
}

/// How a phase that is not finished ends.
pub open spec fn failure_of(phase: ShutdownPhase) -> FailedPhase {
    match phase {
        ShutdownPhase::StopWorker => FailedPhase::Worker,
        ShutdownPhase::WaitProbeStates => FailedPhase::ProbeStates,
        ShutdownPhase::WaitProbeCallbacks => FailedPhase::ProbeCallbacks,
        ShutdownPhase::WaitTransforms => FailedPhase::Transforms,
        ShutdownPhase::WaitCallouts => FailedPhase::Callouts,
        _ => FailedPhase::Collection,
    }
}

/// The phase that follows one that is finished.
pub open spec fn successor(phase: ShutdownPhase, has_runtime: bool) -> ShutdownPhase {
    match phase {
        ShutdownPhase::StopWorker => if has_runtime {
            ShutdownPhase::StopEngine
        } else {
            ShutdownPhase::Release
        },
        ShutdownPhase::StopEngine => ShutdownPhase::WaitProbeStates,
        ShutdownPhase::WaitProbeStates => ShutdownPhase::WaitProbeCallbacks,
        ShutdownPhase::WaitProbeCallbacks => ShutdownPhase::WaitTransforms,
        ShutdownPhase::WaitTransforms => ShutdownPhase::WaitCallouts,
        ShutdownPhase::WaitCallouts => ShutdownPhase::Collect,
        ShutdownPhase::Collect => ShutdownPhase::Release,
        other => other,
    }
}

/// The milliseconds after which a phase gives up.
pub open spec fn phase_limit(phase: ShutdownPhase) -> u64 {
    if phase == ShutdownPhase::Collect {
        SHUTDOWN_GC_TIMEOUT
    } else {
        DRAIN_WORKER_STOP_TIMEOUT
    }
}

/// The phase after a report: `done` says that the phase is finished, `elapsed` how
/// many milliseconds it has taken.
pub open spec fn next_phase(phase: ShutdownPhase, has_runtime: bool, done: bool, elapsed: u64) -> ShutdownPhase {
    match phase {
        ShutdownPhase::StopEngine => ShutdownPhase::WaitProbeStates,
        ShutdownPhase::Release => ShutdownPhase::Finished,
        ShutdownPhase::Finished | ShutdownPhase::Failed(_) => phase,
        _ => if done {
            successor(phase, has_runtime)
        } else if elapsed >= phase_limit(phase) {
            ShutdownPhase::Failed(failure_of(phase))
        } else {
            phase
        },
    }
}

/// What a report does to the runtime that a shutdown holds.
pub open spec fn runtime_step(
    phase: ShutdownPhase,
    done: bool,
    before: StalkerRuntime,
    after: StalkerRuntime,
) -> bool {
    &&& after.pending@ == before.pending@
    &&& after.execution_active@ == before.execution_active@
    &&& after.native_call_depth@ == before.native_call_depth@
    &&& after.call_probe_anchors@ == before.call_probe_anchors@
    &&& after.dropped() == before.dropped()
    &&& if phase == ShutdownPhase::StopEngine {
        &&& after.active@ == Seq::<TraceBuffer>::empty()
        &&& after.retired@ == before.retired@ + before.active@
        &&& after.dropped_before == before.dropped_before
        &&& after.call_probes@ == before.call_probes@
        &&& after.retired_call_probes@ == before.retired_call_probes@
    } else if phase == ShutdownPhase::WaitCallouts && done {
        &&& after.active@ == before.active@
        &&& after.retired@ == before.retired@
        &&& after.dropped_before == before.dropped_before
        &&& after.call_probes@ == Seq::<ActiveCallProbe>::empty()
        &&& after.retired_call_probes@ == Seq::<CallProbeState>::empty()
    } else if phase == ShutdownPhase::Collect && done {
        &&& after.active@ == before.active@
        &&& after.retired@ == Seq::<TraceBuffer>::empty()
        &&& after.dropped_before == capped(
            total_dropped(before.retired@) + before.dropped_before as nat,
        )
        &&& after.call_probes@ == before.call_probes@
        &&& after.retired_call_probes@ == before.retired_call_probes@
    } else {
        after == before
    }
}

/// Why a shutdown gave up.
pub open spec fn failure_text(failure: FailedPhase) -> Seq<char> {
    match failure {
        FailedPhase::Worker => {
            "[stalker] periodic drain worker did not stop; keeping agent resident\n"@
        },
        FailedPhase::ProbeStates => {
            "[stalker] call probe lifetimes did not stop; keeping agent resident\n"@
        },
        FailedPhase::ProbeCallbacks => {
            "[stalker] call probe callbacks did not stop; keeping agent resident\n"@
        },
        FailedPhase::Transforms => {
            "[stalker] transform callbacks did not stop; keeping agent resident\n"@
        },
        FailedPhase::Callouts => {
            "[stalker] callout callbacks did not stop; keeping agent resident\n"@
        },
        FailedPhase::Collection => {
            "[stalker] garbage collection timed out; keeping agent resident\n"@
        },
    }
}

/// The log line for a shutdown that gave up.
pub fn shutdown_failure_message(failure: FailedPhase) -> (message: String)
    ensures
        message@ == failure_text(failure),
{
    match failure {
        FailedPhase::Worker => String::from_str(
            "[stalker] periodic drain worker did not stop; keeping agent resident\n",
        ),
        FailedPhase::ProbeStates => String::from_str(
            "[stalker] call probe lifetimes did not stop; keeping agent resident\n",
        ),
        FailedPhase::ProbeCallbacks => String::from_str(
            "[stalker] call probe callbacks did not stop; keeping agent resident\n",
        ),
        FailedPhase::Transforms => String::from_str(
            "[stalker] transform callbacks did not stop; keeping agent resident\n",
        ),
        FailedPhase::Callouts => String::from_str(
            "[stalker] callout callbacks did not stop; keeping agent resident\n",
        ),
        FailedPhase::Collection => String::from_str(
            "[stalker] garbage collection timed out; keeping agent resident\n",
        ),
    }
}

impl ShutdownRun {
    /// Whether a shutdown belongs to the slot: the slot is shutting down until the
    /// shutdown has ended, and a phase that speaks of a runtime has one.
    pub open spec fn belongs_to(&self, slot: &StalkerRuntimeSlot) -> bool {
        &&& self.runtime matches Some(r) ==> r.wf() && r.dropped() >= slot.dropped_before
        &&& match self.phase {
            ShutdownPhase::Finished => slot.lifecycle == StalkerLifecycle::Stopped,
            ShutdownPhase::Failed(_) => slot.lifecycle == StalkerLifecycle::Retained,
            _ => slot.lifecycle == StalkerLifecycle::ShuttingDown,
        }
        &&& match self.phase {
            ShutdownPhase::StopWorker | ShutdownPhase::Release => true,
            ShutdownPhase::Finished | ShutdownPhase::Failed(_) => self.runtime is None,
            _ => self.runtime is Some,
        }
    }

    /// Takes in a report on the current phase.
    pub fn advance(&mut self, slot: &mut StalkerRuntimeSlot, done: bool, elapsed: u64)
        requires
            old(slot).wf(),
            old(self).belongs_to(old(slot)),
        ensures
            final(slot).wf(),
            final(self).belongs_to(final(slot)),
            final(self).phase == next_phase(
                old(self).phase,
                old(self).runtime is Some,
                done,
                elapsed,
            ),
            final(slot).dropped() >= old(slot).dropped(),
            match final(self).phase {
                ShutdownPhase::Failed(_) => {
                    &&& !(old(self).phase is Failed) ==> final(slot).runtime == old(self).runtime
                        && final(slot).dropped_before == old(slot).dropped_before
                    &&& old(self).phase is Failed ==> *final(slot) == *old(slot)
                },
                ShutdownPhase::Finished => {
                    &&& final(slot).runtime is None
                    &&& final(slot).dropped() == match old(self).runtime {
                        Some(runtime) => runtime.dropped(),
                        None => old(slot).dropped(),
                    }
                },
                _ => {
                    &&& *final(slot) == *old(slot)
                    &&& final(self).runtime is Some <==> old(self).runtime is Some
                    &&& old(self).runtime is Some ==> runtime_step(
                        old(self).phase,
                        done,
                        old(self).runtime->0,
                        final(self).runtime->0,
                    )
                },
            },
    {
        match self.phase {
            ShutdownPhase::StopWorker => {
                if done {
                    if self.runtime.is_some() {
                        self.phase = ShutdownPhase::StopEngine;
                    } else {
                        self.phase = ShutdownPhase::Release;
                    }
                } else if elapsed >= DRAIN_WORKER_STOP_TIMEOUT {
                    self.give_up(slot, FailedPhase::Worker);
                }
            },
            ShutdownPhase::StopEngine => {
                match &mut self.runtime {
                    Some(runtime) => {
                        proof {
                            lemma_dropped_together(runtime.retired@, runtime.active@);
                        }
                        runtime.retired.append(&mut runtime.active);
                        assert forall|i: int| 0 <= i < runtime.retired.len() implies (
                        #[trigger] runtime.retired[i]).wf() by {
                            let before = old(self).runtime->0;
                            if i < before.retired.len() {
                                assert(runtime.retired[i] == before.retired[i]);
                            } else {
                                assert(runtime.retired[i] == before.active[i
                                    - before.retired.len()]);
                            }
                        }
                    },
                    None => {},
                }
                self.phase = ShutdownPhase::WaitProbeStates;
            },
            ShutdownPhase::WaitProbeStates => {
                if done {
                    self.phase = ShutdownPhase::WaitProbeCallbacks;
                } else if elapsed >= DRAIN_WORKER_STOP_TIMEOUT {
                    self.give_up(slot, FailedPhase::ProbeStates);
                }
            },
            ShutdownPhase::WaitProbeCallbacks => {
                if done {
                    self.phase = ShutdownPhase::WaitTransforms;
                } else if elapsed >= DRAIN_WORKER_STOP_TIMEOUT {
                    self.give_up(slot, FailedPhase::ProbeCallbacks);
                }
            },
            ShutdownPhase::WaitTransforms => {
                if done {
                    self.phase = ShutdownPhase::WaitCallouts;
                } else if elapsed >= DRAIN_WORKER_STOP_TIMEOUT {
                    self.give_up(slot, FailedPhase::Transforms);
                }
            },
            ShutdownPhase::WaitCallouts => {
                if done {
                    match &mut self.runtime {
                        Some(runtime) => {
                            runtime.call_probes.clear();
                            runtime.retired_call_probes.clear();
                        },
                        None => {},
                    }
                    self.phase = ShutdownPhase::Collect;
                } else if elapsed >= DRAIN_WORKER_STOP_TIMEOUT {
                    self.give_up(slot, FailedPhase::Callouts);
                }
            },
            ShutdownPhase::Collect => {
                if done {
                    match &mut self.runtime {
                        Some(runtime) => {
                            runtime.forget_retired();
                        },
                        None => {},
                    }
                    self.phase = ShutdownPhase::Release;
                } else if elapsed >= SHUTDOWN_GC_TIMEOUT {
                    self.give_up(slot, FailedPhase::Collection);
                }
            },
            ShutdownPhase::Release => {
                match &self.runtime {
                    Some(runtime) => {
                        slot.dropped_before = runtime.dropped_events();
                    },
                    None => {},
                }
                self.runtime = None;
                self.phase = ShutdownPhase::Finished;
                slot.finish_shutdown();
            },
            ShutdownPhase::Finished | ShutdownPhase::Failed(_) => {},
        }
    }

    fn give_up(&mut self, slot: &mut StalkerRuntimeSlot, failure: FailedPhase)
        requires
            old(slot).lifecycle == StalkerLifecycle::ShuttingDown,
            old(slot).runtime is None,
            old(self).runtime matches Some(r) ==> r.wf(),
        ensures
            final(self).phase == ShutdownPhase::Failed(failure),
            final(self).runtime is None,
            final(slot).wf(),
            final(slot).lifecycle == StalkerLifecycle::Retained,
            final(slot).runtime == old(self).runtime,
            final(slot).dropped_before == old(slot).dropped_before,
    {
        self.phase = ShutdownPhase::Failed(failure);
        slot.retain_after_failed_shutdown(self.runtime.take());
    }

    /// The answer to the caller of a shutdown that has ended.
    pub fn outcome(&self) -> (stopped: bool)
        ensures
            stopped == (self.phase == ShutdownPhase::Finished),
    {
        match self.phase {
            ShutdownPhase::Finished => true,
            _ => false,
        }
    }
}

/// Begins a shutdown, or a second attempt at one.
pub fn backend_shutdown(slot: &mut StalkerRuntimeSlot) -> (result: Result<ShutdownBegin, String>)
    requires
        old(slot).wf(),
    ensures
        final(slot).wf(),
        match old(slot).lifecycle {
            StalkerLifecycle::Ready | StalkerLifecycle::Retained => {
                &&& result matches Ok(ShutdownBegin::Running(run))
                &&& run.phase == ShutdownPhase::StopWorker
                &&& run.runtime == old(slot).runtime
                &&& run.belongs_to(final(slot))
                &&& final(slot).dropped() == old(slot).dropped()
            },
            StalkerLifecycle::ShuttingDown => {
                &&& *final(slot) == *old(slot)
                &&& result matches Err(message)
                &&& message@ == "Stalker shutdown is already in progress"@
            },
            StalkerLifecycle::Stopped => {
                &&& *final(slot) == *old(slot)
                &&& result matches Ok(ShutdownBegin::AlreadyStopped)
            },
        },
{
    match slot.begin_shutdown() {
        Err(message) => Err(message),
        Ok(ShutdownStart::AlreadyStopped) => Ok(ShutdownBegin::AlreadyStopped),
        Ok(ShutdownStart::Started(runtime)) => Ok(
            ShutdownBegin::Running(ShutdownRun { phase: ShutdownPhase::StopWorker, runtime }),
        ),
    }
}

/// The answer to the caller of a shutdown.
pub open spec fn shutdown_answer(result: Result<ShutdownBegin, String>) -> bool {
    match result {
        Ok(ShutdownBegin::Running(run)) => run.phase == ShutdownPhase::Finished,
        Ok(ShutdownBegin::AlreadyStopped) => true,
        Err(_) => false,
    }
}

/// The answer of a shutdown that ran to its end, had nothing to stop, or could not begin.
pub fn shutdown(result: &Result<ShutdownBegin, String>) -> (stopped: bool)
    ensures
        stopped == shutdown_answer(*result),
{
    match result {
        Ok(ShutdownBegin::Running(run)) => run.outcome(),
        Ok(ShutdownBegin::AlreadyStopped) => true,
        Err(_) => false,
    }
}

/// A shutdown from its beginning to its end: a run that has ended belongs to the slot,
/// and without a run nothing has changed.
pub open spec fn shut_down(
    before: StalkerRuntimeSlot,
    result: Result<ShutdownBegin, String>,
    after: StalkerRuntimeSlot,
) -> bool {
    match before.lifecycle {
        StalkerLifecycle::Ready | StalkerLifecycle::Retained => {
            &&& result matches Ok(ShutdownBegin::Running(run))
            &&& run.phase is Finished || run.phase is Failed
            &&& run.belongs_to(&after)
        },
        StalkerLifecycle::ShuttingDown => result is Err && after == before,
        StalkerLifecycle::Stopped => {
            &&& result matches Ok(ShutdownBegin::AlreadyStopped)
            &&& after == before
        },
    }
}

/// A shutdown answers that it has stopped the backend exactly if the backend is stopped.
pub proof fn shutdown_tells_whether_it_stopped(
    before: StalkerRuntimeSlot,
    result: Result<ShutdownBegin, String>,
    after: StalkerRuntimeSlot,
)
    requires
        shut_down(before, result, after),
    ensures
        shutdown_answer(result) <==> after.lifecycle == StalkerLifecycle::Stopped,
{
}

/// Once a shutdown has stopped the backend, another one says so again and changes nothing.
pub proof fn a_stopped_backend_stays_stopped(
    before: StalkerRuntimeSlot,
    first: Result<ShutdownBegin, String>,
    between: StalkerRuntimeSlot,
    second: Result<ShutdownBegin, String>,
    after: StalkerRuntimeSlot,
)
    requires
        shut_down(before, first, between),
        shutdown_answer(first),
        shut_down(between, second, after),
    ensures
        shutdown_answer(second),
        after == between,
{
    shutdown_tells_whether_it_stopped(before, first, between);
}

/// How many finished phases a shutdown is away from its end.
pub open spec fn phases_left(phase: ShutdownPhase) -> nat {
    match phase {
        ShutdownPhase::StopWorker => 8,
        ShutdownPhase::StopEngine => 7,
        ShutdownPhase::WaitProbeStates => 6,
        ShutdownPhase::WaitProbeCallbacks => 5,
        ShutdownPhase::WaitTransforms => 4,
        ShutdownPhase::WaitCallouts => 3,
        ShutdownPhase::Collect => 2,
        ShutdownPhase::Release => 1,
        _ => 0,
    }
}

/// A shutdown ends: a report that a phase is finished, or that its time is over, brings
/// it closer to the end, and no report takes it back.
pub proof fn shutdown_always_ends(
    phase: ShutdownPhase,
    has_runtime: bool,
    done: bool,
    elapsed: u64,
)
    ensures
        phases_left(next_phase(phase, has_runtime, done, elapsed)) <= phases_left(phase),
        (done || elapsed >= phase_limit(phase)) && phases_left(phase) > 0 ==> phases_left(
            next_phase(phase, has_runtime, done, elapsed),
        ) < phases_left(phase),
        phases_left(phase) == 0 ==> phase is Finished || phase is Failed,
{
}

/// A shutdown goes through its phases in their order, each once it is done: the worker, the
/// engine, the lifetimes of probes, their callbacks, transformers, callouts, collection and
/// release. Without a runtime there is only the worker and the release.
pub proof fn shutdown_goes_through_its_phases(elapsed: u64)
    ensures
        next_phase(ShutdownPhase::StopWorker, true, true, elapsed) is StopEngine,
        next_phase(ShutdownPhase::StopWorker, false, true, elapsed) is Release,
        next_phase(ShutdownPhase::StopEngine, true, true, elapsed) is WaitProbeStates,
        next_phase(ShutdownPhase::WaitProbeStates, true, true, elapsed) is WaitProbeCallbacks,
        next_phase(ShutdownPhase::WaitProbeCallbacks, true, true, elapsed) is WaitTransforms,
        next_phase(ShutdownPhase::WaitTransforms, true, true, elapsed) is WaitCallouts,
        next_phase(ShutdownPhase::WaitCallouts, true, true, elapsed) is Collect,
        next_phase(ShutdownPhase::Collect, true, true, elapsed) is Release,
        next_phase(ShutdownPhase::Release, true, true, elapsed) is Finished,
        next_phase(ShutdownPhase::Release, false, true, elapsed) is Finished,
{
}

/// A phase that is not done waits until its time is up: half a second for the collection,
/// one and a half for the others. Then the shutdown gives up and says what did not stop.
pub proof fn phases_give_up_when_their_time_is_up(
    phase: ShutdownPhase,
    has_runtime: bool,
    elapsed: u64,
)
    ensures
        phase is Collect && elapsed < 500 ==> next_phase(phase, has_runtime, false, elapsed)
            == phase,
        phase is Collect && elapsed >= 500 ==> next_phase(phase, has_runtime, false, elapsed)
            == ShutdownPhase::Failed(FailedPhase::Collection),
        (phase is StopWorker || phase is WaitProbeStates || phase is WaitProbeCallbacks || phase
            is WaitTransforms || phase is WaitCallouts) && elapsed < 1500 ==> next_phase(
            phase,
            has_runtime,
            false,
            elapsed,
        ) == phase,
        phase is StopWorker && elapsed >= 1500 ==> next_phase(phase, has_runtime, false, elapsed)
            == ShutdownPhase::Failed(FailedPhase::Worker),
        phase is WaitProbeStates && elapsed >= 1500 ==> next_phase(
            phase,
            has_runtime,
            false,
            elapsed,
        ) == ShutdownPhase::Failed(FailedPhase::ProbeStates),
        phase is WaitProbeCallbacks && elapsed >= 1500 ==> next_phase(
            phase,
            has_runtime,
            false,
            elapsed,
        ) == ShutdownPhase::Failed(FailedPhase::ProbeCallbacks),
        phase is WaitTransforms && elapsed >= 1500 ==> next_phase(
            phase,
            has_runtime,
            false,
            elapsed,
        ) == ShutdownPhase::Failed(FailedPhase::Transforms),
        phase is WaitCallouts && elapsed >= 1500 ==> next_phase(
            phase,
            has_runtime,
            false,
            elapsed,
        ) == ShutdownPhase::Failed(FailedPhase::Callouts),
        phase is Finished || phase is Failed ==> next_phase(phase, has_runtime, false, elapsed)
            == phase,
{
}

} // verus!
