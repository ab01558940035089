//! The operations of the tracing backend, gated by its lifecycle.

use crate::events::{StalkerEventBatch, StalkerFollowConfig, TraceBuffer, LATEST_NOW};
use crate::stalker::{
    activate_outcome, already_followed_message, anchor_decision_at, anchored, batch_views, capped,
    dropped_anchor_ids, due_batches, due_emptied, emptied, follow_config_error, follow_plan,
    follow_started, has_probe, in_range, is_new_runtime, kept_anchors, lemma_same_dropped,
    not_ready_message, probe_exists_message, probed, retiring_keeps_the_dropped_count,
    stored_batches, thread_ids, thread_retired, total_dropped, traced,
    validate_follow_config, ActivateDecision, AnchorDecision, AnchorModuleIdentity, FollowDecision,
    FollowPlan, RemovedProbe, RetiredRange, StalkerCallProbeConfig, StalkerDrainResult,
    StalkerLifecycle, StalkerRuntime, StalkerRuntimeSlot, UnfollowDecision, UnfollowResult,
};
use crate::text::push_numeral;
use vstd::prelude::*;
use vstd::string::*;

verus! {

broadcast use vstd::std_specs::hash::group_hash_axioms;

/// Why a request to follow a thread is refused, in the order of the checks.
pub open spec fn follow_error(
    slot: StalkerRuntimeSlot,
    config: StalkerFollowConfig,
    supported: bool,
) -> Option<Seq<char>> {
    if follow_config_error(config) is Some {
        follow_config_error(config)
    } else if slot.lifecycle != StalkerLifecycle::Ready {
        Some(not_ready_message(slot.lifecycle))
    } else if slot.runtime is None && !supported {
        Some("Stalker is not supported on this platform"@)
    } else if slot.runtime is Some && (traced(slot.runtime->0.active@, config.thread_id)
        || slot.runtime->0.pending@.contains_key(config.thread_id)) {
        Some(already_followed_message(config.thread_id))
    } else {
        None
    }
}

/// The runtime that an operation works on: the one in the slot, or a new one.
pub open spec fn runtime_or_new(slot: StalkerRuntimeSlot, runtime: StalkerRuntime) -> bool {
    match slot.runtime {
        Some(existing) => runtime == existing,
        None => is_new_runtime(runtime, slot.dropped_before),
    }
}

/// What a request to follow a thread does. A refused one changes nothing; one for the
/// current thread may be put off.
pub open spec fn follow_step(
    before: StalkerRuntimeSlot,
    config: StalkerFollowConfig,
    supported: bool,
    current_thread: u64,
    now: u64,
    result: Result<FollowDecision, String>,
    after: StalkerRuntimeSlot,
) -> bool {
    &&& after.lifecycle == before.lifecycle
    &&& after.dropped_before == before.dropped_before
    &&& result is Err <==> follow_error(before, config, supported) is Some
    &&& result matches Err(message) ==> {
        &&& follow_error(before, config, supported) == Some(message@)
        &&& after.runtime == before.runtime
    }
    &&& result matches Ok(decision) ==> after.runtime is Some && (exists|
        runtime: StalkerRuntime,
    |
        #[trigger]
        runtime_or_new(before, runtime) && if config.defer_current_thread && config.thread_id
            == current_thread {
            &&& decision == FollowDecision::Deferred
            &&& after.runtime->0.pending@ == runtime.pending@.insert(config.thread_id, config)
            &&& after.runtime->0.active@ == runtime.active@
            &&& after.runtime->0.execution_active@ == runtime.execution_active@
            &&& after.runtime->0.native_call_depth@ == runtime.native_call_depth@
            &&& after.runtime->0.retired@ == runtime.retired@
            &&& after.runtime->0.same_probes(&runtime)
        } else {
            &&& decision == FollowDecision::Start(follow_plan(config, current_thread))
            &&& follow_started(runtime, after.runtime->0, config, now)
        })
}

/// A thread that has begun to be followed, or waits to be, is not followed a second time:
/// the request is refused and nothing changes.
pub proof fn a_followed_thread_is_not_followed_again(
    before: StalkerRuntimeSlot,
    first: StalkerFollowConfig,
    begun: Result<FollowDecision, String>,
    between: StalkerRuntimeSlot,
    second: StalkerFollowConfig,
    refused: Result<FollowDecision, String>,
    after: StalkerRuntimeSlot,
    supported: bool,
    current_thread: u64,
    now: u64,
    later: u64,
)
    requires
        follow_step(before, first, supported, current_thread, now, begun, between),
        begun is Ok,
        follow_step(between, second, supported, current_thread, later, refused, after),
        second.thread_id == first.thread_id,
        follow_config_error(second) is None,
    ensures
        refused is Err,
        refused->Err_0@ == already_followed_message(first.thread_id),
        after == between,
{
    let active = between.runtime->0.active@;
    if !(first.defer_current_thread && first.thread_id == current_thread) {
        assert(active[active.len() - 1].thread_id == first.thread_id);
    }
}

impl StalkerRuntimeSlot {
    /// Begins to follow a thread, or notes that the current thread is to be followed
    /// once it has left the script.
    pub fn backend_follow(
        &mut self,
        config: StalkerFollowConfig,
        supported: bool,
        current_thread: u64,
        now: u64,
    ) -> (result: Result<FollowDecision, String>)
        requires
            old(self).wf(),
            now <= LATEST_NOW,
        ensures
            final(self).wf(),
            final(self).lifecycle == old(self).lifecycle,
            final(self).dropped_before == old(self).dropped_before,
            final(self).dropped() == old(self).dropped(),
            follow_step(*old(self), config, supported, current_thread, now, result, *final(self)),
    {
        match validate_follow_config(config) {
            Err(message) => {
                return Err(message);
            },
            Ok(_) => {},
        }
        match self.ensure_runtime(supported) {
            Err(message) => {
                return Err(message);
            },
            Ok(_) => {},
        }
        match &mut self.runtime {
            None => Ok(FollowDecision::Deferred),
            Some(runtime) => {
                let ghost before = *runtime;
                assert(runtime_or_new(*old(self), before));
                if runtime.pending.contains_key(&config.thread_id) {
                    return Err(crate::stalker::already_followed(config.thread_id));
                }
                if runtime.find_trace(config.thread_id).is_some() {
                    return Err(crate::stalker::already_followed(config.thread_id));
                }
                if config.defer_current_thread && config.thread_id == current_thread {
                    let _ = runtime.pending.insert(config.thread_id, config);
                    Ok(FollowDecision::Deferred)
                } else {
                    match runtime.start_follow(config, current_thread, now) {
                        Ok(plan) => Ok(FollowDecision::Start(plan)),
                        Err(message) => Err(message),
                    }
                }
            },
        }
    }

    /// Begins to follow the current thread if that was put off.
    pub fn backend_process_pending(&mut self, current_thread: u64, now: u64) -> (result: Result<
        Option<FollowPlan>,
        String,
    >)
        requires
            old(self).wf(),
            now <= LATEST_NOW,
        ensures
            final(self).wf(),
            final(self).lifecycle == old(self).lifecycle,
            final(self).dropped_before == old(self).dropped_before,
            final(self).dropped() == old(self).dropped(),
            old(self).lifecycle != StalkerLifecycle::Ready ==> {
                &&& result matches Err(message)
                &&& StalkerRuntimeSlot::refused(old(self), final(self), message@)
            },
            old(self).lifecycle == StalkerLifecycle::Ready && (old(self).runtime is None || !old(self).runtime->0.pending@.contains_key(current_thread)) ==> {
                &&& result == Ok::<Option<FollowPlan>, String>(None)
                &&& *final(self) == *old(self)
            },
            old(self).lifecycle == StalkerLifecycle::Ready && old(self).runtime is Some && old(self).runtime->0.pending@.contains_key(current_thread) ==> {
                let before = old(self).runtime->0;
                let after = final(self).runtime->0;
                let config = before.pending@[current_thread];
                &&& final(self).runtime is Some
                &&& result == Ok::<Option<FollowPlan>, String>(
                    Some(follow_plan(config, current_thread)),
                )
                &&& after.pending@ == before.pending@.remove(current_thread)
                &&& after.active@.len() == before.active@.len() + 1
                &&& after.active@.drop_last() == before.active@
                &&& crate::stalker::is_new_trace(after.active@.last(), config, now)
                &&& after.execution_active@ == before.execution_active@.insert(current_thread)
                &&& after.native_call_depth@ == before.native_call_depth@
                &&& after.retired@ == before.retired@
                &&& after.same_probes(&before)
            },
    {
        match self.require_ready() {
            Err(message) => {
                return Err(message);
            },
            Ok(_) => {},
        }
        match &mut self.runtime {
            None => Ok(None),
            Some(runtime) => {
                if !runtime.pending.contains_key(&current_thread) {
                    return Ok(None);
                }
                match runtime.pending.remove(&current_thread) {
                    None => Ok(None),
                    Some(config) => match runtime.start_follow(config, current_thread, now) {
                        Ok(plan) => Ok(Some(plan)),
                        Err(message) => Err(message),
                    },
                }
            },
        }
    }
}

impl StalkerRuntimeSlot {
    /// Enters a native call on the current thread.
    pub fn backend_activate_current(&mut self, current_thread: u64, following_me: bool) -> (result:
        Result<ActivateDecision, String>)
        requires
            old(self).wf(),
        ensures
            final(self).wf(),
            final(self).lifecycle == old(self).lifecycle,
            final(self).dropped_before == old(self).dropped_before,
            final(self).dropped() == old(self).dropped(),
            old(self).lifecycle != StalkerLifecycle::Ready ==> {
                &&& result matches Err(message)
                &&& StalkerRuntimeSlot::refused(old(self), final(self), message@)
            },
            old(self).lifecycle == StalkerLifecycle::Ready && old(self).runtime is None ==> {
                &&& result == Ok::<ActivateDecision, String>(
                    ActivateDecision { followed: false, activate: false },
                )
                &&& *final(self) == *old(self)
            },
            old(self).lifecycle == StalkerLifecycle::Ready && old(self).runtime is Some ==> {
                &&& final(self).runtime is Some
                &&& activated(
                    old(self).runtime->0,
                    final(self).runtime->0,
                    current_thread,
                    following_me,
                    result,
                )
            },
    {
        match self.require_ready() {
            Err(message) => {
                return Err(message);
            },
            Ok(_) => {},
        }
        match &mut self.runtime {
            None => Ok(ActivateDecision { followed: false, activate: false }),
            Some(runtime) => runtime.activate_current(current_thread, following_me),
        }
    }

    /// Leaves a native call on the current thread. The result says whether the engine
    /// has to be deactivated.
    pub fn backend_deactivate_current(&mut self, current_thread: u64, following_me: bool) -> (result:
        Result<bool, String>)
        requires
            old(self).wf(),
        ensures
            final(self).wf(),
            final(self).lifecycle == old(self).lifecycle,
            final(self).dropped_before == old(self).dropped_before,
            final(self).dropped() == old(self).dropped(),
            old(self).lifecycle != StalkerLifecycle::Ready ==> {
                &&& result matches Err(message)
                &&& StalkerRuntimeSlot::refused(old(self), final(self), message@)
            },
            old(self).lifecycle == StalkerLifecycle::Ready && old(self).runtime is None ==> {
                &&& result == Ok::<bool, String>(false)
                &&& *final(self) == *old(self)
            },
            old(self).lifecycle == StalkerLifecycle::Ready && old(self).runtime is Some ==> {
                &&& final(self).runtime is Some
                &&& result is Ok
                &&& deactivated(
                    old(self).runtime->0,
                    final(self).runtime->0,
                    current_thread,
                    following_me,
                    result->Ok_0,
                )
            },
    {
        match self.require_ready() {
            Err(message) => {
                return Err(message);
            },
            Ok(_) => {},
        }
        match &mut self.runtime {
            None => Ok(false),
            Some(runtime) => Ok(runtime.deactivate_current(current_thread, following_me)),
        }
    }

    /// Drains the threads whose periodic drain is due.
    pub fn backend_drain_due(&mut self, now: u64) -> (result: Result<
        Vec<StalkerEventBatch>,
        String,
    >)
        requires
            old(self).wf(),
            now <= LATEST_NOW,
        ensures
            final(self).wf(),
            final(self).lifecycle == old(self).lifecycle,
            final(self).dropped_before == old(self).dropped_before,
            final(self).dropped() == old(self).dropped(),
            old(self).lifecycle != StalkerLifecycle::Ready ==> {
                &&& result matches Err(message)
                &&& StalkerRuntimeSlot::refused(old(self), final(self), message@)
            },
            old(self).lifecycle == StalkerLifecycle::Ready && old(self).runtime is None ==> {
                &&& result matches Ok(batches)
                &&& batches@.len() == 0
                &&& *final(self) == *old(self)
            },
            old(self).lifecycle == StalkerLifecycle::Ready && old(self).runtime is Some ==> {
                let before = old(self).runtime->0;
                let after = final(self).runtime->0;
                &&& final(self).runtime is Some
                &&& result is Ok
                &&& batch_views(result->Ok_0@) == due_batches(before.active@, now)
                &&& due_emptied(before.active@, after.active@, now)
                &&& after.retired@ == before.retired@
                &&& after.execution_active@ == before.execution_active@
                &&& after.native_call_depth@ == before.native_call_depth@
                &&& after.pending@ == before.pending@
                &&& after.same_probes(&before)
            },
    {
        match self.require_ready() {
            Err(message) => {
                return Err(message);
            },
            Ok(_) => {},
        }
        match &mut self.runtime {
            None => Ok(Vec::new()),
            Some(runtime) => Ok(runtime.drain_due_runtime(now)),
        }
    }

    /// Stops following a thread. Where the decision asks for it, the embedder unfollows
    /// the thread and flushes, then calls [`StalkerRuntimeSlot::finish_unfollow`].
    pub fn backend_unfollow(&mut self, thread_id: u64, current_thread: u64) -> (result: Result<
        UnfollowDecision,
        String,
    >)
        requires
            old(self).wf(),
        ensures
            final(self).wf(),
            final(self).lifecycle == old(self).lifecycle,
            final(self).dropped_before == old(self).dropped_before,
            final(self).dropped() == old(self).dropped(),
            old(self).lifecycle != StalkerLifecycle::Ready ==> {
                &&& result matches Err(message)
                &&& StalkerRuntimeSlot::refused(old(self), final(self), message@)
            },
            old(self).lifecycle == StalkerLifecycle::Ready ==> result is Ok,
            old(self).lifecycle == StalkerLifecycle::Ready && old(self).runtime is None ==> {
                &&& result == Ok::<UnfollowDecision, String>(UnfollowDecision::Nothing)
                &&& *final(self) == *old(self)
            },
            old(self).lifecycle == StalkerLifecycle::Ready && old(self).runtime is Some ==> {
                let before = old(self).runtime->0;
                let after = final(self).runtime->0;
                &&& final(self).runtime is Some
                &&& if before.pending@.contains_key(thread_id) {
                    &&& result->Ok_0 == UnfollowDecision::Nothing
                    &&& after.pending@ == before.pending@.remove(thread_id)
                    &&& after.active@ == before.active@
                    &&& after.execution_active@ == before.execution_active@
                    &&& after.native_call_depth@ == before.native_call_depth@
                    &&& after.retired@ == before.retired@
                    &&& after.same_probes(&before)
                } else if traced(before.active@, thread_id) {
                    &&& result->Ok_0 == UnfollowDecision::Unfollow {
                        current: thread_id == current_thread,
                    }
                    &&& thread_retired(before, after, thread_id)
                } else {
                    &&& result->Ok_0 == UnfollowDecision::Nothing
                    &&& after == before
                }
            },
    {
        match self.require_ready() {
            Err(message) => {
                return Err(message);
            },
            Ok(_) => {},
        }
        match &mut self.runtime {
            None => Ok(UnfollowDecision::Nothing),
            Some(runtime) => Ok(runtime.stop_follow(thread_id, current_thread)),
        }
    }

    /// Completes the unfollowing of a thread: anchors of removed probes go once nothing
    /// is followed, and everything that is stored is drained.
    pub fn finish_unfollow(&mut self, following_me: bool) -> (result: UnfollowResult)
        requires
            old(self).wf(),
            old(self).lifecycle == StalkerLifecycle::Ready,
        ensures
            final(self).wf(),
            final(self).lifecycle == old(self).lifecycle,
            final(self).dropped_before == old(self).dropped_before,
            final(self).dropped() == old(self).dropped(),
            old(self).runtime is None ==> {
                &&& *final(self) == *old(self)
                &&& result.anchors@.len() == 0
                &&& result.batches@.len() == 0
            },
            old(self).runtime is Some ==> {
                let before = old(self).runtime->0;
                let after = final(self).runtime->0;
                &&& final(self).runtime is Some
                &&& batch_views(result.batches@) == stored_batches(before.active@) + stored_batches(
                    before.retired@,
                )
                &&& emptied(before.active@, after.active@)
                &&& emptied(before.retired@, after.retired@)
                &&& after.execution_active@ == before.execution_active@
                &&& after.native_call_depth@ == before.native_call_depth@
                &&& after.pending@ == before.pending@
                &&& after.call_probes@ == before.call_probes@
                &&& after.retired_call_probes@ == before.retired_call_probes@
                &&& after.dropped_before == before.dropped_before
                &&& anchors_pruned(before, after, following_me, result.anchors@)
            },
    {
        match &mut self.runtime {
            None => UnfollowResult { anchors: Vec::new(), batches: Vec::new() },
            Some(runtime) => {
                let anchors: Vec<u32> = runtime.prune_unused_call_probe_anchors(following_me);
                let batches: Vec<StalkerEventBatch> = runtime.drain_runtime();
                UnfollowResult { anchors, batches }
            },
        }
    }

    /// Drains everything that is stored, after the embedder has flushed the engine.
    pub fn backend_flush(&mut self) -> (result: Result<Vec<StalkerEventBatch>, String>)
        requires
            old(self).wf(),
        ensures
            final(self).wf(),
            final(self).lifecycle == old(self).lifecycle,
            final(self).dropped_before == old(self).dropped_before,
            final(self).dropped() == old(self).dropped(),
            old(self).lifecycle != StalkerLifecycle::Ready ==> {
                &&& result matches Err(message)
                &&& StalkerRuntimeSlot::refused(old(self), final(self), message@)
            },
            old(self).lifecycle == StalkerLifecycle::Ready && old(self).runtime is None ==> {
                &&& result matches Ok(batches)
                &&& batches@.len() == 0
                &&& *final(self) == *old(self)
            },
            old(self).lifecycle == StalkerLifecycle::Ready && old(self).runtime is Some ==> {
                &&& final(self).runtime is Some
                &&& result is Ok
                &&& all_drained(old(self).runtime->0, final(self).runtime->0, result->Ok_0@)
                &&& collected(old(self).runtime->0, final(self).runtime->0, true)
            },
    {
        match self.require_ready() {
            Err(message) => {
                return Err(message);
            },
            Ok(_) => {},
        }
        match &mut self.runtime {
            None => Ok(Vec::new()),
            Some(runtime) => Ok(runtime.drain_runtime()),
        }
    }

    /// Takes in the engine's answer to a garbage collection: everything that is stored
    /// is drained, and retired traces go once the engine holds on to nothing. What they
    /// have dropped stays counted.
    pub fn backend_garbage_collect(&mut self, pending: bool) -> (result: Result<
        StalkerDrainResult,
        String,
    >)
        requires
            old(self).wf(),
        ensures
            final(self).wf(),
            final(self).lifecycle == old(self).lifecycle,
            final(self).dropped_before == old(self).dropped_before,
            final(self).dropped() == old(self).dropped(),
            old(self).lifecycle != StalkerLifecycle::Ready ==> {
                &&& result matches Err(message)
                &&& StalkerRuntimeSlot::refused(old(self), final(self), message@)
            },
            old(self).lifecycle == StalkerLifecycle::Ready && old(self).runtime is None ==> {
                &&& result matches Ok(drain)
                &&& !drain.pending
                &&& drain.batches@.len() == 0
                &&& *final(self) == *old(self)
            },
            old(self).lifecycle == StalkerLifecycle::Ready && old(self).runtime is Some ==> {
                &&& final(self).runtime is Some
                &&& result is Ok
                &&& result->Ok_0.pending == pending
                &&& all_drained(
                    old(self).runtime->0,
                    final(self).runtime->0,
                    result->Ok_0.batches@,
                )
                &&& collected(old(self).runtime->0, final(self).runtime->0, pending)
            },
    {
        match self.require_ready() {
            Err(message) => {
                return Err(message);
            },
            Ok(_) => {},
        }
        match &mut self.runtime {
            None => Ok(StalkerDrainResult { pending: false, batches: Vec::new() }),
            Some(runtime) => {
                let batches: Vec<StalkerEventBatch> = runtime.drain_runtime();
                if !pending {
                    proof {
                        lemma_same_dropped(old(self).runtime->0.retired@, runtime.retired@);
                    }
                    runtime.forget_retired();
                }
                Ok(StalkerDrainResult { pending, batches })
            },
        }
    }

    /// Checks a request to leave a range untraced.
    pub fn backend_exclude(&mut self, size: u64, supported: bool) -> (result: Result<
        usize,
        String,
    >)
        requires
            old(self).wf(),
        ensures
            final(self).wf(),
            final(self).lifecycle == old(self).lifecycle,
            final(self).dropped_before == old(self).dropped_before,
            final(self).dropped() == old(self).dropped(),
            result is Ok <==> size <= usize::MAX && old(self).lifecycle == StalkerLifecycle::Ready
                && (old(self).runtime is Some || supported),
            result matches Ok(length) ==> length == size && final(self).runtime is Some
                && runtime_or_new(*old(self), final(self).runtime->0),
            result matches Err(message) ==> {
                &&& *final(self) == *old(self)
                &&& message@ == if size > usize::MAX {
                    "Stalker exclusion size is out of range"@
                } else if old(self).lifecycle != StalkerLifecycle::Ready {
                    not_ready_message(old(self).lifecycle)
                } else {
                    "Stalker is not supported on this platform"@
                }
            },
    {
        if size > usize::MAX as u64 {
            return Err(String::from_str("Stalker exclusion size is out of range"));
        }
        match self.ensure_runtime(supported) {
            Err(message) => Err(message),
            Ok(_) => Ok(size as usize),
        }
    }

    /// Begins an operation that may activate the engine on the current thread, such as
    /// an invalidation. The result says whether the thread was active before.
    pub fn begin_engine_call(&mut self, supported: bool, current_thread: u64) -> (result: Result<
        bool,
        String,
    >)
        requires
            old(self).wf(),
        ensures
            final(self).wf(),
            final(self).lifecycle == old(self).lifecycle,
            final(self).dropped_before == old(self).dropped_before,
            final(self).dropped() == old(self).dropped(),
            result is Ok <==> old(self).lifecycle == StalkerLifecycle::Ready && (old(self).runtime is Some || supported),
            result matches Ok(was_active) ==> {
                &&& final(self).runtime is Some
                &&& runtime_or_new(*old(self), final(self).runtime->0)
                &&& was_active == final(self).runtime->0.execution_active@.contains(current_thread)
            },
            result matches Err(message) ==> {
                &&& *final(self) == *old(self)
                &&& message@ == if old(self).lifecycle != StalkerLifecycle::Ready {
                    not_ready_message(old(self).lifecycle)
                } else {
                    "Stalker is not supported on this platform"@
                }
            },
    {
        match self.ensure_runtime(supported) {
            Err(message) => Err(message),
            Ok(_) => match &self.runtime {
                Some(runtime) => Ok(runtime.execution_active.contains(&current_thread)),
                None => Ok(false),
            },
        }
    }

    /// Begins to install a probe: says what has to be done about the target's anchor.
    /// The embedder does it and records a new anchor, checks the request, installs the
    /// probe, and records it.
    pub fn backend_add_call_probe(
        &mut self,
        config: StalkerCallProbeConfig,
        supported: bool,
        identity: &Option<AnchorModuleIdentity>,
    ) -> (result: Result<AnchorDecision, String>)
        requires
            old(self).wf(),
        ensures
            final(self).wf(),
            final(self).lifecycle == old(self).lifecycle,
            final(self).dropped_before == old(self).dropped_before,
            final(self).dropped() == old(self).dropped(),
            result is Ok <==> {
                &&& old(self).lifecycle == StalkerLifecycle::Ready
                &&& old(self).runtime is Some || supported
                &&& old(self).runtime is Some ==> !has_probe(
                    old(self).runtime->0.call_probes@,
                    config.id,
                )
            },
            result matches Ok(decision) ==> {
                &&& final(self).runtime is Some
                &&& runtime_or_new(*old(self), final(self).runtime->0)
                &&& !has_probe(final(self).runtime->0.call_probes@, config.id)
                &&& !anchored(
                    final(self).runtime->0.call_probe_anchors@,
                    config.target_address,
                ) ==> decision == AnchorDecision::Add
                &&& forall|i: int|
                    0 <= i < final(self).runtime->0.call_probe_anchors@.len() && (#[trigger] final(self).runtime->0.call_probe_anchors@[i]).address == config.target_address
                        ==> decision == anchor_decision_at(
                        final(self).runtime->0.call_probe_anchors@[i],
                        *identity,
                    )
            },
            result matches Err(message) ==> {
                &&& *final(self) == *old(self)
                &&& message@ == if old(self).lifecycle != StalkerLifecycle::Ready {
                    not_ready_message(old(self).lifecycle)
                } else if old(self).runtime is None {
                    "Stalker is not supported on this platform"@
                } else {
                    probe_exists_message(config.id)
                }
            },
    {
        match self.ensure_runtime(supported) {
            Err(message) => {
                return Err(message);
            },
            Ok(_) => {},
        }
        match &self.runtime {
            None => Ok(AnchorDecision::Add),
            Some(runtime) => {
                if runtime.find_probe(config.id).is_some() {
                    let mut message: String = String::from_str("call probe ");
                    push_numeral(&mut message, config.id as u64, 10);
                    message.append(" already exists");
                    return Err(message);
                }
                Ok(runtime.anchor_decision(config.target_address, identity))
            },
        }
    }

    /// Removes a probe, if there is one with the id.
    pub fn backend_remove_call_probe(&mut self, id: u32, following_me: bool) -> (result: Result<
        Option<RemovedProbe>,
        String,
    >)
        requires
            old(self).wf(),
        ensures
            final(self).wf(),
            final(self).lifecycle == old(self).lifecycle,
            final(self).dropped_before == old(self).dropped_before,
            final(self).dropped() == old(self).dropped(),
            old(self).lifecycle != StalkerLifecycle::Ready ==> {
                &&& result matches Err(message)
                &&& StalkerRuntimeSlot::refused(old(self), final(self), message@)
            },
            old(self).lifecycle == StalkerLifecycle::Ready ==> result is Ok,
            result matches Ok(removed) ==> (removed is Some <==> old(self).runtime is Some
                && has_probe(old(self).runtime->0.call_probes@, id)),
            result matches Ok(None) ==> *final(self) == *old(self),
            result matches Ok(Some(removed)) ==> {
                let before = old(self).runtime->0;
                let after = final(self).runtime->0;
                &&& final(self).runtime is Some
                &&& after.same_threads(&before)
                &&& exists|index: int|
                    {
                        &&& 0 <= index < before.call_probes@.len()
                        &&& (#[trigger] before.call_probes@[index]).id == id
                        &&& removed.gum_id == before.call_probes@[index].gum_id
                        &&& after.call_probes@ == before.call_probes@.remove(index)
                        &&& after.retired_call_probes@ == match before.call_probes@[index].state {
                            Some(state) => before.retired_call_probes@.push(state),
                            None => before.retired_call_probes@,
                        }
                    }
                &&& if before.active@.len() > 0 || before.pending@.len() > 0 || following_me {
                    &&& removed.anchors@.len() == 0
                    &&& after.call_probe_anchors@ == before.call_probe_anchors@
                } else {
                    let anchors = before.call_probe_anchors@;
                    let keep = Seq::new(
                        anchors.len(),
                        |i: int| probed(after.call_probes@, anchors[i].address),
                    );
                    &&& after.call_probe_anchors@ == kept_anchors(anchors, keep)
                    &&& removed.anchors@ == dropped_anchor_ids(anchors, keep)
                }
            },
    {
        match self.require_ready() {
            Err(message) => {
                return Err(message);
            },
            Ok(_) => {},
        }
        match &mut self.runtime {
            None => Ok(None),
            Some(runtime) => Ok(runtime.remove_call_probe(id, following_me)),
        }
    }

    /// Forgets what lay in a module that went away, at any point of the lifecycle.
    pub fn retire_stalker_state_in_range(
        &mut self,
        base: u64,
        size: u64,
        retired_target: Option<u64>,
    ) -> (retired: RetiredRange)
        requires
            old(self).wf(),
        ensures
            final(self).wf(),
            final(self).lifecycle == old(self).lifecycle,
            final(self).dropped_before == old(self).dropped_before,
            final(self).dropped() == old(self).dropped(),
            old(self).runtime is None ==> {
                &&& *final(self) == *old(self)
                &&& retired.anchors@.len() == 0
                &&& retired.threads@.len() == 0
            },
            old(self).runtime is Some ==> {
                let before = old(self).runtime->0;
                let after = final(self).runtime->0;
                let anchors = before.call_probe_anchors@;
                let keep = Seq::new(
                    anchors.len(),
                    |i: int| !in_range(anchors[i].address, base, size),
                );
                &&& final(self).runtime is Some
                &&& after.same_threads(&before)
                &&& after.call_probes@ == before.call_probes@
                &&& after.retired_call_probes@ == before.retired_call_probes@
                &&& after.call_probe_anchors@ == kept_anchors(anchors, keep)
                &&& retired.anchors@ == dropped_anchor_ids(anchors, keep)
                &&& retired.threads@ == if retired_target is Some {
                    thread_ids(before.active@)
                } else {
                    Seq::empty()
                }
            },
    {
        match &mut self.runtime {
            None => RetiredRange { anchors: Vec::new(), threads: Vec::new() },
            Some(runtime) => runtime.retire_in_range(base, size, retired_target),
        }
    }
}

/// What entering a native call does to the runtime.
pub open spec fn activated(
    before: StalkerRuntime,
    after: StalkerRuntime,
    thread_id: u64,
    following_me: bool,
    result: Result<ActivateDecision, String>,
) -> bool {
    match (activate_outcome(before, thread_id, following_me), result) {
        (Err(expected), Err(message)) => message@ == expected && after == before,
        (Ok(expected), Ok(decision)) => {
            &&& decision == expected
            &&& !expected.followed ==> after == before
            &&& expected.followed ==> {
                &&& after.active@ == before.active@
                &&& after.pending@ == before.pending@
                &&& after.retired@ == before.retired@
                &&& after.same_probes(&before)
                &&& after.execution_active@ == before.execution_active@.insert(thread_id)
                &&& after.native_call_depth@ == before.native_call_depth@.insert(
                    thread_id,
                    if before.native_call_depth@.contains_key(thread_id) {
                        (before.native_call_depth@[thread_id] + 1) as u64
                    } else {
                        1
                    },
                )
            }
        },
        _ => false,
    }
}

/// What leaving a native call does to the runtime.
pub open spec fn deactivated(
    before: StalkerRuntime,
    after: StalkerRuntime,
    thread_id: u64,
    following_me: bool,
    deactivate: bool,
) -> bool {
    if !before.native_call_depth@.contains_key(thread_id) {
        !deactivate && after == before
    } else {
        let depth = before.native_call_depth@[thread_id];
        &&& after.active@ == before.active@
        &&& after.pending@ == before.pending@
        &&& after.retired@ == before.retired@
        &&& after.same_probes(&before)
        &&& if depth > 1 {
            &&& !deactivate
            &&& after.native_call_depth@ == before.native_call_depth@.insert(
                thread_id,
                (depth - 1) as u64,
            )
            &&& after.execution_active@ == before.execution_active@
        } else {
            &&& after.native_call_depth@ == before.native_call_depth@.remove(thread_id)
            &&& deactivate == following_me
            &&& after.execution_active@ == if deactivate {
                before.execution_active@.remove(thread_id)
            } else {
                before.execution_active@
            }
        }
    }
}

/// Leaving a native call right after entering it puts the depth back, and the engine
/// is deactivated exactly if the call was the outermost one.
pub proof fn native_call_is_balanced(
    before: StalkerRuntime,
    inside: StalkerRuntime,
    after: StalkerRuntime,
    thread_id: u64,
    entered: Result<ActivateDecision, String>,
    deactivate: bool,
)
    requires
        before.consistent(),
        activated(before, inside, thread_id, true, entered),
        entered is Ok,
        entered->Ok_0.followed,
        deactivated(inside, after, thread_id, true, deactivate),
    ensures
        after.native_call_depth@ == before.native_call_depth@,
        deactivate <==> !before.native_call_depth@.contains_key(thread_id),
        before.native_call_depth@.contains_key(thread_id) ==> after.execution_active@
            == before.execution_active@,
        !before.native_call_depth@.contains_key(thread_id) ==> after.execution_active@
            == before.execution_active@.remove(thread_id),
{
    if before.native_call_depth@.contains_key(thread_id) {
        assert(after.native_call_depth@ =~= before.native_call_depth@);
        assert(after.execution_active@ =~= before.execution_active@);
    } else {
        assert(after.native_call_depth@ =~= before.native_call_depth@);
        assert(after.execution_active@ =~= before.execution_active@.remove(thread_id));
    }
}

/// Whether the anchors were pruned: only once nothing is followed or waits to be, and
/// then exactly those without a probe.
pub open spec fn anchors_pruned(
    before: StalkerRuntime,
    after: StalkerRuntime,
    following_me: bool,
    removed: Seq<u32>,
) -> bool {
    if before.active@.len() > 0 || before.pending@.len() > 0 || following_me {
        &&& removed.len() == 0
        &&& after.call_probe_anchors@ == before.call_probe_anchors@
    } else {
        let anchors = before.call_probe_anchors@;
        let keep = Seq::new(anchors.len(), |i: int| probed(before.call_probes@, anchors[i].address));
        &&& after.call_probe_anchors@ == kept_anchors(anchors, keep)
        &&& removed == dropped_anchor_ids(anchors, keep)
    }
}

/// An anchor whose address still has a probe survives pruning.
pub proof fn pruning_keeps_probed_anchors(
    before: StalkerRuntime,
    after: StalkerRuntime,
    following_me: bool,
    removed: Seq<u32>,
    address: u64,
)
    requires
        before.wf(),
        anchors_pruned(before, after, following_me, removed),
        anchored(before.call_probe_anchors@, address),
        probed(before.call_probes@, address),
    ensures
        anchored(after.call_probe_anchors@, address),
{
    let anchors = before.call_probe_anchors@;
    if before.active@.len() > 0 || before.pending@.len() > 0 || following_me {
    } else {
        let keep = Seq::new(anchors.len(), |i: int| probed(before.call_probes@, anchors[i].address));
        assert(crate::stalker::one_anchor_each(anchors)) by {
            assert forall|i: int, j: int|
                #![trigger anchors[i], anchors[j]]
                0 <= i < j < anchors.len() implies anchors[i].address != anchors[j].address by {
                assert(before.call_probe_anchors[i].address != before.call_probe_anchors[j].address);
            }
        }
        crate::stalker::kept_anchors_stay_unique(anchors, keep);
        let i = choose|i: int| 0 <= i < anchors.len() && (#[trigger] anchors[i]).address == address;
        assert(anchors[i].address == address && keep[i]);
    }
}

/// Whether everything that was stored has been handed out and nothing else has changed.
pub open spec fn all_drained(
    before: StalkerRuntime,
    after: StalkerRuntime,
    batches: Seq<StalkerEventBatch>,
) -> bool {
    &&& batch_views(batches) == stored_batches(before.active@) + stored_batches(before.retired@)
    &&& emptied(before.active@, after.active@)
    &&& after.execution_active@ == before.execution_active@
    &&& after.native_call_depth@ == before.native_call_depth@
    &&& after.pending@ == before.pending@
    &&& after.call_probes@ == before.call_probes@
    &&& after.call_probe_anchors@ == before.call_probe_anchors@
    &&& after.retired_call_probes@ == before.retired_call_probes@
}

/// Whether the retired traces were let go: not while the engine holds on to something.
/// What they have dropped stays counted.
pub open spec fn collected(before: StalkerRuntime, after: StalkerRuntime, pending: bool) -> bool {
    if pending {
        &&& emptied(before.retired@, after.retired@)
        &&& after.dropped_before == before.dropped_before
    } else {
        &&& after.retired@ == Seq::<TraceBuffer>::empty()
        &&& after.dropped_before == capped(
            total_dropped(before.retired@) + before.dropped_before as nat,
        )
    }
}

/// No unfollow and no collection makes dropped events disappear: unfollowing a thread,
/// draining what is stored and collecting leave their number as it was.
pub proof fn dropped_events_do_not_disappear(
    before: StalkerRuntime,
    unfollowed: StalkerRuntime,
    after: StalkerRuntime,
    thread_id: u64,
    batches: Seq<StalkerEventBatch>,
    pending: bool,
)
    requires
        thread_retired(before, unfollowed, thread_id),
        all_drained(unfollowed, after, batches),
        collected(unfollowed, after, pending),
    ensures
        unfollowed.dropped() == before.dropped(),
        after.dropped() == before.dropped(),
{
    retiring_keeps_the_dropped_count(before, unfollowed, thread_id);
    lemma_same_dropped(unfollowed.active@, after.active@);
    if pending {
        lemma_same_dropped(unfollowed.retired@, after.retired@);
    }
}

/// A request to follow a thread is granted exactly if it is right, the backend is ready and
/// supported, and the thread is neither followed nor waiting to be.
pub proof fn right_requests_are_granted(
    slot: StalkerRuntimeSlot,
    config: StalkerFollowConfig,
    supported: bool,
)
    ensures
        follow_error(slot, config, supported) is None <==> {
            &&& config.thread_id != 0
            &&& config.event_mask < 32
            &&& config.transform ==> config.context != 0
            &&& slot.lifecycle == StalkerLifecycle::Ready
            &&& slot.runtime is Some || supported
            &&& slot.runtime matches Some(runtime) ==> !(exists|i: int|
                0 <= i < runtime.active@.len() && (#[trigger] runtime.active@[i]).thread_id
                    == config.thread_id) && !runtime.pending@.contains_key(config.thread_id)
        },
{
}

/// A native call that is entered by a followed thread makes its depth one more; one that is
/// left makes it one less, and the last one ends it. Other threads, traces and probes stay as
/// they were.
pub proof fn native_calls_count_their_depth(
    before: StalkerRuntime,
    after: StalkerRuntime,
    thread_id: u64,
    other: u64,
    entered: Result<ActivateDecision, String>,
)
    requires
        activated(before, after, thread_id, true, entered),
        traced(before.active@, thread_id),
        before.consistent(),
        entered is Ok,
        other != thread_id,
    ensures
        entered->Ok_0.followed,
        after.native_call_depth@.contains_key(thread_id),
        before.native_call_depth@.contains_key(thread_id) ==> after.native_call_depth@[thread_id]
            == before.native_call_depth@[thread_id] + 1,
        !before.native_call_depth@.contains_key(thread_id)
            ==> after.native_call_depth@[thread_id] == 1,
        after.execution_active@.contains(thread_id),
        after.native_call_depth@.contains_key(other) <==> before.native_call_depth@.contains_key(
            other,
        ),
        before.native_call_depth@.contains_key(other) ==> after.native_call_depth@[other]
            == before.native_call_depth@[other],
        after.execution_active@.contains(other) <==> before.execution_active@.contains(other),
        after.active@ == before.active@,
        after.pending@ == before.pending@,
        after.retired@ == before.retired@,
        after.call_probes@ == before.call_probes@,
{
}

/// Leaving an inner native call leaves the engine active; leaving the outermost deactivates
/// it if the thread is being followed at that moment. A thread in no call is left alone.
pub proof fn the_outermost_call_deactivates(
    before: StalkerRuntime,
    after: StalkerRuntime,
    thread_id: u64,
    following_me: bool,
    deactivate: bool,
)
    requires
        deactivated(before, after, thread_id, following_me, deactivate),
        before.consistent(),
    ensures
        !before.native_call_depth@.contains_key(thread_id) ==> !deactivate && after == before,
        before.native_call_depth@.contains_key(thread_id) && before.native_call_depth@[thread_id]
            >= 2 ==> !deactivate && after.native_call_depth@.contains_key(thread_id)
            && after.native_call_depth@[thread_id] == before.native_call_depth@[thread_id] - 1
            && after.execution_active@.contains(thread_id),
        before.native_call_depth@.contains_key(thread_id) && before.native_call_depth@[thread_id]
            == 1 ==> (deactivate <==> following_me) && !after.native_call_depth@.contains_key(
            thread_id,
        ) && (after.execution_active@.contains(thread_id) <==> !following_me),
{
}

/// Anchors are pruned only when nothing is followed or waits to be, and then every anchor
/// without a probe goes; until then all of them stay.
pub proof fn unprobed_anchors_go_when_nothing_is_followed(
    before: StalkerRuntime,
    after: StalkerRuntime,
    following_me: bool,
    removed: Seq<u32>,
    address: u64,
)
    requires
        before.wf(),
        anchors_pruned(before, after, following_me, removed),
    ensures
        before.active@.len() > 0 || before.pending@.len() > 0 || following_me ==> removed.len() == 0
            && after.call_probe_anchors@ == before.call_probe_anchors@,
        before.active@.len() == 0 && before.pending@.len() == 0 && !following_me && !probed(
            before.call_probes@,
            address,
        ) ==> !anchored(after.call_probe_anchors@, address),
{
    if before.active@.len() == 0 && before.pending@.len() == 0 && !following_me {
        let anchors = before.call_probe_anchors@;
        let keep = Seq::new(anchors.len(), |i: int| probed(before.call_probes@, anchors[i].address));
        assert(crate::stalker::one_anchor_each(anchors)) by {
            assert forall|i: int, j: int|
                #![trigger anchors[i], anchors[j]]
                0 <= i < j < anchors.len() implies anchors[i].address != anchors[j].address by {
                assert(before.call_probe_anchors[i].address != before.call_probe_anchors[j].address);
            }
        }
        crate::stalker::kept_anchors_stay_unique(anchors, keep);
    }
}

/// Draining everything hands out the records of the followed threads, then those of the
/// threads that are followed no longer, and changes nothing but the queues.
pub proof fn draining_hands_out_all_records(
    before: StalkerRuntime,
    after: StalkerRuntime,
    batches: Seq<StalkerEventBatch>,
    at: int,
)
    requires
        all_drained(before, after, batches),
        0 <= at < batches.len(),
    ensures
        batches.len() == stored_batches(before.active@).len() + stored_batches(
            before.retired@,
        ).len(),
        at < stored_batches(before.active@).len() ==> (batches[at].thread_id, batches[at].data@)
            == stored_batches(before.active@)[at],
        at >= stored_batches(before.active@).len() ==> (batches[at].thread_id, batches[at].data@)
            == stored_batches(before.retired@)[at - stored_batches(before.active@).len()],
        after.execution_active@ == before.execution_active@,
        after.pending@ == before.pending@,
        after.call_probes@ == before.call_probes@,
        after.call_probe_anchors@ == before.call_probe_anchors@,
{
    let all = stored_batches(before.active@) + stored_batches(before.retired@);
    assert(batch_views(batches).len() == all.len());
    assert(batch_views(batches)[at] == all[at]);
}

} // verus!
