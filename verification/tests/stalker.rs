use rustfrida::events::{
    encode_event, Event, EventMask, EventQueue, NativePointer, RawEvent, StalkerEventBatch,
    StalkerFollowConfig, TraceBuffer, EVENT_CALL, EVENT_EXEC, EVENT_RECORD_SIZE, NANOS_PER_MILLI,
};
use rustfrida::stalker::{
    address_is_in_range, check_call_probe, AnchorDecision, AnchorModuleIdentity, FollowDecision, ShutdownStart,
    StalkerCallProbeConfig, StalkerLifecycle, StalkerRuntime, StalkerRuntimeSlot, UnfollowDecision,
};
use rustfrida::stalker_shutdown::{
    backend_shutdown, shutdown, shutdown_failure_message, FailedPhase, ShutdownBegin,
    ShutdownPhase, ShutdownRun,
};
use rustfrida::stalker_worker::{
    after_dispatch, callout_accepted, drain_worker_step, follow, follow_message,
    install_quickjs_backend, instruction_bytes_len, module_removed, next_periodic_drain_delay,
    pause_module_unload_observer_for_reload, shutdown_module_observer, sleep_millis, unfollow,
    transform_iterator_next, CalloutRegisters, DrainWorker, EngineHandles, EngineRelease, HfollowRelease,
    HfollowState, RawInstruction, StopPoll, VectorRegisters, WorkerStep, DRAIN_WORKER_IDLE_POLL, DRAIN_WORKER_POLL_SLICE,
};

#[test]
fn module_range_membership_handles_bounds_and_overflow() {
    assert!(address_is_in_range(0x1000, 0x1000, 0x100));
    assert!(address_is_in_range(0x10ff, 0x1000, 0x100));
    assert!(!address_is_in_range(0x1100, 0x1000, 0x100));
    assert!(!address_is_in_range(0x0fff, 0x1000, 0x100));
    assert!(address_is_in_range(u64::MAX, u64::MAX - 1, 2));
    assert!(!address_is_in_range(0, u64::MAX - 1, 2));
}

fn follow_config(thread_id: u64, queue_drain_interval: u32) -> StalkerFollowConfig {
    StalkerFollowConfig {
        thread_id,
        event_mask: EVENT_EXEC,
        queue_capacity: 2,
        queue_drain_interval,
        transform: false,
        context: 0,
        native_event_callback: 0,
        native_event_data: 0,
        defer_current_thread: false,
    }
}

#[test]
fn event_queue_stays_bounded_and_reuses_preallocated_storage() {
    let mut queue = EventQueue::with_capacity(2);
    let allocated_capacity = queue.current.capacity();
    let event = Event::Exec { location: NativePointer(0x1234) };

    queue.push(&event);
    queue.push(&event);
    queue.push(&event);

    assert_eq!(queue.current.len(), 2 * EVENT_RECORD_SIZE);
    assert_eq!(queue.current.capacity(), allocated_capacity);

    let replacement = Vec::with_capacity(queue.byte_limit);
    let replacement_capacity = replacement.capacity();
    let batches = queue.drain(7, replacement);

    assert_eq!(batches.len(), 1);
    assert_eq!(batches[0].thread_id, 7);
    assert_eq!(batches[0].data.len(), 2 * EVENT_RECORD_SIZE);
    assert!(queue.current.is_empty());
    assert_eq!(queue.current.capacity(), replacement_capacity);

    let mut disabled_queue = EventQueue::with_capacity(0);
    disabled_queue.push(&event);
    assert!(disabled_queue.current.is_empty());
    assert_eq!(disabled_queue.current.capacity(), 0);
}

#[test]
fn periodic_drain_respects_deadline_and_rearms() {
    let started = 1_000_000_000;
    let mut buffer = TraceBuffer::new_at(follow_config(7, 50), started);
    let event = Event::Exec { location: NativePointer(0x1234) };
    buffer.queue.push(&event);

    assert_eq!(buffer.time_until_drain(started), Some(50 * NANOS_PER_MILLI));
    assert!(buffer.drain_if_due(started + 49 * NANOS_PER_MILLI).is_empty());
    assert_eq!(buffer.drain_if_due(started + 50 * NANOS_PER_MILLI).len(), 1);
    assert_eq!(
        buffer.time_until_drain(started + 50 * NANOS_PER_MILLI),
        Some(50 * NANOS_PER_MILLI)
    );
}

#[test]
fn zero_drain_interval_disables_periodic_delivery() {
    let started = 1_000_000_000;
    let mut buffer = TraceBuffer::new_at(follow_config(7, 0), started);
    assert_eq!(buffer.time_until_drain(started), None);
    assert!(buffer.drain_if_due(started + 1000 * NANOS_PER_MILLI).is_empty());
}

#[test]
fn lifecycle_blocks_reentrant_api_while_shutdown_is_in_progress() {
    let mut slot = StalkerRuntimeSlot::default();
    assert!(slot.require_ready().is_ok());
    assert!(matches!(slot.begin_shutdown(), Ok(ShutdownStart::Started(None))));
    assert_eq!(slot.lifecycle, StalkerLifecycle::ShuttingDown);
    assert_eq!(slot.require_ready().unwrap_err(), "Stalker is shutting down");
    assert_eq!(slot.activate().unwrap_err(), "Stalker shutdown is still in progress");

    slot.finish_shutdown();
    assert_eq!(slot.lifecycle, StalkerLifecycle::Stopped);
    assert!(matches!(slot.begin_shutdown(), Ok(ShutdownStart::AlreadyStopped)));

    slot.activate().unwrap();
    assert_eq!(slot.lifecycle, StalkerLifecycle::Ready);
    assert!(slot.require_ready().is_ok());
}

#[test]
fn failed_shutdown_retains_state_until_a_retry_completes() {
    let mut slot = StalkerRuntimeSlot::default();
    assert!(matches!(slot.begin_shutdown(), Ok(ShutdownStart::Started(None))));
    slot.retain_after_failed_shutdown(None);
    assert_eq!(slot.lifecycle, StalkerLifecycle::Retained);
    assert_eq!(slot.require_ready().unwrap_err(), "Stalker shutdown is incomplete");
    assert_eq!(
        slot.activate().unwrap_err(),
        "previous Stalker shutdown did not complete"
    );

    assert!(matches!(slot.begin_shutdown(), Ok(ShutdownStart::Started(None))));
    slot.finish_shutdown();
    assert_eq!(slot.lifecycle, StalkerLifecycle::Stopped);
}

#[test]
fn masks_combine_bitwise() {
    let both = EventMask::from_bits(EVENT_CALL) | EventMask::from_bits(EVENT_EXEC);
    assert_eq!(both.bits(), 5);
    assert_eq!(EventMask::from_bits(0xff), EventMask::from_bits(0x1f));
    assert_eq!(EventMask::from_bits(0xff).bits(), 0x1f);
    assert_eq!(EventMask::from_bits(both.bits()), both);
}

#[test]
fn encoded_events_hold_all_fields() {
    let mut output = Vec::new();
    encode_event(
        &Event::Call { location: NativePointer(0x11), target: NativePointer(0x22), depth: -1 },
        &mut output,
    );
    assert_eq!(output.len(), EVENT_RECORD_SIZE);
    let raw = Event::from_raw(RawEvent { kind: EVENT_CALL, first: 0x11, second: 0x22, depth: -1 });
    let mut again = Vec::new();
    encode_event(&raw, &mut again);
    assert_eq!(output, again);

    let mut other = Vec::new();
    encode_event(
        &Event::Ret { location: NativePointer(0x11), target: NativePointer(0x22), depth: -1 },
        &mut other,
    );
    assert_ne!(output, other);
}

#[test]
fn queues_keep_the_first_events_and_count_the_rest() {
    let mut queue = EventQueue::with_capacity(1);
    queue.push(&Event::Exec { location: NativePointer(1) });
    let first = queue.current.clone();
    queue.push(&Event::Exec { location: NativePointer(2) });
    assert_eq!(queue.current, first);
    assert_eq!(queue.dropped, 1);
}

#[test]
fn following_a_thread_twice_is_refused() {
    let mut runtime = StalkerRuntime::new(0);
    let plan = runtime.start_follow(follow_config(7, 50), 9, 0).unwrap();
    assert_eq!(plan.thread_id, 7);
    assert!(!plan.current);
    assert!(plan.start_worker);
    assert_eq!(
        runtime.start_follow(follow_config(7, 50), 9, 0).unwrap_err(),
        "thread 7 is already being followed"
    );
}

#[test]
fn follow_requests_are_checked() {
    let mut slot = StalkerRuntimeSlot::default();
    let mut config = follow_config(0, 0);
    assert_eq!(
        slot.backend_follow(config, true, 9, 0).unwrap_err(),
        "threadId must be non-zero"
    );
    config.thread_id = 7;
    config.event_mask = 0x20;
    assert!(slot
        .backend_follow(config, true, 9, 0)
        .unwrap_err()
        .starts_with("invalid Stalker event mask: "));
    config.event_mask = EVENT_EXEC;
    config.transform = true;
    assert_eq!(
        slot.backend_follow(config, true, 9, 0).unwrap_err(),
        "Stalker transform requires a JavaScript context"
    );
    config.transform = false;
    assert_eq!(
        slot.backend_follow(config, false, 9, 0).unwrap_err(),
        "Stalker is not supported on this platform"
    );
    assert!(matches!(
        slot.backend_follow(config, true, 9, 0),
        Ok(FollowDecision::Start(_))
    ));
}

#[test]
fn the_current_thread_is_followed_later_if_that_was_asked() {
    let mut slot = StalkerRuntimeSlot::default();
    let mut config = follow_config(9, 0);
    config.defer_current_thread = true;
    assert_eq!(slot.backend_follow(config, true, 9, 0), Ok(FollowDecision::Deferred));
    let plan = slot.backend_process_pending(9, 0).unwrap().unwrap();
    assert_eq!(plan.thread_id, 9);
    assert!(plan.current);
    assert_eq!(slot.backend_process_pending(9, 0), Ok(None));
}

#[test]
fn events_are_delivered_when_a_thread_is_no_longer_followed() {
    let mut slot = StalkerRuntimeSlot::default();
    slot.backend_follow(follow_config(7, 0), true, 9, 0).unwrap();
    let event = Event::Exec { location: NativePointer(0x1234) };
    assert!(slot.runtime.as_mut().unwrap().record_event(7, &event));
    assert_eq!(
        slot.backend_unfollow(7, 9),
        Ok(UnfollowDecision::Unfollow { current: false })
    );
    let result = slot.finish_unfollow(false);
    let total: usize = result.batches.iter().map(|batch| batch.data.len()).sum();
    assert_eq!(total, EVENT_RECORD_SIZE);
    assert_eq!(slot.backend_unfollow(7, 9), Ok(UnfollowDecision::Nothing));
}

#[test]
fn native_calls_nest_and_balance() {
    let mut slot = StalkerRuntimeSlot::default();
    slot.backend_follow(follow_config(7, 0), true, 7, 0).unwrap();
    let first = slot.backend_activate_current(7, true).unwrap();
    assert!(first.followed);
    let _ = slot.backend_activate_current(7, true).unwrap();
    assert_eq!(slot.backend_deactivate_current(7, true), Ok(false));
    let _ = slot.backend_deactivate_current(7, true).unwrap();
    assert_eq!(
        slot.runtime.as_ref().unwrap().native_call_depth.get(&7).copied().unwrap_or(0),
        0
    );
}

fn probe(id: u32, target_address: u64) -> StalkerCallProbeConfig {
    StalkerCallProbeConfig { id, target_address, context: 1, native_callback: 0, native_data: 0 }
}

#[test]
fn probed_addresses_keep_their_anchors() {
    let mut slot = StalkerRuntimeSlot::default();
    assert_eq!(
        slot.backend_add_call_probe(probe(1, 0x4000), true, &None),
        Ok(AnchorDecision::Add)
    );
    let runtime = slot.runtime.as_mut().unwrap();
    runtime.install_anchor(
        0x4000,
        70,
        Some(AnchorModuleIdentity { base: 0x4000, path: "/lib/a.so".to_string() }),
    );
    runtime.add_call_probe(probe(1, 0x4000), 71);
    assert!(runtime.prune_unused_call_probe_anchors(false).is_empty());
    assert!(slot
        .backend_add_call_probe(probe(1, 0x4000), true, &None)
        .unwrap_err()
        .starts_with("call probe 1 already exists"));
    let removed = slot.backend_remove_call_probe(1, false).unwrap().unwrap();
    assert_eq!(removed.gum_id, 71);
    assert_eq!(removed.anchors, vec![70]);
    assert!(slot.backend_remove_call_probe(1, false).unwrap().is_none());
}

#[test]
fn a_removed_module_takes_its_anchors_along() {
    let mut slot = StalkerRuntimeSlot::default();
    slot.backend_add_call_probe(probe(1, 0x4000), true, &None).unwrap();
    let runtime = slot.runtime.as_mut().unwrap();
    runtime.install_anchor(0x4000, 70, None);
    runtime.add_call_probe(probe(1, 0x4000), 71);
    let mut hfollow = HfollowState::new();
    assert!(module_removed(&mut slot, &mut hfollow, 0x5000, 0x1000).anchors.is_empty());
    let retired = module_removed(&mut slot, &mut hfollow, 0x4000, 0x1000);
    assert_eq!(retired.anchors, vec![70]);
    let runtime = slot.runtime.as_ref().unwrap();
    assert!(runtime.call_probe_anchors.is_empty());
    assert_eq!(runtime.statistics().active_call_probes, 1);
    assert_eq!(runtime.statistics().call_probe_anchors, 0);
}

/// Runs a shutdown whose phases all finish at once.
fn shut_down(slot: &mut StalkerRuntimeSlot) -> Result<ShutdownBegin, String> {
    let mut result = backend_shutdown(slot);
    if let Ok(ShutdownBegin::Running(run)) = &mut result {
        let mut steps = 0;
        while !matches!(run.phase, ShutdownPhase::Finished | ShutdownPhase::Failed(_)) {
            run.advance(slot, true, 0);
            steps += 1;
            assert!(steps < 32);
        }
    }
    result
}

#[test]
fn shutdown_goes_through_its_phases() {
    let mut slot = StalkerRuntimeSlot::default();
    slot.backend_follow(follow_config(7, 0), true, 9, 0).unwrap();
    assert!(shutdown(&shut_down(&mut slot)));
    assert_eq!(slot.lifecycle, StalkerLifecycle::Stopped);
    let again = shut_down(&mut slot);
    assert!(matches!(again, Ok(ShutdownBegin::AlreadyStopped)));
    assert!(shutdown(&again));
    assert_eq!(slot.lifecycle, StalkerLifecycle::Stopped);
    slot.activate().unwrap();
    let _ = slot.begin_shutdown();
    let refused = shut_down(&mut slot);
    assert!(!shutdown(&refused));
    assert_eq!(slot.lifecycle, StalkerLifecycle::ShuttingDown);
}

/// Follows a thread whose queue holds two events, and lets it drop three.
fn drop_three(slot: &mut StalkerRuntimeSlot) {
    slot.backend_follow(follow_config(7, 0), true, 9, 0).unwrap();
    let runtime = slot.runtime.as_mut().unwrap();
    for location in 0..5 {
        assert!(runtime.record_event(7, &Event::Exec { location: NativePointer(location) }));
    }
}

#[test]
fn dropped_events_stay_counted() {
    let mut slot = StalkerRuntimeSlot::default();
    let nothing = slot.backend_statistics();
    assert_eq!((nothing.dropped_events, nothing.active_traces, nothing.traces.len()), (0, 0, 0));
    drop_three(&mut slot);
    assert_eq!(slot.backend_statistics().dropped_events, 3);
    assert_eq!(slot.backend_statistics().traces[0].dropped_events, 3);
    slot.backend_unfollow(7, 9).unwrap();
    let _ = slot.finish_unfollow(false);
    assert_eq!(slot.backend_statistics().dropped_events, 3);
    assert_eq!(slot.backend_statistics().retired_traces, 1);
    slot.backend_garbage_collect(true).unwrap();
    assert_eq!(slot.backend_statistics().retired_traces, 1);
    slot.backend_garbage_collect(false).unwrap();
    let collected = slot.backend_statistics();
    assert_eq!((collected.dropped_events, collected.retired_traces), (3, 0));

    drop_three(&mut slot);
    assert_eq!(slot.backend_statistics().dropped_events, 6);
    assert!(shutdown(&shut_down(&mut slot)));
    assert_eq!(slot.backend_statistics().dropped_events, 6);
    slot.activate().unwrap();
    drop_three(&mut slot);
    assert_eq!(slot.backend_statistics().dropped_events, 9);
}

#[test]
fn following_twice_is_told_on_the_console() {
    let mut slot = StalkerRuntimeSlot::default();
    let begun = slot.backend_follow(follow(7, 7), true, 7, 0);
    assert_eq!(follow_message(7, &begun), "Stalker following thread 7");
    for tid in [7, 0] {
        let refused = slot.backend_follow(follow(tid, 7), true, 7, 0);
        assert_eq!(
            follow_message(7, &refused),
            "Stalker follow failed: thread 7 is already being followed"
        );
        assert_eq!(slot.backend_statistics().active_traces, 1);
    }
}

#[test]
fn a_shutdown_that_takes_too_long_is_retained() {
    let mut slot = StalkerRuntimeSlot::default();
    slot.backend_follow(follow_config(7, 0), true, 9, 0).unwrap();
    let mut run: ShutdownRun = match backend_shutdown(&mut slot) {
        Ok(ShutdownBegin::Running(run)) => run,
        _ => panic!("no shutdown"),
    };
    run.advance(&mut slot, false, 10_000);
    assert_eq!(run.phase, ShutdownPhase::Failed(FailedPhase::Worker));
    assert_eq!(slot.lifecycle, StalkerLifecycle::Retained);
    assert!(!shutdown_failure_message(FailedPhase::Worker).is_empty());
}

#[test]
fn the_drain_worker_sleeps_in_slices() {
    let slot = StalkerRuntimeSlot::default();
    assert_eq!(next_periodic_drain_delay(Some(&slot), 0), DRAIN_WORKER_IDLE_POLL);
    assert_eq!(next_periodic_drain_delay(None, 0), NANOS_PER_MILLI);
    let mut busy = StalkerRuntimeSlot::default();
    busy.backend_follow(follow_config(7, 250), true, 9, 0).unwrap();
    assert_eq!(next_periodic_drain_delay(Some(&busy), 0), DRAIN_WORKER_POLL_SLICE);
    assert_eq!(next_periodic_drain_delay(Some(&busy), 249 * NANOS_PER_MILLI), NANOS_PER_MILLI);
    assert_eq!(drain_worker_step(true, 0), WorkerStep::Exit);
    assert_eq!(drain_worker_step(false, 0), WorkerStep::Dispatch);
    assert_eq!(
        drain_worker_step(false, 2 * NANOS_PER_MILLI),
        WorkerStep::Sleep { millis: sleep_millis(2 * NANOS_PER_MILLI) }
    );
    let failed = after_dispatch(false, Err("x".to_string()));
    assert!(failed.error_reported && failed.log);
    assert!(!after_dispatch(true, Err("x".to_string())).log);
}

#[test]
fn the_drain_worker_starts_once_and_stops() {
    let mut worker = DrainWorker::new();
    assert!(worker.start(false));
    worker.spawned(Ok(77)).unwrap();
    assert!(!worker.start(true));
    assert!(worker.request_stop());
    assert_eq!(worker.poll_stop(true, 0, 10), StopPoll::Wait);
    assert_eq!(worker.poll_stop(true, 10, 10), StopPoll::TimedOut);
    assert_eq!(worker.poll_stop(false, 0, 10), StopPoll::Stopped);
    worker.exited();
    assert!(!worker.running);

    let mut failing = DrainWorker::new();
    assert!(failing.start(false));
    assert_eq!(
        failing.spawned(Err("no memory".to_string())).unwrap_err(),
        "failed to start Stalker drain worker: no memory"
    );
}

#[test]
fn follow_and_unfollow_report_in_words() {
    let config = follow(0, 9);
    assert_eq!(config.thread_id, 9);
    assert_eq!(follow(7, 9).thread_id, 7);
    assert_eq!(
        follow_message(7, &Err("no".to_string())),
        "Stalker follow failed: no"
    );
    let batch = StalkerEventBatch { thread_id: 7, data: vec![0; 2 * EVENT_RECORD_SIZE] };
    assert_eq!(unfollow(7, 9, &Ok(vec![batch])), "Stalker stopped thread 7 (2 events)");
    assert_eq!(unfollow(7, 9, &Err("no".to_string())), "Stalker stop failed: no");
}

#[test]
fn a_replaced_function_is_put_back_only_while_it_is_mapped() {
    let mut state = HfollowState::new();
    assert_eq!(state.hfollow(true), HfollowRelease::Nothing);
    let _ = state.hfollow_installed(0x4000, Ok(0x5000));
    assert_eq!(state.replacecb(), Some(0x5000));
    assert_eq!(state.shutdown_hfollow(true), HfollowRelease::Revert(0x4000));
    let _ = state.hfollow_installed(0x4000, Ok(0x5000));
    assert_eq!(state.retire_hfollow_in_range(0x4000, 0x10), Some(0x4000));
    assert_eq!(state.shutdown_hfollow(true), HfollowRelease::Nothing);
    let _ = state.hfollow_installed(0x4000, Ok(0x5000));
    assert_eq!(state.shutdown_hfollow(false), HfollowRelease::Discard(0x4000));
}

#[test]
fn the_backend_holds_the_engine_and_its_observer() {
    let mut slot = StalkerRuntimeSlot::default();
    let mut handles = EngineHandles::new();
    assert_eq!(
        install_quickjs_backend(&mut slot, &mut handles, false).unwrap_err(),
        "failed to observe Gum module removals"
    );
    install_quickjs_backend(&mut slot, &mut handles, true).unwrap();
    assert!(handles.observing && handles.engine);
    assert!(pause_module_unload_observer_for_reload(&mut handles));
    assert!(!handles.observing && handles.engine);
    let release = shutdown_module_observer(&mut handles);
    assert_eq!(release, EngineRelease { disconnect: false, leak: true });
    assert!(!handles.observing && !handles.engine);
    let nothing = shutdown_module_observer(&mut handles);
    assert_eq!(nothing, EngineRelease { disconnect: false, leak: false });
    install_quickjs_backend(&mut slot, &mut handles, true).unwrap();
    let release = shutdown_module_observer(&mut handles);
    assert_eq!(release, EngineRelease { disconnect: true, leak: true });
}

#[test]
fn callouts_see_and_change_registers() {
    let mut registers =
        CalloutRegisters { x: [0; 29], fp: 1, lr: 2, sp: 3, pc: 4, nzcv: 5 };
    registers.callout_set_register(3, 42);
    assert_eq!(registers.callout_get_register(3), 42);
    assert_eq!(registers.x[3], 42);
    assert_eq!(instruction_bytes_len(8, 4), 4);
    assert_eq!(instruction_bytes_len(4, 16), 4);
    assert!(callout_accepted(1, 2, 3));
    assert!(!callout_accepted(0, 2, 3));
}

#[test]
fn due_and_flushed_events_come_out_once() {
    let mut slot = StalkerRuntimeSlot::default();
    slot.backend_follow(follow_config(7, 50), true, 9, 0).unwrap();
    let event = Event::Exec { location: NativePointer(0x1234) };
    let record = |slot: &mut StalkerRuntimeSlot| {
        assert!(slot.runtime.as_mut().unwrap().record_event(7, &event));
    };
    record(&mut slot);
    assert!(slot.backend_drain_due(49 * NANOS_PER_MILLI).unwrap().is_empty());
    assert_eq!(slot.backend_drain_due(50 * NANOS_PER_MILLI).unwrap().len(), 1);
    record(&mut slot);
    assert_eq!(slot.backend_flush().unwrap().len(), 1);
    assert!(slot.backend_flush().unwrap().is_empty());
    record(&mut slot);
    let collected = slot.backend_garbage_collect(true).unwrap();
    assert!(collected.pending);
    assert_eq!(collected.batches.len(), 1);
}

#[test]
fn engine_calls_need_a_running_backend() {
    let mut slot = StalkerRuntimeSlot::default();
    assert_eq!(slot.backend_exclude(0x1000, true), Ok(0x1000));
    assert!(!slot.begin_engine_call(true, 9).unwrap());
    assert!(!slot.runtime.as_mut().unwrap().restore_current_execution_state(9, false, false));
    let _ = slot.begin_shutdown();
    assert_eq!(slot.backend_exclude(0x1000, true).unwrap_err(), "Stalker is shutting down");
    assert_eq!(slot.begin_engine_call(true, 9).unwrap_err(), "Stalker is shutting down");
}

#[test]
fn an_abandoned_trace_is_forgotten() {
    let mut runtime = StalkerRuntime::new(0);
    runtime.start_follow(follow_config(7, 0), 9, 0).unwrap();
    assert!(runtime.abandon_follow(7));
    assert!(!runtime.abandon_follow(7));
    assert!(runtime.start_follow(follow_config(7, 0), 9, 0).is_ok());
}

#[test]
fn scripted_probes_belong_to_a_script() {
    let mut config = probe(1, 0x4000);
    assert!(check_call_probe(config).is_ok());
    config.context = 0;
    assert_eq!(
        check_call_probe(config).unwrap_err(),
        "JavaScript call probe requires a JavaScript context"
    );
    config.native_callback = 5;
    assert!(check_call_probe(config).is_ok());
}

#[test]
fn transformers_see_instructions() {
    let snapshot = transform_iterator_next(
        RawInstruction {
            id: 7,
            address: 0x1000,
            size: 4,
            bytes: vec![1, 2, 3, 4, 0, 0],
            mnemonic: vec![b'r' as i8, b'e' as i8, b't' as i8],
            op_str: vec![-1, 2, 3],
        },
        5,
        2,
    );
    assert_eq!((snapshot.id, snapshot.address), (7, 0x1000));
    assert_eq!((snapshot.size, snapshot.bytes_len), (4, 4));
    assert_eq!(snapshot.bytes, [1, 2, 3, 4, 0, 0]);
    assert_eq!(snapshot.mnemonic, b"ret\0\0");
    assert_eq!(snapshot.op_str, [255, 2]);
}

#[test]
fn callouts_reach_vector_registers() {
    let mut registers = VectorRegisters { v: [[0; 16]; 32] };
    assert!(registers.callout_set_vector(31, [9; 16]));
    assert_eq!(registers.callout_get_vector(31), Some([9; 16]));
    assert_eq!(registers.callout_get_vector(30), Some([0; 16]));
    assert!(!registers.callout_set_vector(32, [9; 16]));
    assert_eq!(registers.callout_get_vector(32), None);
}
