use rustfrida::java::{
    android_release, art_runtime_loaded, cast_target, element_class_from_array_class,
    element_sig_from_array_class, encode_elements, encode_primitive_element,
    js_java_android_version, js_java_array_get, js_java_array_length,
    js_java_delete_global_ref, js_java_new_array, monitor_outcome, new_array_error,
    primitive_array_element, primitive_element, required_handle, retain_outcome,
    ArrayGetArguments, ArrayGetPlan, ArrayLengthPlan, ElementRead, ElementValue, HandleArgument,
    NewArrayFailure, PrimitiveArray,
};
use rustfrida::modules::{
    attach_module_observer, attach_thread_observer, begin_module_search, collect_dependency,
    collect_section, continue_module_search, dependency_kind, enumerate_modules,
    find_global_export_by_name, find_module, find_symbol_by_name, install_quickjs_backend,
    module_details, observer_worker_step, stop_observer_worker_if_idle, thread_state_name,
    wait_observer_callbacks, DependencyType, EngineModule, EngineRange, EngineSection,
    EngineThread, FoundModule, ModuleBackend, ModuleBackends, ModuleDetails, ModuleIdentity,
    ModuleObserverEvent, ModuleQuery, ModuleRegistryAnswer, ModuleSearch, ObserverWorker,
    ProcessObserverBackend, ProcessThreadDetails, StopPoll, ThreadObserverEvent,
    ThreadRegistryAnswer, ThreadState,
};
use rustfrida::observers::{
    add_module_observer, add_thread_observer, begin_module_attach, begin_reconcile,
    begin_thread_attach, cut_process_observers, detach_module_observer, detach_thread_observer,
    dispatch_module_event, dispatch_thread_event, end_reconcile, free_process_observers,
    initial_module_callback, initial_thread_callback, merge_module_snapshots,
    module_attach_failed, module_callbacks, module_change, next_process_observer_event,
    observer_number, optional_callback, process_observer_events_pending,
    queue_module_observer_event, queue_thread_observer_event, reconcile_modules,
    reconcile_threads, stop_accepting_modules, stop_accepting_threads, thread_attach_failed,
    thread_callbacks, CallbackArgument, ModuleCallbacks, ModuleChange, ObservedModule,
    ProcessObserverState, QueuedProcessObserverEvent, ThreadCallbacks,
    PROCESS_OBSERVER_QUEUE_CAPACITY, PROCESS_OBSERVER_RECONCILE_INTERVAL,
};
use rustfrida::process::{
    collect_process_ranges, find_process_range_by_address, is_debugger_attached,
    lookup_argument, normalize_map_protection, parse_process_range_options, parse_thread_number,
    process_find_module_by_name, process_main_module, process_page_size, process_thread_name,
    process_thread_state, process_threads, required, ListedThread, LookedUpModule, Lookup,
    MapEntry, ProtectionProperty, RangeArgument,
};

fn entry(start: u64, end: u64, perms: &str, path: Option<&str>) -> MapEntry {
    MapEntry {
        start,
        end,
        perms: perms.to_string(),
        path: path.map(str::to_string),
        wanted: true,
    }
}

#[test]
fn protections_are_the_first_three_letters() {
    assert_eq!(normalize_map_protection("r-xp").as_deref(), Some("r-x"));
    assert_eq!(normalize_map_protection("rw"), None);
}

#[test]
fn adjacent_ranges_are_joined_on_request() {
    let mut entries = vec![
        entry(0x1000, 0x2000, "r-xp", Some("/a")),
        entry(0x2000, 0x3000, "r-xp", Some("/a")),
        entry(0x3000, 0x4000, "rw-p", Some("/a")),
        entry(0x5000, 0x6000, "rw-p", None),
    ];
    let joined = collect_process_ranges(&entries, true);
    assert_eq!(joined.len(), 3);
    assert_eq!((joined[0].base, joined[0].size), (0x1000, 0x2000));
    assert_eq!(joined[0].protection, "r-x");
    assert_eq!(collect_process_ranges(&entries, false).len(), 4);
    entries[1].wanted = false;
    let filtered = collect_process_ranges(&entries, true);
    assert_eq!((filtered[0].base, filtered[0].size), (0x1000, 0x1000));
    let found = find_process_range_by_address(&entries, 0x3fff).unwrap();
    assert_eq!((found.base, found.protection.as_str()), (0x3000, "rw-"));
    assert!(find_process_range_by_address(&entries, 0x4000).is_none());
}

#[test]
fn range_options_are_checked() {
    let plain = parse_process_range_options(RangeArgument::Text(Some("r-x".to_string()))).unwrap();
    assert_eq!((plain.protection.as_deref(), plain.coalesce), (Some("r-x"), false));
    let object = parse_process_range_options(RangeArgument::Object {
        protection: ProtectionProperty::Text("rw-".to_string()),
        coalesce: Some(true),
    })
    .unwrap();
    assert_eq!((object.protection.as_deref(), object.coalesce), (Some("rw-"), true));
    assert!(parse_process_range_options(RangeArgument::Absent).unwrap().protection.is_none());
    assert_eq!(
        parse_process_range_options(RangeArgument::Other).unwrap_err().message,
        "Process.enumerateRanges(protection | { protection, coalesce }) expected a string or object"
    );
    assert_eq!(
        parse_process_range_options(RangeArgument::Object {
            protection: ProtectionProperty::Unreadable,
            coalesce: None,
        })
        .unwrap_err()
        .message,
        "Process.enumerateRanges: protection must be a string"
    );
}

#[test]
fn the_status_names_the_tracer_and_the_state() {
    assert!(is_debugger_attached(Some("Name:\ta\nTracerPid:\t12\n")));
    assert!(!is_debugger_attached(Some("Name:\ta\nTracerPid:\t0\n")));
    assert!(!is_debugger_attached(Some("TracerPid:\tnone\n")));
    assert!(!is_debugger_attached(None));
    assert_eq!(process_thread_state(Some("Name:\ta\nState:\tS (sleeping)\n")), "waiting");
    assert_eq!(process_thread_state(Some("State:\tR (running)\nState:\tS\n")), "running");
    assert_eq!(process_thread_state(Some("State:\tt\n")), "stopped");
    assert_eq!(process_thread_state(Some("State:\tD\n")), "uninterruptible");
    assert_eq!(process_thread_state(Some("State:\tZ\n")), "halted");
    assert_eq!(process_thread_state(Some("State:\t\n")), "unknown");
    assert_eq!(process_thread_state(None), "unknown");
    assert_eq!(process_thread_name(Some("worker\n\n")).as_deref(), Some("worker"));
    assert_eq!(process_thread_name(Some("\n")), None);
}

#[test]
fn threads_are_listed_by_their_numbers() {
    let listed = vec![
        ListedThread {
            entry: "12".to_string(),
            comm: Some("b\n".to_string()),
            status: Some("State:\tR\n".to_string()),
        },
        ListedThread { entry: "self".to_string(), comm: None, status: None },
        ListedThread { entry: "7".to_string(), comm: None, status: None },
    ];
    let threads = process_threads(&listed);
    assert_eq!(threads.iter().map(|thread| thread.tid).collect::<Vec<_>>(), vec![7, 12]);
    assert_eq!(threads[0].state, "unknown");
    assert_eq!((threads[1].name.as_deref(), threads[1].state), (Some("b"), "running"));
    assert_eq!(parse_thread_number("-5"), Some(-5));
    assert_eq!(parse_thread_number("-+5"), None);
    assert_eq!(parse_thread_number("2147483648"), None);
    assert_eq!(process_page_size(-1), 4096);
    assert_eq!(process_page_size(16384), 16384);
}

fn module(name: &str, path: &str, base: u64) -> ModuleDetails {
    ModuleDetails {
        name: name.to_string(),
        version: None,
        path: path.to_string(),
        base,
        size: 0x1000,
    }
}

#[test]
fn the_main_module_is_the_program() {
    let modules = vec![
        module("libc.so", "/lib/libc.so", 0x3000),
        module("app", "/bin/app", 0x2000),
        module("low", "/low", 0x1000),
    ];
    assert_eq!(process_main_module(&modules, Some("/bin/app")), Some(1));
    assert_eq!(process_main_module(&modules, Some("/other/app")), Some(1));
    assert_eq!(process_main_module(&modules, Some("/none")), Some(2));
    assert_eq!(process_main_module(&modules, None), Some(2));
    assert_eq!(process_main_module(&vec![], Some("/bin/app")), None);
    let looked_up = vec![
        LookedUpModule { details: module("a", "/a", 1), path_matches: false },
        LookedUpModule { details: module("b", "/b", 2), path_matches: true },
    ];
    assert_eq!(process_find_module_by_name(&looked_up, "x"), Some(1));
    assert_eq!(process_find_module_by_name(&looked_up, "a"), Some(0));
    assert_eq!(required(Some(5), Lookup::ModuleByName).unwrap(), 5);
    assert_eq!(
        required::<u8>(None, Lookup::ModuleByName).unwrap_err().message,
        "Process.getModuleByName: module not found"
    );
    assert_eq!(
        required::<u8>(None, Lookup::ModuleByAddress).unwrap_err().message,
        "Process.getModuleByAddress: module not found"
    );
    assert_eq!(
        required::<u8>(None, Lookup::RangeByAddress).unwrap_err().message,
        "Process.getRangeByAddress: range not found"
    );
}

fn engine_module(name: Option<&str>, base: u64) -> EngineModule {
    EngineModule {
        name: name.map(str::to_string),
        version: None,
        path: Some("/a".to_string()),
        range: Some(EngineRange { base, size: 0x1000 }),
    }
}

#[test]
fn modules_are_listed_by_their_addresses() {
    let listed = vec![
        engine_module(Some("b"), 0x2000),
        engine_module(None, 0x1800),
        engine_module(Some("a"), 0x1000),
    ];
    let modules = enumerate_modules(listed);
    assert_eq!(
        modules.iter().map(|module| module.base).collect::<Vec<_>>(),
        vec![0x1000, 0x2000]
    );
    assert!(module_details(None).is_none());
}

fn identity() -> ModuleIdentity {
    ModuleIdentity { name: "a".to_string(), path: "/a".to_string(), base: 0x1000, size: 0x1000 }
}

#[test]
fn a_module_is_searched_for_in_three_ways() {
    assert_eq!(
        begin_module_search(&identity()),
        Ok(ModuleSearch::Ask(ModuleQuery::ByPath))
    );
    assert_eq!(
        continue_module_search(ModuleQuery::ByPath, 0),
        ModuleSearch::Ask(ModuleQuery::ByName)
    );
    assert_eq!(
        continue_module_search(ModuleQuery::ByName, 0),
        ModuleSearch::Ask(ModuleQuery::ByAddress)
    );
    assert_eq!(continue_module_search(ModuleQuery::ByAddress, 0), ModuleSearch::Missing);
    assert_eq!(continue_module_search(ModuleQuery::ByName, 5), ModuleSearch::Found(5));
    let mut bad = identity();
    bad.name = "\0".to_string();
    assert_eq!(begin_module_search(&bad).unwrap_err(), "module name contains a NUL byte");
    bad.path = "\0".to_string();
    assert_eq!(begin_module_search(&bad).unwrap_err(), "module path contains a NUL byte");

    let found = |name, base| Some(FoundModule { handle: 9, module: engine_module(name, base) });
    assert_eq!(find_module(&identity(), found(Some("a"), 0x1000)), Ok(9));
    assert_eq!(
        find_module(&identity(), None).unwrap_err(),
        "module is no longer present in Gum's registry"
    );
    assert_eq!(
        find_module(&identity(), found(None, 0x1000)).unwrap_err(),
        "unable to inspect Gum module"
    );
    assert_eq!(
        find_module(&identity(), found(Some("a"), 0x2000)).unwrap_err(),
        "Gum module identity does not match the requested instance"
    );
    assert_eq!(
        find_symbol_by_name(&identity(), found(Some("a"), 0x1000), "f", 0x1010),
        Ok(Some(0x1010))
    );
    assert_eq!(find_global_export_by_name("f", 0), Ok(None));
    assert_eq!(
        find_global_export_by_name("\0", 0).unwrap_err(),
        "symbol name contains a NUL byte"
    );
}

#[test]
fn sections_and_dependencies_need_their_names() {
    let mut sections = Vec::new();
    collect_section(
        &mut sections,
        EngineSection {
            id: Some("1".to_string()),
            name: Some(".text".to_string()),
            address: 1,
            size: 2,
        },
    );
    collect_section(&mut sections, EngineSection { id: None, name: None, address: 1, size: 2 });
    assert_eq!(sections.len(), 1);
    let mut dependencies = Vec::new();
    collect_dependency(&mut dependencies, Some("libc.so".to_string()), DependencyType::Weak);
    collect_dependency(&mut dependencies, None, DependencyType::Weak);
    assert_eq!(dependencies.len(), 1);
    assert_eq!(dependencies[0].kind, "weak");
    assert_eq!(dependency_kind(DependencyType::Regular), "regular");
    assert_eq!(thread_state_name(ThreadState::Waiting), "waiting");
}

fn registry_answer(added: u64, removed: u64) -> ModuleRegistryAnswer {
    ModuleRegistryAnswer {
        registry: 1,
        added_handler: added,
        removed_handler: removed,
        listed: vec![engine_module(Some("b"), 2), engine_module(Some("a"), 1)],
    }
}

#[test]
fn watching_modules_connects_both_handlers_or_none() {
    let mut slot = None;
    let failure = attach_module_observer(&mut slot, registry_answer(5, 0)).unwrap_err();
    assert_eq!(failure.message, "failed to subscribe to Gum module registry");
    assert_eq!(failure.disconnect, vec![5]);
    let mut missing = registry_answer(5, 6);
    missing.registry = 0;
    assert_eq!(
        attach_module_observer(&mut slot, missing).unwrap_err().message,
        "Gum module registry is unavailable"
    );
    let modules = attach_module_observer(&mut slot, registry_answer(5, 6)).unwrap();
    assert_eq!((modules[0].base, modules[1].base), (1, 2));
    assert!(!stop_observer_worker_if_idle(&slot, &None));
    let mut subscription = slot.take().unwrap();
    assert_eq!(subscription.disconnect(), vec![5, 6]);
    assert!(subscription.disconnect().is_empty());
    assert!(stop_observer_worker_if_idle(&slot, &None));
}

#[test]
fn watching_threads_connects_all_handlers_or_none() {
    let answer = |renamed| ThreadRegistryAnswer {
        registry: 1,
        added_handler: 5,
        removed_handler: 6,
        renamed_handler: renamed,
        listed: vec![
            EngineThread { id: 9, name: None, state: ThreadState::Running },
            EngineThread { id: 4, name: Some("a".to_string()), state: ThreadState::Halted },
        ],
    };
    let mut slot = None;
    let failure = attach_thread_observer(&mut slot, answer(0)).unwrap_err();
    assert_eq!(failure.message, "failed to subscribe to Gum thread registry");
    assert_eq!(failure.disconnect, vec![5, 6]);
    let threads = attach_thread_observer(&mut slot, answer(7)).unwrap();
    assert_eq!((threads[0].id, threads[0].state.as_str()), (4, "halted"));
    assert_eq!(slot.unwrap().disconnect(), vec![5, 6, 7]);
}

#[test]
fn the_observer_worker_starts_and_stops() {
    let mut worker = ObserverWorker::new();
    assert!(worker.start_observer_worker(false));
    worker.worker_spawned(Ok(77)).unwrap();
    assert!(!worker.start_observer_worker(true));
    assert!(!worker.stop_observer_worker(77));
    assert!(worker.stop_observer_worker(78));
    assert!(matches!(worker.poll_stop(true, 0), StopPoll::Rest { millis: 5 }));
    assert!(matches!(worker.poll_stop(true, 1500), StopPoll::TimedOut { .. }));
    assert!(matches!(worker.poll_stop(false, 0), StopPoll::Done));
    assert_eq!(worker.tid, 0);
    assert!(worker.start_observer_worker(false));
    assert_eq!(
        worker.worker_spawned(Err("no".to_string())).unwrap_err(),
        "failed to start process observer worker: no"
    );
    worker.worker_ended();
    assert!(!worker.running);
    let mut reported = false;
    let pause = observer_worker_step(Err("bad".to_string()), &mut reported);
    assert_eq!(pause.log.as_deref(), Some("[process observer] dispatch failed: bad\n"));
    assert!(observer_worker_step(Err("bad".to_string()), &mut reported).log.is_none());
    assert_eq!(observer_worker_step(Ok(true), &mut reported).millis, 0);
    assert!(!reported);
    assert!(matches!(wait_observer_callbacks(0, 0), StopPoll::Done));
    assert!(matches!(wait_observer_callbacks(1, 9999), StopPoll::TimedOut { .. }));
}

#[test]
fn backends_are_installed_together() {
    let mut backends = ModuleBackends { modules: None, observers: None };
    let modules = ModuleBackend {
        enumerate_modules: 1,
        ensure_initialized: 2,
        enumerate_sections: 3,
        enumerate_dependencies: 4,
        find_symbol_by_name: 5,
    };
    let observers = ProcessObserverBackend {
        attach_module_observer: 1,
        detach_module_observer: 2,
        attach_thread_observer: 3,
        detach_thread_observer: 4,
        start_dispatcher: 5,
    };
    install_quickjs_backend(&mut backends, modules, observers);
    assert_eq!(backends.modules, Some(modules));
    assert_eq!(backends.observers, Some(observers));
}

fn observed(path: &str, base: u64) -> ObservedModule {
    ObservedModule { identity_path: path.to_string(), details: module("m", path, base) }
}

const ADDED: [u8; 16] = [1; 16];
const REMOVED: [u8; 16] = [2; 16];
const RENAMED: [u8; 16] = [3; 16];

fn watch_modules(state: &mut ProcessObserverState, known: Vec<ObservedModule>) -> u32 {
    let callbacks = ModuleCallbacks { on_added: Some(ADDED), on_removed: Some(REMOVED) };
    add_module_observer(state, callbacks, &known)
}

fn watch_threads(state: &mut ProcessObserverState, known: Vec<ProcessThreadDetails>) -> u32 {
    let callbacks = ThreadCallbacks {
        on_added: Some(ADDED),
        on_removed: Some(REMOVED),
        on_renamed: Some(RENAMED),
    };
    add_thread_observer(state, callbacks, &known)
}

fn thread(id: u64, name: &str) -> ProcessThreadDetails {
    ProcessThreadDetails { id, name: Some(name.to_string()), state: "running".to_string() }
}

#[test]
fn observers_are_told_once_of_a_module() {
    let mut state = ProcessObserverState::default();
    let first = watch_modules(&mut state, vec![observed("/a", 1)]);
    let second = watch_modules(&mut state, vec![]);
    assert_eq!((first, second), (1, 2));
    let added = ModuleChange::Added(observed("/a", 1));
    assert_eq!(dispatch_module_event(&mut state, &added), vec![ADDED]);
    assert!(dispatch_module_event(&mut state, &added).is_empty());
    let removed = ModuleChange::Removed(observed("/a", 1));
    assert_eq!(dispatch_module_event(&mut state, &removed), vec![REMOVED, REMOVED]);
    assert!(dispatch_module_event(&mut state, &removed).is_empty());
    assert_eq!(initial_module_callback(&state, first), Some(ADDED));
    assert_eq!(initial_module_callback(&state, 9), None);
}

#[test]
fn observers_are_told_of_new_names() {
    let mut state = ProcessObserverState::default();
    let id = watch_threads(&mut state, vec![thread(5, "old")]);
    let renamed = ThreadObserverEvent::Renamed {
        thread: thread(5, "new"),
        previous_name: Some("old".to_string()),
    };
    assert_eq!(dispatch_thread_event(&mut state, &renamed), vec![RENAMED]);
    assert!(dispatch_thread_event(&mut state, &renamed).is_empty());
    assert_eq!(
        dispatch_thread_event(&mut state, &ThreadObserverEvent::Added(thread(6, "x"))),
        vec![ADDED]
    );
    assert_eq!(
        dispatch_thread_event(&mut state, &ThreadObserverEvent::Removed(thread(6, "x"))),
        vec![REMOVED]
    );
    assert_eq!(initial_thread_callback(&state, id), Some(ADDED));
    let detached = detach_thread_observer(&mut state, id).unwrap();
    assert!(detached.last);
    assert_eq!(detached.release, vec![ADDED, REMOVED, RENAMED]);
}

#[test]
fn comparing_with_the_process_settles_all_observers() {
    let mut state = ProcessObserverState::default();
    let _ = watch_modules(&mut state, vec![observed("/a", 1), observed("/gone", 2)]);
    let _ = watch_modules(&mut state, vec![observed("/new", 3)]);
    let _ = watch_threads(&mut state, vec![thread(5, "old"), thread(6, "gone")]);
    let plan = begin_reconcile(&mut state, 100).unwrap();
    assert!(plan.modules && plan.threads);
    assert!(begin_reconcile(&mut state, u64::MAX).is_none());
    let current = vec![observed("/a", 1), observed("/new", 3)];
    let threads = vec![thread(5, "new"), thread(7, "x")];
    let changes = reconcile_modules(&state, &current);
    let events = reconcile_threads(&state, &threads);
    end_reconcile(&mut state);
    assert_eq!(changes[0], ModuleChange::Removed(observed("/gone", 2)));
    for change in &changes {
        let _ = dispatch_module_event(&mut state, change);
    }
    for event in &events {
        let _ = dispatch_thread_event(&mut state, event);
    }
    for observer in &state.module_observers {
        let mut bases: Vec<u64> =
            observer.known.iter().map(|module| module.details.base).collect();
        bases.sort();
        assert_eq!(bases, vec![1, 3]);
    }
    assert_eq!(
        state.thread_observers[0].known.iter().map(|known| known.id).collect::<Vec<_>>(),
        vec![5, 7]
    );
    assert!(reconcile_modules(&state, &current).is_empty());
    assert!(reconcile_threads(&state, &threads).is_empty());
    assert!(!process_observer_events_pending(&state, 101));
    assert!(process_observer_events_pending(&state, 100 + PROCESS_OBSERVER_RECONCILE_INTERVAL));
}

#[test]
fn snapshots_keep_what_the_process_maps() {
    let mut known = observed("/a", 2);
    known.details.version = Some("1".to_string());
    let merged = merge_module_snapshots(
        vec![known, observed("/gone", 9)],
        vec![observed("/a", 2), observed("/b", 1)],
    );
    assert_eq!(merged.len(), 2);
    assert_eq!(merged[0].identity_path, "/b");
    assert_eq!(merged[1].details.version.as_deref(), Some("1"));
}

#[test]
fn the_newest_events_wait() {
    let mut state = ProcessObserverState::default();
    let event = |base| ModuleObserverEvent::Added(module("m", "/m", base));
    queue_module_observer_event(&mut state, event(1));
    assert_eq!(state.events.len(), 0);
    assert!(begin_module_attach(&mut state));
    assert!(begin_thread_attach(&mut state));
    for base in 0..PROCESS_OBSERVER_QUEUE_CAPACITY as u64 + 2 {
        queue_module_observer_event(&mut state, event(base));
    }
    queue_thread_observer_event(&mut state, ThreadObserverEvent::Added(thread(1, "a")));
    assert_eq!(state.events.len(), PROCESS_OBSERVER_QUEUE_CAPACITY);
    assert!(process_observer_events_pending(&state, 0));
    match next_process_observer_event(&mut state, 0) {
        Some(QueuedProcessObserverEvent::Module(first)) => {
            assert_eq!(first, event(3));
            assert_eq!(
                module_change(first, "/m".to_string()),
                ModuleChange::Added(observed_as("/m", 3))
            );
        }
        other => panic!("{other:?}"),
    }
    assert!(next_process_observer_event(&mut state, PROCESS_OBSERVER_QUEUE_CAPACITY).is_none());
    stop_accepting_modules(&mut state);
    assert_eq!(state.events.len(), 1);
    stop_accepting_threads(&mut state);
    assert_eq!(state.events.len(), 0);
}

fn observed_as(path: &str, base: u64) -> ObservedModule {
    ObservedModule { identity_path: path.to_string(), details: module("m", path, base) }
}

#[test]
fn watching_is_set_up_and_torn_down() {
    let function = CallbackArgument::Function(ADDED);
    let absent = CallbackArgument::Absent;
    let other = CallbackArgument::Other;
    assert_eq!(
        module_callbacks(false, function, absent, true).unwrap_err().error.message,
        "callbacks must be an object"
    );
    let failure = module_callbacks(true, function, other, true).unwrap_err();
    assert_eq!(failure.error.message, "onRemoved must be a function");
    assert_eq!(failure.release, vec![ADDED]);
    assert_eq!(
        module_callbacks(true, absent, absent, true).unwrap_err().error.message,
        "at least one callback must be provided"
    );
    assert_eq!(
        module_callbacks(true, function, absent, false).unwrap_err().error.message,
        "process observer backend is not available"
    );
    let callbacks = module_callbacks(true, function, absent, true).unwrap();
    assert_eq!(
        thread_callbacks(true, function, absent, other, true).unwrap_err().error.message,
        "onRenamed must be a function"
    );
    let thread_functions = thread_callbacks(true, function, absent, absent, true).unwrap();
    assert_eq!(
        optional_callback(other, "onAdded").unwrap_err().message,
        "onAdded must be a function"
    );
    let mut state = ProcessObserverState::default();
    assert!(begin_module_attach(&mut state));
    let failure = module_attach_failed(&mut state, callbacks, "no");
    assert_eq!((failure.error.message.as_str(), failure.release), ("no", vec![ADDED]));
    assert!(!state.module_accepting);
    let failure = thread_attach_failed(&mut state, thread_functions, "no");
    assert_eq!(failure.release, vec![ADDED]);
    let id = watch_modules(&mut state, vec![]);
    assert!(!begin_module_attach(&mut state));
    assert!(detach_module_observer(&mut state, 99).is_none());
    let _ = watch_threads(&mut state, vec![]);
    let mut cut = cut_process_observers(&mut state, true);
    assert!(cut.detach_modules && cut.detach_threads);
    cut.answered(Ok(())).unwrap();
    assert!(!cut.detach_modules && cut.detach_threads);
    assert_eq!(cut.answered(Err("late".to_string())).unwrap_err(), "late");
    assert!(!cut.detach_threads);
    let detached = detach_module_observer(&mut state, id).unwrap();
    assert!(detached.last);
    assert_eq!(
        free_process_observers(&mut state),
        vec![ADDED, REMOVED, RENAMED]
    );
    assert_eq!(observer_number(Some(-1)), u32::MAX);
    assert_eq!(observer_number(None), 0);
}

#[test]
fn numbers_of_observers_are_not_given_twice() {
    let mut state = ProcessObserverState::default();
    state.next_id = u32::MAX;
    let first = watch_modules(&mut state, vec![]);
    let second = watch_threads(&mut state, vec![]);
    assert_eq!((first, second), (u32::MAX, 1));
    state.next_id = u32::MAX;
    assert_eq!(watch_modules(&mut state, vec![]), 2);
}

#[test]
fn a_runtime_is_loaded_if_its_code_is_mapped() {
    let code = "7000-8000 r-xp 0 0 0 /apex/lib64/libart.so\n";
    let data = "7000-8000 r--p 0 0 0 /apex/lib64/libart.so\n";
    assert!(art_runtime_loaded(Some(&format!("{data}{code}"))));
    assert!(!art_runtime_loaded(Some(data)));
    assert!(!art_runtime_loaded(Some("7000-8000 r-xp 0 0 0 /lib/libc.so\n")));
    assert!(!art_runtime_loaded(None));
    assert_eq!(android_release(b"16\0\0", 2).as_deref(), Some("16"));
    assert_eq!(android_release(b"16", 0), None);
    assert_eq!(android_release(&[0xff], 1), None);
}

#[test]
fn array_classes_name_their_elements() {
    assert_eq!(
        element_class_from_array_class("[Ljava.lang.String;"),
        "java.lang.String"
    );
    assert_eq!(element_class_from_array_class("[[I"), "[I");
    assert_eq!(element_class_from_array_class("java.lang.String"), "java.lang.String");
    assert_eq!(element_sig_from_array_class("[I"), "I");
    assert_eq!(element_sig_from_array_class("java.lang.String"), "Ljava/lang/String;");
}

fn integer(value: i64) -> ElementValue {
    ElementValue { truth: Some(value != 0), integer: Some(value), float: None, double: None }
}

#[test]
fn elements_read_back() {
    let cases = [
        (PrimitiveArray::Boolean, 1, ElementRead::Truth(true)),
        (PrimitiveArray::Byte, -2, ElementRead::Int(-2)),
        (PrimitiveArray::Char, 0xffff, ElementRead::Int(0xffff)),
        (PrimitiveArray::Short, -300, ElementRead::Int(-300)),
        (PrimitiveArray::Int, -70000, ElementRead::Int(-70000)),
        (PrimitiveArray::Long, i64::MIN, ElementRead::Long(i64::MIN)),
    ];
    for (kind, value, expected) in cases {
        let mut bytes = Vec::new();
        assert!(encode_primitive_element(kind, integer(value), &mut bytes).is_ok());
        assert_eq!(bytes.len(), kind.element_size());
        assert_eq!(primitive_element(kind, &bytes), expected);
    }
    assert_eq!(
        encode_elements(PrimitiveArray::Float, &vec![integer(1)]),
        Err(0)
    );
    assert_eq!(
        encode_elements(PrimitiveArray::Short, &vec![integer(1), integer(-1)]),
        Ok(vec![1, 0, 0xff, 0xff])
    );
    assert_eq!(
        primitive_array_element('I', &[5, 0, 0, 0, 0, 0, 0, 0], false),
        Some(Some(ElementRead::Int(5)))
    );
    assert_eq!(primitive_array_element('I', &[0; 8], true), Some(None));
    assert_eq!(primitive_array_element('L', &[0; 8], false), None);
    assert_eq!(PrimitiveArray::named("double"), Some(PrimitiveArray::Double));
    assert_eq!(PrimitiveArray::named("object"), None);
}

#[test]
fn arrays_are_asked_the_right_way() {
    let handle = HandleArgument::Handle(5);
    assert_eq!(js_java_array_length(handle, None, false, true), ArrayLengthPlan::AskHere(5));
    assert_eq!(js_java_array_length(handle, None, true, true), ArrayLengthPlan::Unknown);
    assert_eq!(
        js_java_array_length(handle, Some(true), true, true),
        ArrayLengthPlan::AskExecutor(5)
    );
    let arguments = |class: &str| ArrayGetArguments {
        count: 4,
        array: Some(5),
        index: Some(1),
        class: Some(class.to_string()),
        is_global: Some(true),
    };
    assert!(matches!(
        js_java_array_get(arguments("[I"), false, true),
        ArrayGetPlan::ReadPrimitive { array: 5, index: 1, kind: PrimitiveArray::Int }
    ));
    match js_java_array_get(arguments("[Ljava.lang.String;"), false, true) {
        ArrayGetPlan::FetchObject { class, .. } => assert_eq!(class, "java.lang.String"),
        other => panic!("{other:?}"),
    }
    match js_java_array_get(arguments("[I"), true, true) {
        ArrayGetPlan::AskExecutor { signature, .. } => assert_eq!(signature, "I"),
        other => panic!("{other:?}"),
    }
    let mut negative = arguments("[I");
    negative.index = Some(-1);
    assert!(matches!(js_java_array_get(negative, false, true), ArrayGetPlan::Undefined));
    let mut null = arguments("[I");
    null.array = Some(0);
    assert!(matches!(js_java_array_get(null, false, true), ArrayGetPlan::Null));
}

#[test]
fn new_arrays_are_checked() {
    let name = || Some("int".to_string());
    let array = js_java_new_array(2, name(), Some(3), true).unwrap();
    assert_eq!((array.length, array.kind), (3, Some(PrimitiveArray::Int)));
    let refusals = [
        (js_java_new_array(1, None, None, true), "Java.array(type, elements) requires two arguments"),
        (js_java_new_array(2, None, None, true), "Java.array() element type must be a string"),
        (js_java_new_array(2, name(), Some(-1), true), "Java.array() elements must be an array"),
        (
            js_java_new_array(2, name(), Some(1), false),
            "Java.array() could not attach the current thread",
        ),
    ];
    for (result, expected) in refusals {
        assert_eq!(result.unwrap_err().message, expected);
    }
    let failures = [
        (NewArrayFailure::NotAllocated, "Java.array(): could not allocate int[3]"),
        (NewArrayFailure::NotAnElement(1), "Java.array(): element 1 is not a int"),
        (NewArrayFailure::NotPopulated, "Java.array(): could not populate the array"),
        (NewArrayFailure::NoSuchClass, "Java.array(): class not found: int"),
        (NewArrayFailure::NotStored(2), "Java.array(): could not store element 2"),
    ];
    for (failure, expected) in failures {
        assert_eq!(new_array_error(&array, failure).message, expected);
    }
}

#[test]
fn java_objects_are_checked() {
    assert_eq!(required_handle(HandleArgument::Handle(5), "Java.cast").unwrap(), 5);
    assert_eq!(
        required_handle(HandleArgument::Missing, "Java.cast").unwrap_err().message,
        "Java.cast() requires an object handle"
    );
    assert_eq!(
        required_handle(HandleArgument::Handle(0), "Java.cast").unwrap_err().message,
        "Java.cast() requires a live Java object"
    );
    assert!(monitor_outcome(true, true, false, false).is_ok());
    assert_eq!(
        monitor_outcome(false, true, true, false).unwrap_err().message,
        "Java.synchronized() could not leave the object monitor"
    );
    assert_eq!(
        monitor_outcome(true, false, true, false).unwrap_err().message,
        "Java.synchronized() could not attach the current thread"
    );
    assert_eq!(retain_outcome(true, 7, false).unwrap(), 7);
    assert_eq!(
        retain_outcome(true, 0, false).unwrap_err().message,
        "Java.retain() could not create a global reference"
    );
    assert_eq!(cast_target(2, Some("a.B"), true, 4).unwrap(), 4);
    assert_eq!(
        cast_target(2, Some("a.B"), true, 0).unwrap_err().message,
        "Java.cast(): class not found: a.B"
    );
    assert_eq!(
        cast_target(1, None, true, 0).unwrap_err().message,
        "Java.cast() requires a target class name"
    );
}

#[test]
fn lookups_need_their_argument() {
    let told = |lookup| lookup_argument(0, Ok(1), lookup).unwrap_err().message;
    assert_eq!(
        told(Lookup::ModuleByName),
        "Process.findModuleByName(name) requires 1 argument"
    );
    assert_eq!(
        told(Lookup::ModuleByAddress),
        "Process.findModuleByAddress(address) requires 1 argument"
    );
    assert_eq!(
        told(Lookup::RangeByAddress),
        "Process.findRangeByAddress(address) requires 1 argument"
    );
    assert_eq!(lookup_argument(1, Ok(1), Lookup::RangeByAddress).unwrap(), 1);
    assert_eq!(js_java_android_version(Some("14".to_string())).unwrap(), "14");
    assert_eq!(
        js_java_android_version(None).unwrap_err().message,
        "Java.androidVersion is unavailable on this platform"
    );
}

#[test]
fn disposing_of_nothing_is_no_error() {
    assert_eq!(js_java_delete_global_ref(HandleArgument::Missing, true), None);
    assert_eq!(js_java_delete_global_ref(HandleArgument::Other, true), None);
    assert_eq!(js_java_delete_global_ref(HandleArgument::Handle(0), true), None);
    assert_eq!(js_java_delete_global_ref(HandleArgument::Handle(5), false), None);
    assert_eq!(js_java_delete_global_ref(HandleArgument::Handle(5), true), Some(5));
}
