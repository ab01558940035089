//! Modules and threads of the process as the instrumentation engine knows them.

use crate::debug_symbols::{c_string, holds_nul};
use crate::sorting::{stable_sort, stable_sorted, SortKey};
use crate::text::{optional_text, same_text};
use vstd::prelude::*;
use vstd::string::*;

verus! {

/// How long the worker that delivers events rests when there are none.
pub const OBSERVER_WORKER_POLL_MS: u64 = 10;

/// How long a worker or a callback may take to end.
pub const OBSERVER_WORKER_STOP_TIMEOUT_MS: u64 = 1500;

/// A loaded module.
#[derive(Debug, PartialEq, Eq)]
pub struct ModuleDetails {
    pub name: String,
    pub version: Option<String>,
    pub path: String,
    pub base: u64,
    pub size: u64,
}

/// Which module a script means.
#[derive(Debug, PartialEq, Eq)]
pub struct ModuleIdentity {
    pub name: String,
    pub path: String,
    pub base: u64,
    pub size: u64,
}

/// A section of a module.
#[derive(Debug, PartialEq, Eq)]
pub struct ModuleSectionDetails {
    pub id: String,
    pub name: String,
    pub address: u64,
    pub size: u64,
}

/// A module that another one depends on.
#[derive(Debug, PartialEq, Eq)]
pub struct ModuleDependencyDetails {
    pub name: String,
    pub kind: String,
}

/// A thread of the process.
#[derive(Debug, PartialEq, Eq)]
pub struct ProcessThreadDetails {
    pub id: u64,
    pub name: Option<String>,
    pub state: String,
}

/// A module that was loaded or unloaded.
#[derive(Debug, PartialEq, Eq)]
pub enum ModuleObserverEvent {
    Added(ModuleDetails),
    Removed(ModuleDetails),
}

/// A thread that was started, ended or renamed.
#[derive(Debug, PartialEq, Eq)]
pub enum ThreadObserverEvent {
    Added(ProcessThreadDetails),
    Removed(ProcessThreadDetails),
    Renamed { thread: ProcessThreadDetails, previous_name: Option<String> },
}

/// The code addresses of the embedder's functions on modules.
#[derive(Clone, Copy, Debug, PartialEq, Eq, Structural)]
pub struct ModuleBackend {
    pub enumerate_modules: u64,
    pub ensure_initialized: u64,
    pub enumerate_sections: u64,
    pub enumerate_dependencies: u64,
    pub find_symbol_by_name: u64,
}

/// The code addresses of the embedder's functions that watch modules and threads.
#[derive(Clone, Copy, Debug, PartialEq, Eq, Structural)]
pub struct ProcessObserverBackend {
    pub attach_module_observer: u64,
    pub detach_module_observer: u64,
    pub attach_thread_observer: u64,
    pub detach_thread_observer: u64,
    pub start_dispatcher: u64,
}

/// Where the embedder's functions are kept.
#[derive(Clone, Copy, Debug, PartialEq, Eq, Structural)]
pub struct ModuleBackends {
    pub modules: Option<ModuleBackend>,
    pub observers: Option<ProcessObserverBackend>,
}

/// Makes the functions on modules available to scripts.
pub fn install_module_backend(backends: &mut ModuleBackends, backend: ModuleBackend)
    ensures
        *final(backends) == (ModuleBackends { modules: Some(backend), ..*old(backends) }),
{
    backends.modules = Some(backend);
}

/// Makes the functions that watch modules and threads available to scripts.
pub fn install_process_observer_backend(
    backends: &mut ModuleBackends,
    backend: ProcessObserverBackend,
)
    ensures
        *final(backends) == (ModuleBackends { observers: Some(backend), ..*old(backends) }),
{
    backends.observers = Some(backend);
}

/// Makes all of the engine's functions available to scripts.
pub fn install_quickjs_backend(
    backends: &mut ModuleBackends,
    modules: ModuleBackend,
    observers: ProcessObserverBackend,
)
    ensures
        *final(backends) == (ModuleBackends { modules: Some(modules), observers: Some(observers) }),
{
    install_module_backend(backends, modules);
    install_process_observer_backend(backends, observers);
}

impl SortKey for ModuleDetails {
    open spec fn sort_key(&self) -> u64 {
        self.base
    }

    fn key(&self) -> (key: u64) {
        self.base
    }
}

impl SortKey for ProcessThreadDetails {
    open spec fn sort_key(&self) -> u64 {
        self.id
    }

    fn key(&self) -> (key: u64) {
        self.id
    }
}

fn copy_optional(text: &Option<String>) -> (copy: Option<String>)
    ensures
        copy == *text,
{
    match text {
        Some(text) => Some(text.clone()),
        None => None,
    }
}

impl ModuleDetails {
    /// The same details once more.
    pub fn copy_details(&self) -> (copy: ModuleDetails)
        ensures
            copy == *self,
    {
        ModuleDetails {
            name: self.name.clone(),
            version: copy_optional(&self.version),
            path: self.path.clone(),
            base: self.base,
            size: self.size,
        }
    }
}

impl ProcessThreadDetails {
    /// The same details once more.
    pub fn copy_details(&self) -> (copy: ProcessThreadDetails)
        ensures
            copy == *self,
    {
        ProcessThreadDetails {
            id: self.id,
            name: copy_optional(&self.name),
            state: self.state.clone(),
        }
    }
}

/// A module as the engine describes it.
#[derive(Debug)]
pub struct EngineModule {
    pub name: Option<String>,
    pub version: Option<String>,
    pub path: Option<String>,
    pub range: Option<EngineRange>,
}

/// Where a module lies.
#[derive(Clone, Copy, Debug, PartialEq, Eq, Structural)]
pub struct EngineRange {
    pub base: u64,
    pub size: u64,
}

/// A module's details; none if the engine leaves out more than the version.
pub open spec fn details_of(module: EngineModule) -> Option<ModuleDetails> {
    if module.name is Some && module.path is Some && module.range is Some {
        Some(
            ModuleDetails {
                name: module.name->0,
                version: module.version,
                path: module.path->0,
                base: module.range->0.base,
                size: module.range->0.size,
            },
        )
    } else {
        None
    }
}

/// A module's details, if the engine gives a module and all that is needed of it.
pub fn module_details(module: Option<EngineModule>) -> (details: Option<ModuleDetails>)
    ensures
        details == match module {
            Some(module) => details_of(module),
            None => None,
        },
{
    match module {
        None => None,
        Some(module) => match (module.name, module.path, module.range) {
            (Some(name), Some(path), Some(range)) => Some(
                ModuleDetails { name, version: module.version, path, base: range.base, size: range.size },
            ),
            _ => None,
        },
    }
}

/// The details of all modules of which the engine says enough.
pub open spec fn all_details(modules: Seq<EngineModule>) -> Seq<ModuleDetails>
    decreases modules.len(),
{
    if modules.len() == 0 {
        seq![]
    } else {
        match details_of(modules.last()) {
            Some(details) => all_details(modules.drop_last()).push(details),
            None => all_details(modules.drop_last()),
        }
    }
}

/// The details of the modules that the engine lists, in the order of their addresses.
pub fn enumerate_modules(modules: Vec<EngineModule>) -> (sorted: Vec<ModuleDetails>)
    ensures
        sorted@ == stable_sorted(all_details(modules@)),
{
    let ghost all = modules@;
    let mut list: Vec<ModuleDetails> = Vec::new();
    assert(all.take(0) =~= seq![]);
    for module in it: modules
        invariant
            it.seq() == all,
            list@ == all_details(all.take(it.index() as int)),
    {
        let ghost done = it.index() as int;
        assert(all.take(done + 1).drop_last() =~= all.take(done));
        assert(all.take(done + 1).last() == module);
        match module_details(Some(module)) {
            Some(details) => {
                list.push(details);
            },
            None => {},
        }
    }
    assert(all.take(all.len() as int) =~= all);
    stable_sort(list)
}

/// An address that the engine has found; zero stands for none.
pub open spec fn found_address(address: u64) -> Option<u64> {
    if address == 0 {
        None
    } else {
        Some(address)
    }
}

/// An exported function by its name, from the engine's answer.
pub fn find_global_export_by_name(symbol: &str, address: u64) -> (result: Result<
    Option<u64>,
    String,
>)
    ensures
        result is Err <==> holds_nul(symbol@),
        result matches Ok(found) ==> found == found_address(address),
        result matches Err(error) ==> error@ == "symbol name"@ + " contains a NUL byte"@,
{
    match c_string(symbol, "symbol name") {
        Err(error) => Err(error),
        Ok(_) => Ok(
            if address != 0 {
                Some(address)
            } else {
                None
            },
        ),
    }
}

/// How the engine is asked for a module.
#[derive(Clone, Copy, Debug, PartialEq, Eq, Structural)]
pub enum ModuleQuery {
    ByPath,
    ByName,
    ByAddress,
}

/// Where a search for a module stands.
#[derive(Clone, Copy, Debug, PartialEq, Eq, Structural)]
pub enum ModuleSearch {
    Ask(ModuleQuery),
    Found(u64),
    Missing,
}

/// How a search for a module begins.
pub fn begin_module_search(identity: &ModuleIdentity) -> (result: Result<ModuleSearch, String>)
    ensures
        result is Ok <==> !holds_nul(identity.path@) && !holds_nul(identity.name@),
        result matches Ok(search) ==> search == ModuleSearch::Ask(ModuleQuery::ByPath),
        result matches Err(error) ==> error@ == (if holds_nul(identity.path@) {
            "module path"@
        } else {
            "module name"@
        }) + " contains a NUL byte"@,
{
    match c_string(identity.path.as_str(), "module path") {
        Ok(_) => {},
        Err(error) => {
            return Err(error);
        },
    }
    match c_string(identity.name.as_str(), "module name") {
        Ok(_) => {},
        Err(error) => {
            return Err(error);
        },
    }
    Ok(ModuleSearch::Ask(ModuleQuery::ByPath))
}

/// How a search goes on when the engine has answered; zero stands for no module.
pub fn continue_module_search(query: ModuleQuery, module: u64) -> (search: ModuleSearch)
    ensures
        search == if module != 0 {
            ModuleSearch::Found(module)
        } else {
            match query {
                ModuleQuery::ByPath => ModuleSearch::Ask(ModuleQuery::ByName),
                ModuleQuery::ByName => ModuleSearch::Ask(ModuleQuery::ByAddress),
                ModuleQuery::ByAddress => ModuleSearch::Missing,
            }
        },
{
    if module != 0 {
        return ModuleSearch::Found(module);
    }
    match query {
        ModuleQuery::ByPath => ModuleSearch::Ask(ModuleQuery::ByName),
        ModuleQuery::ByName => ModuleSearch::Ask(ModuleQuery::ByAddress),
        ModuleQuery::ByAddress => ModuleSearch::Missing,
    }
}

/// A module that the search has found, and what the engine says of it.
#[derive(Debug)]
pub struct FoundModule {
    pub handle: u64,
    pub module: EngineModule,
}

/// Why a module that was searched for cannot be used.
pub open spec fn module_problem(identity: ModuleIdentity, found: Option<FoundModule>) -> Option<
    Seq<char>,
> {
    match found {
        None => Some("module is no longer present in Gum's registry"@),
        Some(found) => match details_of(found.module) {
            None => Some("unable to inspect Gum module"@),
            Some(actual) => if actual.base != identity.base || actual.path@ != identity.path@ {
                Some("Gum module identity does not match the requested instance"@)
            } else {
                None
            },
        },
    }
}

/// The module that a script means, if it is the one that was found.
pub fn find_module(identity: &ModuleIdentity, found: Option<FoundModule>) -> (result: Result<
    u64,
    String,
>)
    ensures
        result is Err <==> module_problem(*identity, found) is Some,
        result matches Ok(handle) ==> handle == found->0.handle,
        result matches Err(error) ==> Some(error@) == module_problem(*identity, found),
{
    let found: FoundModule = match found {
        Some(found) => found,
        None => {
            return Err(String::from_str("module is no longer present in Gum's registry"));
        },
    };
    let handle: u64 = found.handle;
    let actual: ModuleDetails = match module_details(Some(found.module)) {
        Some(actual) => actual,
        None => {
            return Err(String::from_str("unable to inspect Gum module"));
        },
    };
    if actual.base != identity.base || !same_text(actual.path.as_str(), identity.path.as_str()) {
        return Err(
            String::from_str("Gum module identity does not match the requested instance"),
        );
    }
    Ok(handle)
}

/// A symbol of a module by its name, from the engine's answer.
pub fn find_symbol_by_name(
    identity: &ModuleIdentity,
    found: Option<FoundModule>,
    symbol: &str,
    address: u64,
) -> (result: Result<Option<u64>, String>)
    ensures
        result is Ok <==> module_problem(*identity, found) is None && !holds_nul(symbol@),
        result matches Ok(symbol_address) ==> symbol_address == found_address(address),
        result matches Err(error) ==> error@ == match module_problem(*identity, found) {
            Some(problem) => problem,
            None => "symbol name"@ + " contains a NUL byte"@,
        },
{
    match find_module(identity, found) {
        Err(error) => Err(error),
        Ok(_) => find_global_export_by_name(symbol, address),
    }
}

/// A section as the engine describes it.
#[derive(Debug)]
pub struct EngineSection {
    pub id: Option<String>,
    pub name: Option<String>,
    pub address: u64,
    pub size: u64,
}

/// Takes in one section of a module; one without a name or an identifier is passed over.
pub fn collect_section(sections: &mut Vec<ModuleSectionDetails>, section: EngineSection)
    ensures
        final(sections)@ == if section.id is Some && section.name is Some {
            old(sections)@.push(
                (ModuleSectionDetails {
                    id: section.id->0,
                    name: section.name->0,
                    address: section.address,
                    size: section.size,
                }),
            )
        } else {
            old(sections)@
        },
{
    match (section.id, section.name) {
        (Some(id), Some(name)) => {
            sections.push(
                ModuleSectionDetails { id, name, address: section.address, size: section.size },
            );
        },
        _ => {},
    }
}

/// How a module depends on another one.
#[derive(Clone, Copy, Debug, PartialEq, Eq, Structural)]
pub enum DependencyType {
    Regular,
    Weak,
    Reexport,
    Upward,
}

/// The word for how a module depends on another one.
pub open spec fn dependency_word(kind: DependencyType) -> Seq<char> {
    match kind {
        DependencyType::Weak => "weak"@,
        DependencyType::Reexport => "reexport"@,
        DependencyType::Upward => "upward"@,
        DependencyType::Regular => "regular"@,
    }
}

/// The word for how a module depends on another one.
pub fn dependency_kind(kind: DependencyType) -> (word: &'static str)
    ensures
        word@ == dependency_word(kind),
{
    match kind {
        DependencyType::Weak => "weak",
        DependencyType::Reexport => "reexport",
        DependencyType::Upward => "upward",
        DependencyType::Regular => "regular",
    }
}

/// Takes in one dependency of a module; one without a name is passed over.
pub fn collect_dependency(
    dependencies: &mut Vec<ModuleDependencyDetails>,
    name: Option<String>,
    kind: DependencyType,
)
    ensures
        match name {
            Some(name) => {
                &&& final(dependencies)@.len() == old(dependencies)@.len() + 1
                &&& final(dependencies)@.drop_last() == old(dependencies)@
                &&& final(dependencies)@.last().name == name
                &&& final(dependencies)@.last().kind@ == dependency_word(kind)
            },
            None => final(dependencies)@ == old(dependencies)@,
        },
{
    match name {
        Some(name) => {
            let ghost before = dependencies@;
            dependencies.push(
                ModuleDependencyDetails { name, kind: String::from_str(dependency_kind(kind)) },
            );
            assert(dependencies@.drop_last() =~= before);
        },
        None => {},
    }
}

/// What a thread is doing.
#[derive(Clone, Copy, Debug, PartialEq, Eq, Structural)]
pub enum ThreadState {
    Running,
    Stopped,
    Waiting,
    Uninterruptible,
    Halted,
    Other,
}

/// The word for what a thread is doing.
pub open spec fn thread_state_word(state: ThreadState) -> Seq<char> {
    match state {
        ThreadState::Running => "running"@,
        ThreadState::Stopped => "stopped"@,
        ThreadState::Waiting => "waiting"@,
        ThreadState::Uninterruptible => "uninterruptible"@,
        ThreadState::Halted => "halted"@,
        ThreadState::Other => "unknown"@,
    }
}

/// The word for what a thread is doing.
pub fn thread_state_name(state: ThreadState) -> (word: &'static str)
    ensures
        word@ == thread_state_word(state),
{
    match state {
        ThreadState::Running => "running",
        ThreadState::Stopped => "stopped",
        ThreadState::Waiting => "waiting",
        ThreadState::Uninterruptible => "uninterruptible",
        ThreadState::Halted => "halted",
        ThreadState::Other => "unknown",
    }
}

/// A thread as the engine describes it.
#[derive(Debug)]
pub struct EngineThread {
    pub id: u64,
    pub name: Option<String>,
    pub state: ThreadState,
}

/// Whether the details are those of a thread of the engine.
pub open spec fn describes_thread(details: ProcessThreadDetails, thread: EngineThread) -> bool {
    &&& details.id == thread.id
    &&& details.name == thread.name
    &&& details.state@ == thread_state_word(thread.state)
}

/// A thread's details.
pub fn thread_details(thread: EngineThread) -> (details: ProcessThreadDetails)
    ensures
        describes_thread(details, thread),
{
    ProcessThreadDetails {
        id: thread.id,
        name: thread.name,
        state: String::from_str(thread_state_name(thread.state)),
    }
}

/// Whether the list holds the details of all threads of the engine, in its order.
pub open spec fn describes_threads(
    list: Seq<ProcessThreadDetails>,
    threads: Seq<EngineThread>,
) -> bool {
    &&& list.len() == threads.len()
    &&& forall|i: int| 0 <= i < list.len() ==> describes_thread(#[trigger] list[i], threads[i])
}

/// The details of the threads that the engine lists, in the order of their numbers.
pub fn enumerate_threads(threads: Vec<EngineThread>) -> (sorted: Vec<ProcessThreadDetails>)
    ensures
        exists|list: Seq<ProcessThreadDetails>|
            describes_threads(list, threads@) && sorted@ == #[trigger] stable_sorted(list),
{
    let ghost all = threads@;
    let mut list: Vec<ProcessThreadDetails> = Vec::new();
    for thread in it: threads
        invariant
            it.seq() == all,
            list@.len() == it.index(),
            forall|i: int| 0 <= i < list@.len() ==> describes_thread(#[trigger] list@[i], all[i]),
    {
        list.push(thread_details(thread));
    }
    assert(describes_threads(list@, all));
    stable_sort(list)
}

/// A subscription to loaded and unloaded modules. Zero stands for no handler.
#[derive(Clone, Copy, Debug, PartialEq, Eq, Structural)]
pub struct ModuleObserverSubscription {
    pub registry: u64,
    pub added_handler: u64,
    pub removed_handler: u64,
}

/// A subscription to started, ended and renamed threads. Zero stands for no handler.
#[derive(Clone, Copy, Debug, PartialEq, Eq, Structural)]
pub struct ThreadObserverSubscription {
    pub registry: u64,
    pub added_handler: u64,
    pub removed_handler: u64,
    pub renamed_handler: u64,
}

/// The handlers that are there.
pub open spec fn live_handlers(handlers: Seq<u64>) -> Seq<u64>
    decreases handlers.len(),
{
    if handlers.len() == 0 {
        seq![]
    } else if handlers.last() == 0 {
        live_handlers(handlers.drop_last())
    } else {
        live_handlers(handlers.drop_last()).push(handlers.last())
    }
}

fn keep_live(handlers: Vec<u64>) -> (live: Vec<u64>)
    ensures
        live@ == live_handlers(handlers@),
{
    let mut live: Vec<u64> = Vec::new();
    let mut i: usize = 0;
    assert(handlers@.take(0) =~= seq![]);
    while i < handlers.len()
        invariant
            i <= handlers@.len(),
            live@ == live_handlers(handlers@.take(i as int)),
        decreases handlers@.len() - i,
    {
        assert(handlers@.take(i + 1).drop_last() =~= handlers@.take(i as int));
        if handlers[i] != 0 {
            live.push(handlers[i]);
        }
        i = i + 1;
    }
    assert(handlers@.take(handlers@.len() as int) =~= handlers@);
    live
}

impl ModuleObserverSubscription {
    /// The handlers of the subscription, if it has a registry.
    pub open spec fn handlers(&self) -> Seq<u64> {
        if self.registry == 0 {
            seq![]
        } else {
            live_handlers(seq![self.added_handler, self.removed_handler])
        }
    }

    /// Ends the subscription: the handlers to disconnect. A second call finds none.
    pub fn disconnect(&mut self) -> (handlers: Vec<u64>)
        ensures
            handlers@ == old(self).handlers(),
            final(self).handlers() == Seq::<u64>::empty(),
            *final(self) == if old(self).registry == 0 {
                *old(self)
            } else {
                ModuleObserverSubscription { added_handler: 0, removed_handler: 0, ..*old(self) }
            },
    {
        proof {
            reveal_with_fuel(live_handlers, 3);
            assert(seq![0u64, 0u64].drop_last() =~= seq![0u64]);
            assert(seq![0u64].drop_last() =~= seq![]);
        }
        if self.registry == 0 {
            return Vec::new();
        }
        let handlers: Vec<u64> = keep_live(vec![self.added_handler, self.removed_handler]);
        self.added_handler = 0;
        self.removed_handler = 0;
        handlers
    }
}

impl ThreadObserverSubscription {
    /// The handlers of the subscription, if it has a registry.
    pub open spec fn handlers(&self) -> Seq<u64> {
        if self.registry == 0 {
            seq![]
        } else {
            live_handlers(seq![self.added_handler, self.removed_handler, self.renamed_handler])
        }
    }

    /// Ends the subscription: the handlers to disconnect. A second call finds none.
    pub fn disconnect(&mut self) -> (handlers: Vec<u64>)
        ensures
            handlers@ == old(self).handlers(),
            final(self).handlers() == Seq::<u64>::empty(),
            *final(self) == if old(self).registry == 0 {
                *old(self)
            } else {
                ThreadObserverSubscription {
                    added_handler: 0,
                    removed_handler: 0,
                    renamed_handler: 0,
                    ..*old(self)
                }
            },
    {
        proof {
            reveal_with_fuel(live_handlers, 4);
            assert(seq![0u64, 0u64, 0u64].drop_last() =~= seq![0u64, 0u64]);
            assert(seq![0u64, 0u64].drop_last() =~= seq![0u64]);
            assert(seq![0u64].drop_last() =~= seq![]);
        }
        if self.registry == 0 {
            return Vec::new();
        }
        let handlers: Vec<u64> = keep_live(
            vec![self.added_handler, self.removed_handler, self.renamed_handler],
        );
        self.added_handler = 0;
        self.removed_handler = 0;
        self.renamed_handler = 0;
        handlers
    }
}

/// A subscription that could not be made.
#[derive(Debug)]
pub struct SubscribeFailure {
    pub message: String,
    /// The handlers that were connected and have to be disconnected again.
    pub disconnect: Vec<u64>,
}

/// What the engine answers when modules are to be watched.
#[derive(Debug)]
pub struct ModuleRegistryAnswer {
    pub registry: u64,
    pub added_handler: u64,
    pub removed_handler: u64,
    /// The modules that it lists, under the lock under which the handlers were connected.
    pub listed: Vec<EngineModule>,
}

/// Why modules cannot be watched.
pub open spec fn module_watch_problem(
    slot: Option<ModuleObserverSubscription>,
    answer: ModuleRegistryAnswer,
) -> Option<(Seq<char>, Seq<u64>)> {
    if slot is Some {
        None
    } else if answer.registry == 0 {
        Some(("Gum module registry is unavailable"@, seq![]))
    } else if answer.added_handler == 0 || answer.removed_handler == 0 {
        Some(
            (
                "failed to subscribe to Gum module registry"@,
                live_handlers(seq![answer.added_handler, answer.removed_handler]),
            ),
        )
    } else {
        None
    }
}

/// Watches modules, unless they are watched already; the result holds the modules that are
/// loaded, in the order of their addresses.
pub fn attach_module_observer(
    slot: &mut Option<ModuleObserverSubscription>,
    answer: ModuleRegistryAnswer,
) -> (result: Result<Vec<ModuleDetails>, SubscribeFailure>)
    ensures
        result is Err <==> module_watch_problem(*old(slot), answer) is Some,
        result matches Err(failure) ==> {
            &&& Some((failure.message@, failure.disconnect@)) == module_watch_problem(
                *old(slot),
                answer,
            )
            &&& *final(slot) == *old(slot)
        },
        result matches Ok(modules) ==> {
            &&& modules@ == stable_sorted(all_details(answer.listed@))
            &&& *final(slot) == if *old(slot) is Some {
                *old(slot)
            } else {
                Some(
                    ModuleObserverSubscription {
                        registry: answer.registry,
                        added_handler: answer.added_handler,
                        removed_handler: answer.removed_handler,
                    },
                )
            }
        },
{
    if slot.is_some() {
        return Ok(enumerate_modules(answer.listed));
    }
    if answer.registry == 0 {
        return Err(
            SubscribeFailure {
                message: String::from_str("Gum module registry is unavailable"),
                disconnect: Vec::new(),
            },
        );
    }
    if answer.added_handler == 0 || answer.removed_handler == 0 {
        return Err(
            SubscribeFailure {
                message: String::from_str("failed to subscribe to Gum module registry"),
                disconnect: keep_live(vec![answer.added_handler, answer.removed_handler]),
            },
        );
    }
    *slot = Some(
        ModuleObserverSubscription {
            registry: answer.registry,
            added_handler: answer.added_handler,
            removed_handler: answer.removed_handler,
        },
    );
    Ok(enumerate_modules(answer.listed))
}

/// What the engine answers when threads are to be watched.
#[derive(Debug)]
pub struct ThreadRegistryAnswer {
    pub registry: u64,
    pub added_handler: u64,
    pub removed_handler: u64,
    pub renamed_handler: u64,
    /// The threads that it lists, under the lock under which the handlers were connected.
    pub listed: Vec<EngineThread>,
}

/// Why threads cannot be watched.
pub open spec fn thread_watch_problem(
    slot: Option<ThreadObserverSubscription>,
    answer: ThreadRegistryAnswer,
) -> Option<(Seq<char>, Seq<u64>)> {
    if slot is Some {
        None
    } else if answer.registry == 0 {
        Some(("Gum thread registry is unavailable"@, seq![]))
    } else if answer.added_handler == 0 || answer.removed_handler == 0 || answer.renamed_handler
        == 0 {
        Some(
            (
                "failed to subscribe to Gum thread registry"@,
                live_handlers(
                    seq![answer.added_handler, answer.removed_handler, answer.renamed_handler],
                ),
            ),
        )
    } else {
        None
    }
}

/// Watches threads, unless they are watched already; the result holds the threads that run,
/// in the order of their numbers.
pub fn attach_thread_observer(
    slot: &mut Option<ThreadObserverSubscription>,
    answer: ThreadRegistryAnswer,
) -> (result: Result<Vec<ProcessThreadDetails>, SubscribeFailure>)
    ensures
        result is Err <==> thread_watch_problem(*old(slot), answer) is Some,
        result matches Err(failure) ==> {
            &&& Some((failure.message@, failure.disconnect@)) == thread_watch_problem(
                *old(slot),
                answer,
            )
            &&& *final(slot) == *old(slot)
        },
        result matches Ok(threads) ==> {
            &&& exists|list: Seq<ProcessThreadDetails>|
                describes_threads(list, answer.listed@) && threads@ == #[trigger] stable_sorted(
                    list,
                )
            &&& *final(slot) == if *old(slot) is Some {
                *old(slot)
            } else {
                Some(
                    ThreadObserverSubscription {
                        registry: answer.registry,
                        added_handler: answer.added_handler,
                        removed_handler: answer.removed_handler,
                        renamed_handler: answer.renamed_handler,
                    },
                )
            }
        },
{
    if slot.is_some() {
        return Ok(enumerate_threads(answer.listed));
    }
    if answer.registry == 0 {
        return Err(
            SubscribeFailure {
                message: String::from_str("Gum thread registry is unavailable"),
                disconnect: Vec::new(),
            },
        );
    }
    if answer.added_handler == 0 || answer.removed_handler == 0 || answer.renamed_handler == 0 {
        return Err(
            SubscribeFailure {
                message: String::from_str("failed to subscribe to Gum thread registry"),
                disconnect: keep_live(
                    vec![answer.added_handler, answer.removed_handler, answer.renamed_handler],
                ),
            },
        );
    }
    *slot = Some(
        ThreadObserverSubscription {
            registry: answer.registry,
            added_handler: answer.added_handler,
            removed_handler: answer.removed_handler,
            renamed_handler: answer.renamed_handler,
        },
    );
    Ok(enumerate_threads(answer.listed))
}

/// The worker that delivers events to scripts.
#[derive(Clone, Copy, Debug, PartialEq, Eq, Structural)]
pub struct ObserverWorker {
    pub stop: bool,
    pub running: bool,
    pub tid: i32,
}

/// What waiting for a worker or for callbacks comes to.
#[derive(Debug)]
pub enum StopPoll {
    Done,
    /// Rest for the given time, then look again.
    Rest { millis: u64 },
    TimedOut { message: String },
}

/// What a worker does after an attempt to deliver events.
#[derive(Debug)]
pub struct WorkerPause {
    /// How long it rests; zero if it goes on at once.
    pub millis: u64,
    pub log: Option<String>,
}

impl ObserverWorker {
    pub fn new() -> (worker: ObserverWorker)
        ensures
            worker == (ObserverWorker { stop: true, running: false, tid: 0 }),
    {
        ObserverWorker { stop: true, running: false, tid: 0 }
    }

    /// Whether the worker's thread is alive, from whether the process lists it.
    pub open spec fn alive(&self, listed: bool) -> bool {
        self.running && self.tid > 0 && listed
    }

    /// Starts the worker; the result says whether a thread has to be made for it.
    pub fn start_observer_worker(&mut self, listed: bool) -> (spawn: bool)
        ensures
            spawn == !old(self).alive(listed),
            *final(self) == (ObserverWorker { stop: false, running: true, tid: old(self).tid }),
    {
        let alive: bool = self.running && self.tid > 0 && listed;
        self.stop = false;
        self.running = true;
        !alive
    }

    /// Takes in whether the thread could be made.
    pub fn worker_spawned(&mut self, spawned: Result<i32, String>) -> (result: Result<(), String>)
        ensures
            result is Ok <==> spawned is Ok,
            spawned matches Ok(tid) ==> *final(self) == (ObserverWorker { tid, ..*old(self) }),
            spawned matches Err(error) ==> {
                &&& *final(self) == (ObserverWorker { stop: true, running: false, ..*old(self) })
                &&& result->Err_0@ == "failed to start process observer worker: "@ + error@
            },
    {
        match spawned {
            Ok(tid) => {
                self.tid = tid;
                Ok(())
            },
            Err(error) => {
                self.stop = true;
                self.running = false;
                Err(
                    crate::script::joined(
                        "failed to start process observer worker: ",
                        error.as_str(),
                    ),
                )
            },
        }
    }

    /// Tells the worker to stop; the result says whether it has to be waited for. A worker
    /// cannot wait for itself.
    pub fn stop_observer_worker(&mut self, own_tid: i32) -> (wait: bool)
        ensures
            wait == (old(self).tid > 0 && old(self).tid != own_tid),
            *final(self) == (ObserverWorker { stop: true, ..*old(self) }),
    {
        self.stop = true;
        self.tid > 0 && self.tid != own_tid
    }

    /// What to do while waiting for the worker to stop.
    pub fn poll_stop(&mut self, listed: bool, elapsed_millis: u64) -> (poll: StopPoll)
        ensures
            !old(self).alive(listed) ==> poll is Done && *final(self) == (ObserverWorker {
                running: false,
                tid: 0,
                ..*old(self)
            }),
            old(self).alive(listed) ==> {
                &&& *final(self) == *old(self)
                &&& if elapsed_millis >= OBSERVER_WORKER_STOP_TIMEOUT_MS {
                    poll matches StopPoll::TimedOut { message } && message@
                        == "process observer worker did not stop"@
                } else {
                    poll == (StopPoll::Rest { millis: 5 })
                }
            },
    {
        if self.running && self.tid > 0 && listed {
            if elapsed_millis >= OBSERVER_WORKER_STOP_TIMEOUT_MS {
                StopPoll::TimedOut {
                    message: String::from_str("process observer worker did not stop"),
                }
            } else {
                StopPoll::Rest { millis: 5 }
            }
        } else {
            self.tid = 0;
            self.running = false;
            StopPoll::Done
        }
    }

    /// Takes in that the worker's thread has left its loop.
    pub fn worker_ended(&mut self)
        ensures
            *final(self) == (ObserverWorker { running: false, tid: 0, ..*old(self) }),
    {
        self.tid = 0;
        self.running = false;
    }
}

/// What the worker does after an attempt to deliver events. An error is reported once, until
/// events have been delivered again.
pub fn observer_worker_step(outcome: Result<bool, String>, error_reported: &mut bool) -> (pause:
    WorkerPause)
    ensures
        match outcome {
            Ok(true) => !*final(error_reported) && pause.millis == 0 && pause.log is None,
            Ok(false) => *final(error_reported) == *old(error_reported) && pause.millis
                == OBSERVER_WORKER_POLL_MS && pause.log is None,
            Err(error) => {
                &&& *final(error_reported)
                &&& pause.millis == OBSERVER_WORKER_POLL_MS
                &&& optional_text(pause.log) == if *old(error_reported) {
                    None
                } else {
                    Some("[process observer] dispatch failed: "@ + error@ + "\n"@)
                }
            },
        },
{
    match outcome {
        Ok(true) => {
            *error_reported = false;
            WorkerPause { millis: 0, log: None }
        },
        Ok(false) => WorkerPause { millis: OBSERVER_WORKER_POLL_MS, log: None },
        Err(error) => {
            if *error_reported {
                WorkerPause { millis: OBSERVER_WORKER_POLL_MS, log: None }
            } else {
                *error_reported = true;
                let mut log: String = String::from_str("[process observer] dispatch failed: ");
                log.append(error.as_str());
                log.append("\n");
                WorkerPause { millis: OBSERVER_WORKER_POLL_MS, log: Some(log) }
            }
        },
    }
}

/// Whether the worker has to stop because nothing is watched.
pub fn stop_observer_worker_if_idle(
    modules: &Option<ModuleObserverSubscription>,
    threads: &Option<ThreadObserverSubscription>,
) -> (stop: bool)
    ensures
        stop == (*modules is None && *threads is None),
{
    modules.is_none() && threads.is_none()
}

/// What to do while waiting for the engine's callbacks to end.
pub fn wait_observer_callbacks(in_flight: usize, elapsed_millis: u64) -> (poll: StopPoll)
    ensures
        if in_flight == 0 {
            poll is Done
        } else if elapsed_millis >= OBSERVER_WORKER_STOP_TIMEOUT_MS {
            poll matches StopPoll::TimedOut { message } && message@
                == "process observer native callbacks did not drain"@
        } else {
            poll == (StopPoll::Rest { millis: 1 })
        },
{
    if in_flight == 0 {
        StopPoll::Done
    } else if elapsed_millis >= OBSERVER_WORKER_STOP_TIMEOUT_MS {
        StopPoll::TimedOut {
            message: String::from_str("process observer native callbacks did not drain"),
        }
    } else {
        StopPoll::Rest { millis: 1 }
    }
}

/// The modules that are listed are in the order of their addresses, and the list holds all
/// of which the engine says enough, and no others.
pub proof fn modules_are_listed_in_order(listed: Seq<EngineModule>, details: ModuleDetails)
    ensures
        crate::sorting::ascending(stable_sorted(all_details(listed))),
        stable_sorted(all_details(listed)).contains(details) <==> exists|i: int|
            0 <= i < listed.len() && details_of(#[trigger] listed[i]) == Some(details),
{
    broadcast use vstd::seq_lib::group_to_multiset_ensures;

    let all = all_details(listed);
    let sorted = stable_sorted(all);
    crate::sorting::stable_sorted_orders(all);
    lemma_all_details(listed, details);
    assert(sorted.contains(details) <==> sorted.to_multiset().count(details) > 0);
    assert(all.contains(details) <==> all.to_multiset().count(details) > 0);
}

proof fn lemma_all_details(listed: Seq<EngineModule>, details: ModuleDetails)
    ensures
        all_details(listed).contains(details) <==> exists|i: int|
            0 <= i < listed.len() && details_of(#[trigger] listed[i]) == Some(details),
    decreases listed.len(),
{
    if listed.len() > 0 {
        let front = listed.drop_last();
        lemma_all_details(front, details);
        let all = all_details(listed);
        let some = all_details(front);
        if all.contains(details) {
            let k = choose|k: int| 0 <= k < all.len() && all[k] == details;
            if k < some.len() {
                assert(some[k] == details);
                let i = choose|i: int|
                    0 <= i < front.len() && details_of(#[trigger] front[i]) == Some(details);
                assert(details_of(listed[i]) == Some(details));
            } else {
                assert(details_of(listed[listed.len() - 1]) == Some(details));
            }
        }
        if exists|i: int|
            0 <= i < listed.len() && details_of(#[trigger] listed[i]) == Some(details) {
            let i = choose|i: int|
                0 <= i < listed.len() && details_of(#[trigger] listed[i]) == Some(details);
            if i < front.len() {
                assert(details_of(front[i]) == Some(details));
                let k = choose|k: int| 0 <= k < some.len() && some[k] == details;
                assert(all[k] == details);
            } else {
                assert(all[some.len() as int] == details);
            }
        }
    }
}

/// Dependencies and states of threads go by their usual words.
pub proof fn words_are_those_of_the_engine()
    ensures
        dependency_word(DependencyType::Regular) == "regular"@,
        dependency_word(DependencyType::Weak) == "weak"@,
        dependency_word(DependencyType::Reexport) == "reexport"@,
        dependency_word(DependencyType::Upward) == "upward"@,
        thread_state_word(ThreadState::Running) == "running"@,
        thread_state_word(ThreadState::Stopped) == "stopped"@,
        thread_state_word(ThreadState::Waiting) == "waiting"@,
        thread_state_word(ThreadState::Uninterruptible) == "uninterruptible"@,
        thread_state_word(ThreadState::Halted) == "halted"@,
        thread_state_word(ThreadState::Other) == "unknown"@,
{
}

/// A module's details are what the engine says of it, and there are none unless it gives a
/// name, a path and a range.
pub proof fn modules_keep_their_details(module: EngineModule)
    ensures
        details_of(module) is Some <==> module.name is Some && module.path is Some
            && module.range is Some,
        details_of(module) matches Some(details) ==> {
            &&& Some(details.name) == module.name
            &&& Some(details.path) == module.path
            &&& details.version == module.version
            &&& details.base == module.range->0.base
            &&& details.size == module.range->0.size
        },
{
}

/// A module that was found is the one that is meant exactly if its base and its path are
/// those of the request.
pub proof fn modules_are_told_by_base_and_path(identity: ModuleIdentity, found: FoundModule)
    requires
        found.module.name is Some,
        found.module.path is Some,
        found.module.range is Some,
    ensures
        module_problem(identity, Some(found)) is None <==> found.module.range->0.base
            == identity.base && found.module.path->0@ == identity.path@,
        module_problem(identity, None) is Some,
{
}

/// Handlers that are disconnected are those of the subscription but for the missing ones, in
/// their order.
pub proof fn handlers_are_those_that_are_there(handlers: Seq<u64>)
    ensures
        live_handlers(handlers) == handlers.filter(|h: u64| h != 0),
    decreases handlers.len(),
{
    reveal(Seq::filter);
    if handlers.len() > 0 {
        handlers_are_those_that_are_there(handlers.drop_last());
    }
}

/// The modules of which the engine says enough are listed, and no others, in its order.
pub proof fn modules_are_listed_if_they_can_be(modules: Seq<EngineModule>, at: int)
    requires
        0 <= at < modules.filter(
            |m: EngineModule| m.name is Some && m.path is Some && m.range is Some,
        ).len(),
    ensures
        all_details(modules).len() == modules.filter(
            |m: EngineModule| m.name is Some && m.path is Some && m.range is Some,
        ).len(),
        Some(all_details(modules)[at].name) == modules.filter(
            |m: EngineModule| m.name is Some && m.path is Some && m.range is Some,
        )[at].name,
        all_details(modules)[at].base == modules.filter(
            |m: EngineModule| m.name is Some && m.path is Some && m.range is Some,
        )[at].range->0.base,
    decreases modules.len(),
{
    reveal(Seq::filter);
    lemma_details_are_as_many(modules);
    lemma_details_are_as_many(modules.drop_last());
    let keep = |m: EngineModule| m.name is Some && m.path is Some && m.range is Some;
    assert(modules.len() > 0);
    if at < modules.drop_last().filter(keep).len() {
        modules_are_listed_if_they_can_be(modules.drop_last(), at);
    }
}

proof fn lemma_details_are_as_many(modules: Seq<EngineModule>)
    ensures
        all_details(modules).len() == modules.filter(
            |m: EngineModule| m.name is Some && m.path is Some && m.range is Some,
        ).len(),
    decreases modules.len(),
{
    reveal(Seq::filter);
    if modules.len() > 0 {
        lemma_details_are_as_many(modules.drop_last());
    }
}

/// An address that the engine finds is its answer unless that is zero.
pub proof fn zero_is_no_address(address: u64)
    ensures
        found_address(address) is None <==> address == 0,
        address != 0 ==> found_address(address) == Some(address),
{
}

/// Modules and threads can be watched if the registry is there and gives all its handlers,
/// or if they are watched already. Handlers that it gave are given back otherwise.
pub proof fn watching_needs_all_handlers(
    modules: Option<ModuleObserverSubscription>,
    answer: ModuleRegistryAnswer,
    threads: Option<ThreadObserverSubscription>,
    reply: ThreadRegistryAnswer,
)
    ensures
        module_watch_problem(modules, answer) is None <==> modules is Some || (answer.registry != 0
            && answer.added_handler != 0 && answer.removed_handler != 0),
        thread_watch_problem(threads, reply) is None <==> threads is Some || (reply.registry != 0
            && reply.added_handler != 0 && reply.removed_handler != 0 && reply.renamed_handler
            != 0),
        module_watch_problem(modules, answer) matches Some(problem) ==> problem.1 == if
            answer.registry == 0 {
            Seq::empty()
        } else {
            seq![answer.added_handler, answer.removed_handler].filter(|h: u64| h != 0)
        },
        thread_watch_problem(threads, reply) matches Some(problem) ==> problem.1 == if
            reply.registry == 0 {
            Seq::empty()
        } else {
            seq![reply.added_handler, reply.removed_handler, reply.renamed_handler].filter(
                |h: u64| h != 0,
            )
        },
{
    handlers_are_those_that_are_there(seq![answer.added_handler, answer.removed_handler]);
    handlers_are_those_that_are_there(
        seq![reply.added_handler, reply.removed_handler, reply.renamed_handler],
    );
}

/// The details of a thread are its number, its name and the word for its state; all threads
/// are described, each in its place.
pub proof fn threads_keep_their_details(
    list: Seq<ProcessThreadDetails>,
    threads: Seq<EngineThread>,
    at: int,
)
    requires
        describes_threads(list, threads),
        0 <= at < threads.len(),
    ensures
        list.len() == threads.len(),
        list[at].id == threads[at].id,
        list[at].name == threads[at].name,
        list[at].state@ == thread_state_word(threads[at].state),
{
    assert(describes_thread(list[at], threads[at]));
}

/// A worker is alive if it runs, has a thread, and the process lists that.
pub proof fn workers_are_alive_if_they_are_listed(worker: ObserverWorker, listed: bool)
    ensures
        worker.alive(listed) <==> worker.running && worker.tid > 0 && listed,
        !listed ==> !worker.alive(listed),
{
}

} // verus!
