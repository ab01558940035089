//! Telling scripts of modules and threads that come and go.

use crate::keyed::{
    collect, collected, collecting_keeps_the_keys, copy_keyed_in, copy_keyed_out, find_key,
    has_key, holds_key, keyed_in, keyed_out, lemma_last_key, lemma_split_keys, place, placed,
    placing_adds_one_key, position, remove_key, removing_takes_one_key, unique_keys, without_key,
    complete, completed, completing_adds_the_keys, Key, Keyed,
};
use crate::modules::{
    ModuleDetails, ModuleObserverEvent, ProcessThreadDetails, ThreadObserverEvent,
};
use crate::script::{internal_error, joined, type_error, ErrorKind, ScriptError};
use crate::sorting::{stable_sort, stable_sorted, SortKey};
use crate::text::{optional_text, same_text};
use std::collections::VecDeque;
use vstd::prelude::*;
use vstd::string::*;

verus! {

/// The most events that wait for delivery; older ones give way.
pub const PROCESS_OBSERVER_QUEUE_CAPACITY: usize = 4096;

/// How much time lies between two comparisons with the process, in nanoseconds.
pub const PROCESS_OBSERVER_RECONCILE_INTERVAL: u64 = 50_000_000;

/// A script function, as the bytes of its value.
pub type Callback = [u8; 16];

/// A module and the form of its path that identifies it.
#[derive(Debug, PartialEq, Eq)]
pub struct ObservedModule {
    pub identity_path: String,
    pub details: ModuleDetails,
}

impl Keyed for ObservedModule {
    open spec fn identity(&self) -> Key {
        (self.identity_path@, self.details.base)
    }

    fn same_key(&self, other: &Self) -> (same: bool) {
        self.details.base == other.details.base && same_text(
            self.identity_path.as_str(),
            other.identity_path.as_str(),
        )
    }

    fn copy(&self) -> (copy: Self) {
        ObservedModule {
            identity_path: self.identity_path.clone(),
            details: self.details.copy_details(),
        }
    }
}

impl SortKey for ObservedModule {
    open spec fn sort_key(&self) -> u64 {
        self.details.base
    }

    fn key(&self) -> (key: u64) {
        self.details.base
    }
}

impl Keyed for ProcessThreadDetails {
    open spec fn identity(&self) -> Key {
        (seq![], self.id)
    }

    fn same_key(&self, other: &Self) -> (same: bool) {
        self.id == other.id
    }

    fn copy(&self) -> (copy: Self) {
        self.copy_details()
    }
}

/// A module that has come or gone.
#[derive(Debug, PartialEq, Eq)]
pub enum ModuleChange {
    Added(ObservedModule),
    Removed(ObservedModule),
}

/// The change that an event of the engine stands for.
pub fn module_change(event: ModuleObserverEvent, identity_path: String) -> (change: ModuleChange)
    ensures
        change == match event {
            ModuleObserverEvent::Added(details) => ModuleChange::Added(
                ObservedModule { identity_path, details },
            ),
            ModuleObserverEvent::Removed(details) => ModuleChange::Removed(
                ObservedModule { identity_path, details },
            ),
        },
{
    match event {
        ModuleObserverEvent::Added(details) => ModuleChange::Added(
            ObservedModule { identity_path, details },
        ),
        ModuleObserverEvent::Removed(details) => ModuleChange::Removed(
            ObservedModule { identity_path, details },
        ),
    }
}

/// An event that waits for delivery.
#[derive(Debug, PartialEq, Eq)]
pub enum QueuedProcessObserverEvent {
    Module(ModuleObserverEvent),
    Thread(ThreadObserverEvent),
}

/// A script that watches modules, and the modules that it knows of.
#[derive(Debug)]
pub struct ModuleObserver {
    pub id: u32,
    pub on_added: Option<Callback>,
    pub on_removed: Option<Callback>,
    pub known: Vec<ObservedModule>,
}

/// A script that watches threads, and the threads that it knows of.
#[derive(Debug)]
pub struct ThreadObserver {
    pub id: u32,
    pub on_added: Option<Callback>,
    pub on_removed: Option<Callback>,
    pub on_renamed: Option<Callback>,
    pub known: Vec<ProcessThreadDetails>,
}

/// What a contract says of a script that watches modules.
pub ghost struct ModuleObserverView {
    pub id: u32,
    pub on_added: Option<Callback>,
    pub on_removed: Option<Callback>,
    pub known: Seq<ObservedModule>,
}

/// What a contract says of a script that watches threads.
pub ghost struct ThreadObserverView {
    pub id: u32,
    pub on_added: Option<Callback>,
    pub on_removed: Option<Callback>,
    pub on_renamed: Option<Callback>,
    pub known: Seq<ProcessThreadDetails>,
}

impl ModuleObserver {
    pub open spec fn view(&self) -> ModuleObserverView {
        ModuleObserverView {
            id: self.id,
            on_added: self.on_added,
            on_removed: self.on_removed,
            known: self.known@,
        }
    }
}

impl ThreadObserver {
    pub open spec fn view(&self) -> ThreadObserverView {
        ThreadObserverView {
            id: self.id,
            on_added: self.on_added,
            on_removed: self.on_removed,
            on_renamed: self.on_renamed,
            known: self.known@,
        }
    }
}

/// A script that watches modules after a change.
pub open spec fn after_module_change(
    observer: ModuleObserverView,
    change: ModuleChange,
) -> ModuleObserverView {
    match change {
        ModuleChange::Added(module) => if has_key(observer.known, module.identity()) {
            observer
        } else {
            ModuleObserverView { known: observer.known.push(module), ..observer }
        },
        ModuleChange::Removed(module) => ModuleObserverView {
            known: without_key(observer.known, module.identity()),
            ..observer
        },
    }
}

/// The function that a script that watches modules is called by for a change: one for a
/// module that it did not know of, another for one that it did.
pub open spec fn called_for_module(observer: ModuleObserverView, change: ModuleChange) -> Option<
    Callback,
> {
    match change {
        ModuleChange::Added(module) => if has_key(observer.known, module.identity()) {
            None
        } else {
            observer.on_added
        },
        ModuleChange::Removed(module) => if has_key(observer.known, module.identity()) {
            observer.on_removed
        } else {
            None
        },
    }
}

/// Whether two descriptions of a thread differ in its name.
pub open spec fn names_differ(left: ProcessThreadDetails, right: ProcessThreadDetails) -> bool {
    optional_text(left.name) != optional_text(right.name)
}

/// A script that watches threads after an event.
pub open spec fn after_thread_event(
    observer: ThreadObserverView,
    event: ThreadObserverEvent,
) -> ThreadObserverView {
    match event {
        ThreadObserverEvent::Added(thread) => if has_key(observer.known, thread.identity()) {
            observer
        } else {
            ThreadObserverView { known: observer.known.push(thread), ..observer }
        },
        ThreadObserverEvent::Removed(thread) => ThreadObserverView {
            known: without_key(observer.known, thread.identity()),
            ..observer
        },
        ThreadObserverEvent::Renamed { thread, .. } => ThreadObserverView {
            known: placed(observer.known, thread),
            ..observer
        },
    }
}

/// The function that a script that watches threads is called by for an event. It is called
/// for a new name only if it knew of the thread under another one.
pub open spec fn called_for_thread(observer: ThreadObserverView, event: ThreadObserverEvent) -> Option<
    Callback,
> {
    match event {
        ThreadObserverEvent::Added(thread) => if has_key(observer.known, thread.identity()) {
            None
        } else {
            observer.on_added
        },
        ThreadObserverEvent::Removed(thread) => if has_key(observer.known, thread.identity()) {
            observer.on_removed
        } else {
            None
        },
        ThreadObserverEvent::Renamed { thread, .. } => if has_key(observer.known, thread.identity())
            && names_differ(observer.known[position(observer.known, thread.identity())], thread) {
            observer.on_renamed
        } else {
            None
        },
    }
}

/// The functions that scripts are called by for a change, in the order of the scripts.
pub open spec fn module_calls(observers: Seq<ModuleObserverView>, change: ModuleChange) -> Seq<
    Callback,
>
    decreases observers.len(),
{
    if observers.len() == 0 {
        seq![]
    } else {
        match called_for_module(observers.last(), change) {
            Some(callback) => module_calls(observers.drop_last(), change).push(callback),
            None => module_calls(observers.drop_last(), change),
        }
    }
}

/// The functions that scripts are called by for an event, in the order of the scripts.
pub open spec fn thread_calls(
    observers: Seq<ThreadObserverView>,
    event: ThreadObserverEvent,
) -> Seq<Callback>
    decreases observers.len(),
{
    if observers.len() == 0 {
        seq![]
    } else {
        match called_for_thread(observers.last(), event) {
            Some(callback) => thread_calls(observers.drop_last(), event).push(callback),
            None => thread_calls(observers.drop_last(), event),
        }
    }
}

fn same_name(left: &Option<String>, right: &Option<String>) -> (same: bool)
    ensures
        same == (optional_text(*left) == optional_text(*right)),
{
    match (left, right) {
        (Some(left), Some(right)) => same_text(left.as_str(), right.as_str()),
        (None, None) => true,
        _ => false,
    }
}

impl ModuleObserver {
    /// Takes in a change. The result is the function to call for it.
    fn take_in(&mut self, change: &ModuleChange) -> (call: Option<Callback>)
        requires
            unique_keys(old(self).known@),
        ensures
            final(self)@ == after_module_change(old(self)@, *change),
            call == called_for_module(old(self)@, *change),
            unique_keys(final(self).known@),
    {
        match change {
            ModuleChange::Added(module) => {
                if holds_key(&self.known, module) {
                    None
                } else {
                    let copy: ObservedModule = module.copy();
                    place(&mut self.known, copy);
                    self.on_added
                }
            },
            ModuleChange::Removed(module) => {
                if remove_key(&mut self.known, module) {
                    self.on_removed
                } else {
                    None
                }
            },
        }
    }
}

impl ThreadObserver {
    /// Takes in an event. The result is the function to call for it.
    fn take_in(&mut self, event: &ThreadObserverEvent) -> (call: Option<Callback>)
        requires
            unique_keys(old(self).known@),
        ensures
            final(self)@ == after_thread_event(old(self)@, *event),
            call == called_for_thread(old(self)@, *event),
            unique_keys(final(self).known@),
    {
        match event {
            ThreadObserverEvent::Added(thread) => {
                if holds_key(&self.known, thread) {
                    None
                } else {
                    let copy: ProcessThreadDetails = thread.copy();
                    place(&mut self.known, copy);
                    self.on_added
                }
            },
            ThreadObserverEvent::Removed(thread) => {
                if remove_key(&mut self.known, thread) {
                    self.on_removed
                } else {
                    None
                }
            },
            ThreadObserverEvent::Renamed { thread, previous_name: _ } => {
                let renamed: bool = match find_key(&self.known, thread) {
                    Some(i) => !same_name(&self.known[i].name, &thread.name),
                    None => false,
                };
                let copy: ProcessThreadDetails = thread.copy();
                place(&mut self.known, copy);
                if renamed {
                    self.on_renamed
                } else {
                    None
                }
            },
        }
    }
}

/// All scripts that watch modules and threads, and the events that wait for them.
#[derive(Debug)]
pub struct ProcessObserverState {
    pub next_id: u32,
    pub module_accepting: bool,
    pub thread_accepting: bool,
    pub module_observers: Vec<ModuleObserver>,
    pub thread_observers: Vec<ThreadObserver>,
    pub events: VecDeque<QueuedProcessObserverEvent>,
    pub reconciling: bool,
    /// On a clock that never falls, in nanoseconds.
    pub last_reconcile: Option<u64>,
}

/// The views of scripts that watch modules.
pub open spec fn module_views(observers: Seq<ModuleObserver>) -> Seq<ModuleObserverView> {
    Seq::new(observers.len(), |i: int| observers[i]@)
}

/// The views of scripts that watch threads.
pub open spec fn thread_views(observers: Seq<ThreadObserver>) -> Seq<ThreadObserverView> {
    Seq::new(observers.len(), |i: int| observers[i]@)
}

/// Whether every script that watches modules knows each module once.
pub open spec fn modules_known_once(observers: Seq<ModuleObserverView>) -> bool {
    forall|i: int| 0 <= i < observers.len() ==> unique_keys((#[trigger] observers[i]).known)
}

/// Whether every script that watches threads knows each thread once.
pub open spec fn threads_known_once(observers: Seq<ThreadObserverView>) -> bool {
    forall|i: int| 0 <= i < observers.len() ==> unique_keys((#[trigger] observers[i]).known)
}

/// Whether a number is that of a script that watches modules.
pub open spec fn module_id_used(observers: Seq<ModuleObserverView>, id: u32) -> bool {
    exists|i: int| 0 <= i < observers.len() && (#[trigger] observers[i]).id == id
}

/// Whether a number is that of a script that watches threads.
pub open spec fn thread_id_used(observers: Seq<ThreadObserverView>, id: u32) -> bool {
    exists|i: int| 0 <= i < observers.len() && (#[trigger] observers[i]).id == id
}

/// Whether a waiting event is of the given sort.
pub open spec fn is_module_event(event: QueuedProcessObserverEvent) -> bool {
    event is Module
}

/// The waiting events of one sort, in their order.
pub open spec fn events_of_sort(events: Seq<QueuedProcessObserverEvent>, modules: bool) -> Seq<
    QueuedProcessObserverEvent,
>
    decreases events.len(),
{
    if events.len() == 0 {
        seq![]
    } else if is_module_event(events.last()) == modules {
        events_of_sort(events.drop_last(), modules).push(events.last())
    } else {
        events_of_sort(events.drop_last(), modules)
    }
}

/// The waiting events and one more; the oldest gives way if there is no room.
pub open spec fn queued(
    events: Seq<QueuedProcessObserverEvent>,
    event: QueuedProcessObserverEvent,
) -> Seq<QueuedProcessObserverEvent> {
    if events.len() == PROCESS_OBSERVER_QUEUE_CAPACITY {
        events.drop_first().push(event)
    } else {
        events.push(event)
    }
}

/// The number that comes `steps` behind `id`; zero is left out.
pub open spec fn id_after(id: u32, steps: nat) -> u32 {
    ((id - 1 + steps) % 0xffff_ffff + 1) as u32
}

impl ProcessObserverState {
    pub open spec fn modules(&self) -> Seq<ModuleObserverView> {
        module_views(self.module_observers@)
    }

    pub open spec fn threads(&self) -> Seq<ThreadObserverView> {
        thread_views(self.thread_observers@)
    }

    pub open spec fn wf(&self) -> bool {
        &&& self.next_id >= 1
        &&& modules_known_once(self.modules())
        &&& threads_known_once(self.threads())
        &&& forall|i: int, j: int|
            #![trigger self.module_observers@[i], self.module_observers@[j]]
            0 <= i < j < self.module_observers@.len() ==> self.module_observers@[i].id
                != self.module_observers@[j].id
        &&& forall|i: int, j: int|
            #![trigger self.thread_observers@[i], self.thread_observers@[j]]
            0 <= i < j < self.thread_observers@.len() ==> self.thread_observers@[i].id
                != self.thread_observers@[j].id
        &&& self.events@.len() <= PROCESS_OBSERVER_QUEUE_CAPACITY
    }

    /// Whether a number belongs to some script.
    pub open spec fn id_used(&self, id: u32) -> bool {
        module_id_used(self.modules(), id) || thread_id_used(self.threads(), id)
    }

    /// Whether the comparison with the process is due.
    pub open spec fn due(&self, now: u64) -> bool {
        match self.last_reconcile {
            Some(last) => now - last >= PROCESS_OBSERVER_RECONCILE_INTERVAL,
            None => true,
        }
    }

    /// Whether some script watches.
    pub open spec fn watched(&self) -> bool {
        self.module_observers@.len() > 0 || self.thread_observers@.len() > 0
    }
}

impl Default for ProcessObserverState {
    fn default() -> (state: ProcessObserverState)
        ensures
            state.wf(),
            state.next_id == 1,
            !state.module_accepting,
            !state.thread_accepting,
            !state.watched(),
            state.events@.len() == 0,
            !state.reconciling,
            state.last_reconcile is None,
    {
        ProcessObserverState {
            next_id: 1,
            module_accepting: false,
            thread_accepting: false,
            module_observers: Vec::new(),
            thread_observers: Vec::new(),
            events: VecDeque::new(),
            reconciling: false,
            last_reconcile: None,
        }
    }
}

fn enqueue(events: &mut VecDeque<QueuedProcessObserverEvent>, event: QueuedProcessObserverEvent)
    requires
        old(events)@.len() <= PROCESS_OBSERVER_QUEUE_CAPACITY,
    ensures
        final(events)@ == queued(old(events)@, event),
        final(events)@.len() <= PROCESS_OBSERVER_QUEUE_CAPACITY,
{
    let ghost before = events@;
    if events.len() == PROCESS_OBSERVER_QUEUE_CAPACITY {
        let _ = events.pop_front();
        assert(events@ =~= before.drop_first());
    }
    events.push_back(event);
}

fn keep_sort(events: &mut VecDeque<QueuedProcessObserverEvent>, modules: bool)
    ensures
        final(events)@ == events_of_sort(old(events)@, modules),
        final(events)@.len() <= old(events)@.len(),
{
    let ghost all = events@;
    let mut kept: VecDeque<QueuedProcessObserverEvent> = VecDeque::new();
    let total: usize = events.len();
    let mut done: usize = 0;
    assert(all.take(0) =~= seq![]);
    assert(all.skip(0) =~= all);
    while done < total
        invariant
            done <= total,
            total == all.len(),
            events@ == all.skip(done as int),
            kept@ == events_of_sort(all.take(done as int), modules),
            kept@.len() <= done,
        decreases total - done,
    {
        assert(all.take(done + 1).drop_last() =~= all.take(done as int));
        assert(all.skip(done as int)[0] == all[done as int]);
        match events.pop_front() {
            Some(event) => {
                assert(event == all[done as int]);
                let wanted: bool = match &event {
                    QueuedProcessObserverEvent::Module(_) => modules,
                    QueuedProcessObserverEvent::Thread(_) => !modules,
                };
                if wanted {
                    kept.push_back(event);
                }
            },
            None => {},
        }
        done = done + 1;
        assert(events@ =~= all.skip(done as int));
    }
    assert(all.take(total as int) =~= all);
    core::mem::swap(events, &mut kept);
}

/// Takes in an event about a module, if modules are watched.
pub fn queue_module_observer_event(state: &mut ProcessObserverState, event: ModuleObserverEvent)
    requires
        old(state).wf(),
    ensures
        final(state).wf(),
        final(state).events@ == if old(state).module_accepting {
            queued(old(state).events@, QueuedProcessObserverEvent::Module(event))
        } else {
            old(state).events@
        },
        *final(state) == (ProcessObserverState { events: final(state).events, ..*old(state) }),
{
    if !state.module_accepting {
        return;
    }
    enqueue(&mut state.events, QueuedProcessObserverEvent::Module(event));
}

/// Takes in an event about a thread, if threads are watched.
pub fn queue_thread_observer_event(state: &mut ProcessObserverState, event: ThreadObserverEvent)
    requires
        old(state).wf(),
    ensures
        final(state).wf(),
        final(state).events@ == if old(state).thread_accepting {
            queued(old(state).events@, QueuedProcessObserverEvent::Thread(event))
        } else {
            old(state).events@
        },
        *final(state) == (ProcessObserverState { events: final(state).events, ..*old(state) }),
{
    if !state.thread_accepting {
        return;
    }
    enqueue(&mut state.events, QueuedProcessObserverEvent::Thread(event));
}

/// The numbers of scripts that watch modules.
pub open spec fn module_ids(observers: Seq<ModuleObserverView>) -> Set<u32> {
    Seq::new(observers.len(), |i: int| observers[i].id).to_set()
}

/// The numbers of scripts that watch threads.
pub open spec fn thread_ids(observers: Seq<ThreadObserverView>) -> Set<u32> {
    Seq::new(observers.len(), |i: int| observers[i].id).to_set()
}

proof fn lemma_ids(state: ProcessObserverState)
    ensures
        module_ids(state.modules()).union(thread_ids(state.threads())).finite(),
        module_ids(state.modules()).union(thread_ids(state.threads())).len()
            <= state.module_observers@.len() + state.thread_observers@.len(),
        forall|id: u32| #[trigger]
            module_ids(state.modules()).union(thread_ids(state.threads())).contains(id)
                <==> state.id_used(id),
{
    let left = Seq::new(state.modules().len(), |i: int| state.modules()[i].id);
    let right = Seq::new(state.threads().len(), |i: int| state.threads()[i].id);
    left.lemma_cardinality_of_set();
    right.lemma_cardinality_of_set();
    vstd::seq_lib::seq_to_set_is_finite(left);
    vstd::seq_lib::seq_to_set_is_finite(right);
    vstd::set_lib::lemma_set_union_finite_iff(left.to_set(), right.to_set());
    vstd::set_lib::lemma_len_union(left.to_set(), right.to_set());
    assert forall|id: u32| #[trigger]
        module_ids(state.modules()).union(thread_ids(state.threads())).contains(id)
            <==> state.id_used(id) by {
        if left.to_set().contains(id) {
            let i = choose|i: int| 0 <= i < left.len() && left[i] == id;
            assert(state.modules()[i].id == id);
        }
        if right.to_set().contains(id) {
            let i = choose|i: int| 0 <= i < right.len() && right[i] == id;
            assert(state.threads()[i].id == id);
        }
        if module_id_used(state.modules(), id) {
            let i = choose|i: int|
                0 <= i < state.modules().len() && (#[trigger] state.modules()[i]).id == id;
            assert(left[i] == id);
        }
        if thread_id_used(state.threads(), id) {
            let i = choose|i: int|
                0 <= i < state.threads().len() && (#[trigger] state.threads()[i]).id == id;
            assert(right[i] == id);
        }
    }
}

proof fn lemma_id_after(id: u32, steps: nat)
    requires
        id >= 1,
    ensures
        id_after(id, 0) == id,
        id_after(id, steps) >= 1,
        id_after(id, steps + 1) == if id_after(id, steps) == u32::MAX {
            1
        } else {
            (id_after(id, steps) + 1) as u32
        },
{
    let m: int = 0xffff_ffff;
    let a = id - 1 + steps;
    vstd::arithmetic::div_mod::lemma_mod_bound(a, m);
    vstd::arithmetic::div_mod::lemma_small_mod((id - 1) as nat, m as nat);
    vstd::arithmetic::div_mod::lemma_add_mod_noop(a, 1, m);
    vstd::arithmetic::div_mod::lemma_small_mod(1, m as nat);
    assert((a + 1) % m == (a % m + 1) % m);
    if a % m == m - 1 {
        vstd::arithmetic::div_mod::lemma_mod_self_0(m);
    } else {
        vstd::arithmetic::div_mod::lemma_small_mod((a % m + 1) as nat, m as nat);
    }
    assert(id - 1 + (steps + 1) == a + 1);
}

proof fn lemma_ids_differ(id: u32, left: nat, right: nat)
    requires
        id >= 1,
        left < right < left + 0xffff_ffff,
    ensures
        id_after(id, left) != id_after(id, right),
{
    let m: int = 0xffff_ffff;
    let a = id - 1 + left;
    let b = id - 1 + right;
    if a % m == b % m {
        vstd::arithmetic::div_mod::lemma_sub_mod_noop(b, a, m);
        vstd::arithmetic::div_mod::lemma_small_mod(0, m as nat);
        assert((b - a) % m == 0);
        vstd::arithmetic::div_mod::lemma_small_mod((b - a) as nat, m as nat);
        assert(false);
    }
    vstd::arithmetic::div_mod::lemma_mod_bound(a, m);
    vstd::arithmetic::div_mod::lemma_mod_bound(b, m);
}

fn module_id_in_use(observers: &Vec<ModuleObserver>, id: u32) -> (used: bool)
    ensures
        used == module_id_used(module_views(observers@), id),
{
    let mut i: usize = 0;
    while i < observers.len()
        invariant
            i <= observers@.len(),
            forall|k: int|
                0 <= k < i ==> (#[trigger] module_views(observers@)[k]).id != id,
        decreases observers@.len() - i,
    {
        if observers[i].id == id {
            assert(module_views(observers@)[i as int].id == id);
            return true;
        }
        i = i + 1;
    }
    false
}

fn thread_id_in_use(observers: &Vec<ThreadObserver>, id: u32) -> (used: bool)
    ensures
        used == thread_id_used(thread_views(observers@), id),
{
    let mut i: usize = 0;
    while i < observers.len()
        invariant
            i <= observers@.len(),
            forall|k: int|
                0 <= k < i ==> (#[trigger] thread_views(observers@)[k]).id != id,
        decreases observers@.len() - i,
    {
        if observers[i].id == id {
            assert(thread_views(observers@)[i as int].id == id);
            return true;
        }
        i = i + 1;
    }
    false
}

/// Whether `id` is the first free number from `next_id` on, `steps` behind it.
pub open spec fn first_free(state: ProcessObserverState, id: u32, steps: nat) -> bool {
    &&& id == id_after(state.next_id, steps)
    &&& !state.id_used(id)
    &&& forall|k: nat| k < steps ==> state.id_used(#[trigger] id_after(state.next_id, k))
}

/// A number for a new script: the first free one.
pub fn allocate_observer_id(state: &mut ProcessObserverState) -> (id: u32)
    requires
        old(state).wf(),
        old(state).module_observers@.len() + old(state).thread_observers@.len() < u32::MAX,
    ensures
        final(state).wf(),
        id >= 1,
        exists|steps: nat| #[trigger]
            first_free(*old(state), id, steps) && final(state).next_id == id_after(
                old(state).next_id,
                steps + 1,
            ),
        *final(state) == (ProcessObserverState { next_id: final(state).next_id, ..*old(state) }),
{
    let ghost start = state.next_id;
    let ghost used = module_ids(state.modules()).union(thread_ids(state.threads()));
    let ghost tried = Set::<u32>::empty();
    let ghost mut steps: nat = 0;
    proof {
        lemma_ids(*state);
        lemma_id_after(start, 0);
    }
    let mut id: u32 = state.next_id;
    loop
        invariant_except_break
            state.next_id == id_after(start, steps),
        invariant
            old(state).wf(),
            state.wf(),
            start == old(state).next_id,
            start >= 1,
            *state == (ProcessObserverState { next_id: state.next_id, ..*old(state) }),
            used.finite(),
            used.len() <= state.module_observers@.len() + state.thread_observers@.len(),
            state.module_observers@.len() + state.thread_observers@.len() < u32::MAX,
            forall|id: u32| #[trigger] used.contains(id) <==> old(state).id_used(id),
            tried.finite(),
            tried.len() == steps,
            tried.subset_of(used),
            steps <= used.len(),
            forall|k: nat| k < steps ==> old(state).id_used(#[trigger] id_after(start, k)),
            forall|t: u32| #[trigger] tried.contains(t) ==> exists|k: nat|
                k < steps && t == #[trigger] id_after(start, k),
            state.next_id >= 1,
        ensures
            state.wf(),
            id >= 1,
            first_free(*old(state), id, steps),
            state.next_id == id_after(start, steps + 1),
            *state == (ProcessObserverState { next_id: state.next_id, ..*old(state) }),
        decreases used.len() - steps,
    {
        proof {
            lemma_id_after(start, steps);
            lemma_id_after(start, steps + 1);
        }
        id = state.next_id;
        let next: u32 = state.next_id.wrapping_add(1);
        state.next_id = if next == 0 {
            1
        } else {
            next
        };
        assert(state.modules() == old(state).modules());
        assert(state.threads() == old(state).threads());
        if !module_id_in_use(&state.module_observers, id) && !thread_id_in_use(
            &state.thread_observers,
            id,
        ) {
            break;
        }
        proof {
            assert(used.contains(id));
            if tried.contains(id) {
                let k = choose|k: nat| k < steps && id == #[trigger] id_after(start, k);
                lemma_ids_differ(start, k, steps);
            }
            let before = tried;
            tried = tried.insert(id);
            assert forall|t: u32| #[trigger] tried.contains(t) implies exists|k: nat|
                k < steps + 1 && t == #[trigger] id_after(start, k) by {
                if t != id {
                    assert(before.contains(t));
                    let k = choose|k: nat| k < steps && t == #[trigger] id_after(start, k);
                    assert(k < steps + 1 && t == id_after(start, k));
                } else {
                    assert(steps < steps + 1 && t == id_after(start, steps));
                }
            }
            vstd::set_lib::lemma_len_subset(tried, used);
            steps = steps + 1;
        }
    }
    id
}

/// The scripts that watch modules, after a change.
pub open spec fn all_after_module_change(
    observers: Seq<ModuleObserverView>,
    change: ModuleChange,
) -> Seq<ModuleObserverView> {
    Seq::new(observers.len(), |i: int| after_module_change(observers[i], change))
}

/// The scripts that watch threads, after an event.
pub open spec fn all_after_thread_event(
    observers: Seq<ThreadObserverView>,
    event: ThreadObserverEvent,
) -> Seq<ThreadObserverView> {
    Seq::new(observers.len(), |i: int| after_thread_event(observers[i], event))
}

/// Tells all scripts that watch modules of a change. The result holds the functions to call.
pub fn dispatch_module_event(state: &mut ProcessObserverState, change: &ModuleChange) -> (calls: Vec<
    Callback,
>)
    requires
        old(state).wf(),
    ensures
        final(state).wf(),
        final(state).modules() == all_after_module_change(old(state).modules(), *change),
        calls@ == module_calls(old(state).modules(), *change),
        *final(state) == (ProcessObserverState {
            module_observers: final(state).module_observers,
            ..*old(state)
        }),
{
    let mut calls: Vec<Callback> = Vec::new();
    let ghost before = state.modules();
    let mut i: usize = 0;
    assert(before.take(0) =~= seq![]);
    assert forall|k: int| 0 <= k < before.len() implies unique_keys(
        (#[trigger] state.module_observers@[k]).known@,
    ) by {
        assert(unique_keys(before[k].known));
    }
    while i < state.module_observers.len()
        invariant
            i <= state.module_observers@.len(),
            state.module_observers@.len() == before.len(),
            old(state).wf(),
            before == old(state).modules(),
            *state == (ProcessObserverState {
                module_observers: state.module_observers,
                ..*old(state)
            }),
            forall|k: int|
                0 <= k < i ==> (#[trigger] state.module_observers@[k])@ == after_module_change(
                    before[k],
                    *change,
                ),
            forall|k: int|
                i <= k < before.len() ==> (#[trigger] state.module_observers@[k])@ == before[k],
            forall|k: int|
                0 <= k < before.len() ==> unique_keys((#[trigger] state.module_observers@[k]).known@),
            forall|k: int|
                0 <= k < before.len() ==> (#[trigger] state.module_observers@[k]).id
                    == old(state).module_observers@[k].id,
            calls@ == module_calls(before.take(i as int), *change),
        decreases before.len() - i,
    {
        assert(before.take(i + 1).drop_last() =~= before.take(i as int));
        assert(state.module_observers@[i as int]@ == before[i as int]);
        match state.module_observers[i].take_in(change) {
            Some(callback) => {
                calls.push(callback);
            },
            None => {},
        }
        i = i + 1;
    }
    assert(before.take(before.len() as int) =~= before);
    assert(state.modules() =~= all_after_module_change(before, *change));
    assert(modules_known_once(state.modules()));
    assert(forall|i: int, j: int|
        #![trigger state.module_observers@[i], state.module_observers@[j]]
        0 <= i < j < state.module_observers@.len() ==> old(state).module_observers@[i].id != old(
            state,
        ).module_observers@[j].id);
    calls
}

/// Tells all scripts that watch threads of an event. The result holds the functions to call.
pub fn dispatch_thread_event(state: &mut ProcessObserverState, event: &ThreadObserverEvent) -> (calls:
    Vec<Callback>)
    requires
        old(state).wf(),
    ensures
        final(state).wf(),
        final(state).threads() == all_after_thread_event(old(state).threads(), *event),
        calls@ == thread_calls(old(state).threads(), *event),
        *final(state) == (ProcessObserverState {
            thread_observers: final(state).thread_observers,
            ..*old(state)
        }),
{
    let mut calls: Vec<Callback> = Vec::new();
    let ghost before = state.threads();
    let mut i: usize = 0;
    assert(before.take(0) =~= seq![]);
    assert forall|k: int| 0 <= k < before.len() implies unique_keys(
        (#[trigger] state.thread_observers@[k]).known@,
    ) by {
        assert(unique_keys(before[k].known));
    }
    while i < state.thread_observers.len()
        invariant
            i <= state.thread_observers@.len(),
            state.thread_observers@.len() == before.len(),
            old(state).wf(),
            before == old(state).threads(),
            *state == (ProcessObserverState {
                thread_observers: state.thread_observers,
                ..*old(state)
            }),
            forall|k: int|
                0 <= k < i ==> (#[trigger] state.thread_observers@[k])@ == after_thread_event(
                    before[k],
                    *event,
                ),
            forall|k: int|
                i <= k < before.len() ==> (#[trigger] state.thread_observers@[k])@ == before[k],
            forall|k: int|
                0 <= k < before.len() ==> unique_keys((#[trigger] state.thread_observers@[k]).known@),
            forall|k: int|
                0 <= k < before.len() ==> (#[trigger] state.thread_observers@[k]).id
                    == old(state).thread_observers@[k].id,
            calls@ == thread_calls(before.take(i as int), *event),
        decreases before.len() - i,
    {
        assert(before.take(i + 1).drop_last() =~= before.take(i as int));
        assert(state.thread_observers@[i as int]@ == before[i as int]);
        match state.thread_observers[i].take_in(event) {
            Some(callback) => {
                calls.push(callback);
            },
            None => {},
        }
        i = i + 1;
    }
    assert(before.take(before.len() as int) =~= before);
    assert(state.threads() =~= all_after_thread_event(before, *event));
    assert(threads_known_once(state.threads()));
    assert(forall|i: int, j: int|
        #![trigger state.thread_observers@[i], state.thread_observers@[j]]
        0 <= i < j < state.thread_observers@.len() ==> old(state).thread_observers@[i].id != old(
            state,
        ).thread_observers@[j].id);
    calls
}

/// What an observer is given for a callback.
#[derive(Clone, Copy, Debug)]
pub enum CallbackArgument {
    /// Undefined or null.
    Absent,
    Function(Callback),
    /// Any other value.
    Other,
}

/// The function that is given, if it is one.
pub open spec fn given_callback(argument: CallbackArgument) -> Option<Callback> {
    match argument {
        CallbackArgument::Function(callback) => Some(callback),
        _ => None,
    }
}

/// A function that may be left out.
pub fn optional_callback(argument: CallbackArgument, name: &str) -> (result: Result<
    Option<Callback>,
    ScriptError,
>)
    ensures
        result is Err <==> argument is Other,
        result matches Ok(callback) ==> callback == given_callback(argument),
        result matches Err(error) ==> error@ == (
            ErrorKind::TypeError,
            name@ + " must be a function"@,
        ),
{
    match argument {
        CallbackArgument::Absent => Ok(None),
        CallbackArgument::Function(callback) => Ok(Some(callback)),
        CallbackArgument::Other => Err(
            ScriptError {
                kind: ErrorKind::TypeError,
                message: joined(name, " must be a function"),
            },
        ),
    }
}

/// A script that could not be made to watch, and the functions to release.
#[derive(Debug)]
pub struct AttachFailure {
    pub error: ScriptError,
    pub release: Vec<Callback>,
}

/// The functions that are there, in their order.
pub open spec fn present(callbacks: Seq<Option<Callback>>) -> Seq<Callback>
    decreases callbacks.len(),
{
    if callbacks.len() == 0 {
        seq![]
    } else {
        match callbacks.last() {
            Some(callback) => present(callbacks.drop_last()).push(callback),
            None => present(callbacks.drop_last()),
        }
    }
}

/// The functions that are there, in their order.
pub fn to_release(callbacks: Vec<Option<Callback>>) -> (list: Vec<Callback>)
    ensures
        list@ == present(callbacks@),
{
    let mut list: Vec<Callback> = Vec::new();
    let mut i: usize = 0;
    assert(callbacks@.take(0) =~= seq![]);
    while i < callbacks.len()
        invariant
            i <= callbacks@.len(),
            list@ == present(callbacks@.take(i as int)),
        decreases callbacks@.len() - i,
    {
        assert(callbacks@.take(i + 1).drop_last() =~= callbacks@.take(i as int));
        match callbacks[i] {
            Some(callback) => {
                list.push(callback);
            },
            None => {},
        }
        i = i + 1;
    }
    assert(callbacks@.take(callbacks@.len() as int) =~= callbacks@);
    list
}

/// The functions of a script that watches modules.
#[derive(Clone, Copy, Debug)]
pub struct ModuleCallbacks {
    pub on_added: Option<Callback>,
    pub on_removed: Option<Callback>,
}

/// The functions of a script that watches threads.
#[derive(Clone, Copy, Debug)]
pub struct ThreadCallbacks {
    pub on_added: Option<Callback>,
    pub on_removed: Option<Callback>,
    pub on_renamed: Option<Callback>,
}

/// What is wrong with the functions that a script gives to watch modules.
pub open spec fn module_callbacks_problem(
    is_object: bool,
    on_added: CallbackArgument,
    on_removed: CallbackArgument,
    backend: bool,
) -> Option<(ErrorKind, Seq<char>)> {
    if !is_object {
        Some((ErrorKind::TypeError, "callbacks must be an object"@))
    } else if on_added is Other {
        Some((ErrorKind::TypeError, "onAdded"@ + " must be a function"@))
    } else if on_removed is Other {
        Some((ErrorKind::TypeError, "onRemoved"@ + " must be a function"@))
    } else if on_added is Absent && on_removed is Absent {
        Some((ErrorKind::TypeError, "at least one callback must be provided"@))
    } else if !backend {
        Some((ErrorKind::InternalError, "process observer backend is not available"@))
    } else {
        None
    }
}

/// The functions that a script gives to watch modules. On a failure those that were taken
/// are released.
pub fn module_callbacks(
    is_object: bool,
    on_added: CallbackArgument,
    on_removed: CallbackArgument,
    backend: bool,
) -> (result: Result<ModuleCallbacks, AttachFailure>)
    ensures
        result is Err <==> module_callbacks_problem(is_object, on_added, on_removed, backend)
            is Some,
        result matches Ok(callbacks) ==> callbacks.on_added == given_callback(on_added)
            && callbacks.on_removed == given_callback(on_removed),
        result matches Err(failure) ==> {
            &&& Some(failure.error@) == module_callbacks_problem(
                is_object,
                on_added,
                on_removed,
                backend,
            )
            &&& failure.release@ == if is_object && !(on_added is Other) {
                present(seq![given_callback(on_added), given_callback(on_removed)])
            } else {
                seq![]
            }
        },
{
    proof {
        lemma_present_front(seq![given_callback(on_added)], None);
        assert(seq![given_callback(on_added)].push(None::<Callback>) =~= seq![
            given_callback(on_added),
            None::<Callback>,
        ]);
    }
    if !is_object {
        return Err(
            AttachFailure {
                error: type_error("callbacks must be an object"),
                release: Vec::new(),
            },
        );
    }
    let added: Option<Callback> = match optional_callback(on_added, "onAdded") {
        Ok(callback) => callback,
        Err(error) => {
            return Err(AttachFailure { error, release: Vec::new() });
        },
    };
    let removed: Option<Callback> = match optional_callback(on_removed, "onRemoved") {
        Ok(callback) => callback,
        Err(error) => {
            let taken: Vec<Option<Callback>> = vec![added];
            assert(taken@ =~= seq![given_callback(on_added)]);
            return Err(AttachFailure { error, release: to_release(taken) });
        },
    };
    if added.is_none() && removed.is_none() {
        return Err(
            AttachFailure {
                error: type_error("at least one callback must be provided"),
                release: to_release(vec![added, removed]),
            },
        );
    }
    if !backend {
        return Err(
            AttachFailure {
                error: internal_error("process observer backend is not available"),
                release: to_release(vec![added, removed]),
            },
        );
    }
    Ok(ModuleCallbacks { on_added: added, on_removed: removed })
}

proof fn lemma_present_front(callbacks: Seq<Option<Callback>>, last: Option<Callback>)
    ensures
        present(callbacks.push(last)) == match last {
            Some(callback) => present(callbacks).push(callback),
            None => present(callbacks),
        },
{
    assert(callbacks.push(last).drop_last() =~= callbacks);
}

/// What is wrong with the functions that a script gives to watch threads.
pub open spec fn thread_callbacks_problem(
    is_object: bool,
    on_added: CallbackArgument,
    on_removed: CallbackArgument,
    on_renamed: CallbackArgument,
    backend: bool,
) -> Option<(ErrorKind, Seq<char>)> {
    if !is_object {
        Some((ErrorKind::TypeError, "callbacks must be an object"@))
    } else if on_added is Other {
        Some((ErrorKind::TypeError, "onAdded"@ + " must be a function"@))
    } else if on_removed is Other {
        Some((ErrorKind::TypeError, "onRemoved"@ + " must be a function"@))
    } else if on_renamed is Other {
        Some((ErrorKind::TypeError, "onRenamed"@ + " must be a function"@))
    } else if on_added is Absent && on_removed is Absent && on_renamed is Absent {
        Some((ErrorKind::TypeError, "at least one callback must be provided"@))
    } else if !backend {
        Some((ErrorKind::InternalError, "process observer backend is not available"@))
    } else {
        None
    }
}

/// The functions that a script gives to watch threads. On a failure those that were taken
/// are released.
pub fn thread_callbacks(
    is_object: bool,
    on_added: CallbackArgument,
    on_removed: CallbackArgument,
    on_renamed: CallbackArgument,
    backend: bool,
) -> (result: Result<ThreadCallbacks, AttachFailure>)
    ensures
        result is Err <==> thread_callbacks_problem(
            is_object,
            on_added,
            on_removed,
            on_renamed,
            backend,
        ) is Some,
        result matches Ok(callbacks) ==> callbacks.on_added == given_callback(on_added)
            && callbacks.on_removed == given_callback(on_removed) && callbacks.on_renamed
            == given_callback(on_renamed),
        result matches Err(failure) ==> {
            &&& Some(failure.error@) == thread_callbacks_problem(
                is_object,
                on_added,
                on_removed,
                on_renamed,
                backend,
            )
            &&& failure.release@ == if !is_object || on_added is Other {
                seq![]
            } else if on_removed is Other {
                present(seq![given_callback(on_added)])
            } else {
                present(
                    seq![
                        given_callback(on_added),
                        given_callback(on_removed),
                        given_callback(on_renamed),
                    ],
                )
            }
        },
{
    proof {
        lemma_present_front(seq![given_callback(on_added), given_callback(on_removed)], None);
        assert(seq![given_callback(on_added), given_callback(on_removed)].push(None::<Callback>)
            =~= seq![given_callback(on_added), given_callback(on_removed), None::<Callback>]);
    }
    if !is_object {
        return Err(
            AttachFailure {
                error: type_error("callbacks must be an object"),
                release: Vec::new(),
            },
        );
    }
    let added: Option<Callback> = match optional_callback(on_added, "onAdded") {
        Ok(callback) => callback,
        Err(error) => {
            return Err(AttachFailure { error, release: Vec::new() });
        },
    };
    let removed: Option<Callback> = match optional_callback(on_removed, "onRemoved") {
        Ok(callback) => callback,
        Err(error) => {
            let taken: Vec<Option<Callback>> = vec![added];
            assert(taken@ =~= seq![given_callback(on_added)]);
            return Err(AttachFailure { error, release: to_release(taken) });
        },
    };
    let renamed: Option<Callback> = match optional_callback(on_renamed, "onRenamed") {
        Ok(callback) => callback,
        Err(error) => {
            return Err(AttachFailure { error, release: to_release(vec![added, removed]) });
        },
    };
    if added.is_none() && removed.is_none() && renamed.is_none() {
        return Err(
            AttachFailure {
                error: type_error("at least one callback must be provided"),
                release: to_release(vec![added, removed, renamed]),
            },
        );
    }
    if !backend {
        return Err(
            AttachFailure {
                error: internal_error("process observer backend is not available"),
                release: to_release(vec![added, removed, renamed]),
            },
        );
    }
    Ok(ThreadCallbacks { on_added: added, on_removed: removed, on_renamed: renamed })
}

/// Gets ready for a script that watches modules. The result says whether the engine has to
/// be asked to watch them first.
pub fn begin_module_attach(state: &mut ProcessObserverState) -> (first: bool)
    requires
        old(state).wf(),
    ensures
        final(state).wf(),
        first == (old(state).module_observers@.len() == 0),
        *final(state) == (ProcessObserverState {
            module_accepting: old(state).module_accepting || first,
            ..*old(state)
        }),
{
    let first: bool = state.module_observers.len() == 0;
    if first {
        state.module_accepting = true;
    }
    first
}

/// Gets ready for a script that watches threads. The result says whether the engine has to
/// be asked to watch them first.
pub fn begin_thread_attach(state: &mut ProcessObserverState) -> (first: bool)
    requires
        old(state).wf(),
    ensures
        final(state).wf(),
        first == (old(state).thread_observers@.len() == 0),
        *final(state) == (ProcessObserverState {
            thread_accepting: old(state).thread_accepting || first,
            ..*old(state)
        }),
{
    let first: bool = state.thread_observers.len() == 0;
    if first {
        state.thread_accepting = true;
    }
    first
}

/// Takes in that modules are no longer watched, or could not be.
pub fn stop_accepting_modules(state: &mut ProcessObserverState)
    requires
        old(state).wf(),
    ensures
        final(state).wf(),
        final(state).events@ == events_of_sort(old(state).events@, false),
        *final(state) == (ProcessObserverState {
            module_accepting: false,
            events: final(state).events,
            ..*old(state)
        }),
{
    state.module_accepting = false;
    keep_sort(&mut state.events, false);
}

/// Takes in that threads are no longer watched, or could not be.
pub fn stop_accepting_threads(state: &mut ProcessObserverState)
    requires
        old(state).wf(),
    ensures
        final(state).wf(),
        final(state).events@ == events_of_sort(old(state).events@, true),
        *final(state) == (ProcessObserverState {
            thread_accepting: false,
            events: final(state).events,
            ..*old(state)
        }),
{
    state.thread_accepting = false;
    keep_sort(&mut state.events, true);
}

/// Adds a script that watches modules, which knows of the given ones. The result is its
/// number.
pub fn add_module_observer(
    state: &mut ProcessObserverState,
    callbacks: ModuleCallbacks,
    modules: &Vec<ObservedModule>,
) -> (id: u32)
    requires
        old(state).wf(),
        old(state).module_observers@.len() + old(state).thread_observers@.len() < u32::MAX,
    ensures
        final(state).wf(),
        id >= 1,
        exists|steps: nat| #[trigger]
            first_free(*old(state), id, steps) && final(state).next_id == id_after(
                old(state).next_id,
                steps + 1,
            ),
        final(state).modules() == old(state).modules().push(
            (ModuleObserverView {
                id,
                on_added: callbacks.on_added,
                on_removed: callbacks.on_removed,
                known: collected(modules@),
            }),
        ),
        *final(state) == (ProcessObserverState {
            next_id: final(state).next_id,
            module_observers: final(state).module_observers,
            ..*old(state)
        }),
{
    let id: u32 = allocate_observer_id(state);
    let ghost before = state.module_observers@;
    assert(state.modules() == old(state).modules());
    assert forall|k: int| 0 <= k < before.len() implies (#[trigger] before[k]).id != id by {
        assert(old(state).modules()[k].id == before[k].id);
    }
    let known: Vec<ObservedModule> = collect(modules);
    state.module_observers.push(
        ModuleObserver { id, on_added: callbacks.on_added, on_removed: callbacks.on_removed, known },
    );
    assert(state.modules() =~= old(state).modules().push(
        (ModuleObserverView {
            id,
            on_added: callbacks.on_added,
            on_removed: callbacks.on_removed,
            known: collected(modules@),
        }),
    ));
    id
}

/// Adds a script that watches threads, which knows of the given ones. The result is its
/// number.
pub fn add_thread_observer(
    state: &mut ProcessObserverState,
    callbacks: ThreadCallbacks,
    threads: &Vec<ProcessThreadDetails>,
) -> (id: u32)
    requires
        old(state).wf(),
        old(state).module_observers@.len() + old(state).thread_observers@.len() < u32::MAX,
    ensures
        final(state).wf(),
        id >= 1,
        exists|steps: nat| #[trigger]
            first_free(*old(state), id, steps) && final(state).next_id == id_after(
                old(state).next_id,
                steps + 1,
            ),
        final(state).threads() == old(state).threads().push(
            (ThreadObserverView {
                id,
                on_added: callbacks.on_added,
                on_removed: callbacks.on_removed,
                on_renamed: callbacks.on_renamed,
                known: collected(threads@),
            }),
        ),
        *final(state) == (ProcessObserverState {
            next_id: final(state).next_id,
            thread_observers: final(state).thread_observers,
            ..*old(state)
        }),
{
    let id: u32 = allocate_observer_id(state);
    let ghost before = state.thread_observers@;
    assert(state.threads() == old(state).threads());
    assert forall|k: int| 0 <= k < before.len() implies (#[trigger] before[k]).id != id by {
        assert(old(state).threads()[k].id == before[k].id);
    }
    let known: Vec<ProcessThreadDetails> = collect(threads);
    state.thread_observers.push(
        ThreadObserver {
            id,
            on_added: callbacks.on_added,
            on_removed: callbacks.on_removed,
            on_renamed: callbacks.on_renamed,
            known,
        },
    );
    assert(state.threads() =~= old(state).threads().push(
        (ThreadObserverView {
            id,
            on_added: callbacks.on_added,
            on_removed: callbacks.on_removed,
            on_renamed: callbacks.on_renamed,
            known: collected(threads@),
        }),
    ));
    id
}

/// Where the script with the given number is.
pub open spec fn module_observer_at(observers: Seq<ModuleObserverView>, id: u32) -> int {
    choose|i: int| 0 <= i < observers.len() && (#[trigger] observers[i]).id == id
}

/// Where the script with the given number is.
pub open spec fn thread_observer_at(observers: Seq<ThreadObserverView>, id: u32) -> int {
    choose|i: int| 0 <= i < observers.len() && (#[trigger] observers[i]).id == id
}

/// The function by which a script is told of a module that is there from the start.
pub fn initial_module_callback(state: &ProcessObserverState, id: u32) -> (callback: Option<Callback>)
    requires
        state.wf(),
    ensures
        callback == if module_id_used(state.modules(), id) {
            state.modules()[module_observer_at(state.modules(), id)].on_added
        } else {
            None
        },
{
    match module_observer_index(state, id) {
        Some(i) => state.module_observers[i].on_added,
        None => None,
    }
}

/// The function by which a script is told of a thread that is there from the start.
pub fn initial_thread_callback(state: &ProcessObserverState, id: u32) -> (callback: Option<Callback>)
    requires
        state.wf(),
    ensures
        callback == if thread_id_used(state.threads(), id) {
            state.threads()[thread_observer_at(state.threads(), id)].on_added
        } else {
            None
        },
{
    match thread_observer_index(state, id) {
        Some(i) => state.thread_observers[i].on_added,
        None => None,
    }
}

fn module_observer_index(state: &ProcessObserverState, id: u32) -> (index: Option<usize>)
    requires
        state.wf(),
    ensures
        index is Some <==> module_id_used(state.modules(), id),
        index matches Some(i) ==> i < state.module_observers@.len() && i == module_observer_at(
            state.modules(),
            id,
        ),
{
    let mut i: usize = 0;
    while i < state.module_observers.len()
        invariant
            i <= state.module_observers@.len(),
            state.wf(),
            forall|k: int| 0 <= k < i ==> (#[trigger] state.modules()[k]).id != id,
        decreases state.module_observers@.len() - i,
    {
        if state.module_observers[i].id == id {
            proof {
                assert(state.modules()[i as int].id == id);
                let at = module_observer_at(state.modules(), id);
                assert(state.modules()[at].id == state.module_observers@[at].id);
                if at > i {
                    assert(state.module_observers@[i as int].id != state.module_observers@[at].id);
                }
            }
            return Some(i);
        }
        i = i + 1;
    }
    None
}

fn thread_observer_index(state: &ProcessObserverState, id: u32) -> (index: Option<usize>)
    requires
        state.wf(),
    ensures
        index is Some <==> thread_id_used(state.threads(), id),
        index matches Some(i) ==> i < state.thread_observers@.len() && i == thread_observer_at(
            state.threads(),
            id,
        ),
{
    let mut i: usize = 0;
    while i < state.thread_observers.len()
        invariant
            i <= state.thread_observers@.len(),
            state.wf(),
            forall|k: int| 0 <= k < i ==> (#[trigger] state.threads()[k]).id != id,
        decreases state.thread_observers@.len() - i,
    {
        if state.thread_observers[i].id == id {
            proof {
                assert(state.threads()[i as int].id == id);
                let at = thread_observer_at(state.threads(), id);
                assert(state.threads()[at].id == state.thread_observers@[at].id);
                if at > i {
                    assert(state.thread_observers@[i as int].id != state.thread_observers@[at].id);
                }
            }
            return Some(i);
        }
        i = i + 1;
    }
    None
}

/// A script that no longer watches.
#[derive(Debug)]
pub struct DetachedObserver {
    /// Whether it was the last of its sort, so that the engine has to be told.
    pub last: bool,
    /// The functions to release.
    pub release: Vec<Callback>,
}

/// Takes a script that watches modules away, if there is one with the given number.
pub fn detach_module_observer(state: &mut ProcessObserverState, id: u32) -> (detached: Option<
    DetachedObserver,
>)
    requires
        old(state).wf(),
    ensures
        final(state).wf(),
        detached is Some <==> module_id_used(old(state).modules(), id),
        detached is None ==> *final(state) == *old(state),
        detached matches Some(d) ==> {
            let at = module_observer_at(old(state).modules(), id);
            let gone = old(state).modules()[at];
            &&& final(state).modules() == old(state).modules().remove(at)
            &&& d.last == (final(state).module_observers@.len() == 0)
            &&& d.release@ == present(seq![gone.on_added, gone.on_removed])
            &&& *final(state) == (ProcessObserverState {
                module_observers: final(state).module_observers,
                ..*old(state)
            })
        },
{
    match module_observer_index(state, id) {
        None => None,
        Some(i) => {
            let ghost before = state.module_observers@;
            let observer: ModuleObserver = state.module_observers.remove(i);
            proof {
                assert(state.modules() =~= old(state).modules().remove(i as int));
                lemma_module_ids_stay_apart(before, i as int);
                assert forall|k: int| 0 <= k < state.modules().len() implies unique_keys(
                    (#[trigger] state.modules()[k]).known,
                ) by {
                    let m = if k < i {
                        k
                    } else {
                        k + 1
                    };
                    assert(state.modules()[k] == old(state).modules()[m]);
                }
            }
            let last: bool = state.module_observers.len() == 0;
            Some(
                DetachedObserver {
                    last,
                    release: to_release(vec![observer.on_added, observer.on_removed]),
                },
            )
        },
    }
}

proof fn lemma_module_ids_stay_apart(observers: Seq<ModuleObserver>, at: int)
    requires
        0 <= at < observers.len(),
        forall|i: int, j: int|
            #![trigger observers[i], observers[j]]
            0 <= i < j < observers.len() ==> observers[i].id != observers[j].id,
    ensures
        forall|i: int, j: int|
            #![trigger observers.remove(at)[i], observers.remove(at)[j]]
            0 <= i < j < observers.len() - 1 ==> observers.remove(at)[i].id != observers.remove(
                at,
            )[j].id,
{
    let after = observers.remove(at);
    assert forall|i: int, j: int|
        #![trigger after[i], after[j]]
        0 <= i < j < observers.len() - 1 implies after[i].id != after[j].id by {
        let a = if i < at {
            i
        } else {
            i + 1
        };
        let b = if j < at {
            j
        } else {
            j + 1
        };
        assert(after[i] == observers[a]);
        assert(after[j] == observers[b]);
    }
}

proof fn lemma_thread_ids_stay_apart(observers: Seq<ThreadObserver>, at: int)
    requires
        0 <= at < observers.len(),
        forall|i: int, j: int|
            #![trigger observers[i], observers[j]]
            0 <= i < j < observers.len() ==> observers[i].id != observers[j].id,
    ensures
        forall|i: int, j: int|
            #![trigger observers.remove(at)[i], observers.remove(at)[j]]
            0 <= i < j < observers.len() - 1 ==> observers.remove(at)[i].id != observers.remove(
                at,
            )[j].id,
{
    let after = observers.remove(at);
    assert forall|i: int, j: int|
        #![trigger after[i], after[j]]
        0 <= i < j < observers.len() - 1 implies after[i].id != after[j].id by {
        let a = if i < at {
            i
        } else {
            i + 1
        };
        let b = if j < at {
            j
        } else {
            j + 1
        };
        assert(after[i] == observers[a]);
        assert(after[j] == observers[b]);
    }
}

/// Takes a script that watches threads away, if there is one with the given number.
pub fn detach_thread_observer(state: &mut ProcessObserverState, id: u32) -> (detached: Option<
    DetachedObserver,
>)
    requires
        old(state).wf(),
    ensures
        final(state).wf(),
        detached is Some <==> thread_id_used(old(state).threads(), id),
        detached is None ==> *final(state) == *old(state),
        detached matches Some(d) ==> {
            let at = thread_observer_at(old(state).threads(), id);
            let gone = old(state).threads()[at];
            &&& final(state).threads() == old(state).threads().remove(at)
            &&& d.last == (final(state).thread_observers@.len() == 0)
            &&& d.release@ == present(seq![gone.on_added, gone.on_removed, gone.on_renamed])
            &&& *final(state) == (ProcessObserverState {
                thread_observers: final(state).thread_observers,
                ..*old(state)
            })
        },
{
    match thread_observer_index(state, id) {
        None => None,
        Some(i) => {
            let ghost before = state.thread_observers@;
            let observer: ThreadObserver = state.thread_observers.remove(i);
            proof {
                assert(state.threads() =~= old(state).threads().remove(i as int));
                lemma_thread_ids_stay_apart(before, i as int);
                assert forall|k: int| 0 <= k < state.threads().len() implies unique_keys(
                    (#[trigger] state.threads()[k]).known,
                ) by {
                    let m = if k < i {
                        k
                    } else {
                        k + 1
                    };
                    assert(state.threads()[k] == old(state).threads()[m]);
                }
            }
            let last: bool = state.thread_observers.len() == 0;
            Some(
                DetachedObserver {
                    last,
                    release: to_release(
                        vec![observer.on_added, observer.on_removed, observer.on_renamed],
                    ),
                },
            )
        },
    }
}

/// Takes in that the engine cannot watch modules for the first script that wants it.
pub fn module_attach_failed(
    state: &mut ProcessObserverState,
    callbacks: ModuleCallbacks,
    error: &str,
) -> (failure: AttachFailure)
    requires
        old(state).wf(),
    ensures
        final(state).wf(),
        final(state).events@ == events_of_sort(old(state).events@, false),
        *final(state) == (ProcessObserverState {
            module_accepting: false,
            events: final(state).events,
            ..*old(state)
        }),
        failure.error@ == (ErrorKind::InternalError, error@),
        failure.release@ == present(seq![callbacks.on_added, callbacks.on_removed]),
{
    stop_accepting_modules(state);
    AttachFailure {
        error: internal_error(error),
        release: to_release(vec![callbacks.on_added, callbacks.on_removed]),
    }
}

/// Takes in that the engine cannot watch threads for the first script that wants it.
pub fn thread_attach_failed(
    state: &mut ProcessObserverState,
    callbacks: ThreadCallbacks,
    error: &str,
) -> (failure: AttachFailure)
    requires
        old(state).wf(),
    ensures
        final(state).wf(),
        final(state).events@ == events_of_sort(old(state).events@, true),
        *final(state) == (ProcessObserverState {
            thread_accepting: false,
            events: final(state).events,
            ..*old(state)
        }),
        failure.error@ == (ErrorKind::InternalError, error@),
        failure.release@ == present(
            seq![callbacks.on_added, callbacks.on_removed, callbacks.on_renamed],
        ),
{
    stop_accepting_threads(state);
    AttachFailure {
        error: internal_error(error),
        release: to_release(
            vec![callbacks.on_added, callbacks.on_removed, callbacks.on_renamed],
        ),
    }
}

/// The number of the script that is to be taken away; zero, which none has, if the argument
/// does not convert.
pub fn observer_number(argument: Option<i64>) -> (id: u32)
    ensures
        id == match argument {
            Some(value) => value % 0x1_0000_0000,
            None => 0,
        },
{
    match argument {
        Some(value) => {
            assert((value as u64 & 0xffff_ffffu64) == (value % 0x1_0000_0000) as u64) by (bit_vector);
            (value as u64 & 0xffff_ffff) as u32
        },
        None => 0,
    }
}

/// The modules that are loaded: what the engine says of those that the process maps, and
/// the others that it maps, in the order of their addresses.
pub open spec fn merged_modules(modules: Seq<ObservedModule>, current: Seq<ObservedModule>) -> Seq<
    ObservedModule,
> {
    stable_sorted(completed(collected(keyed_in(modules, current)), current))
}

/// The modules that are loaded, from what the engine says and what the process maps.
pub fn merge_module_snapshots(modules: Vec<ObservedModule>, current: Vec<ObservedModule>) -> (merged:
    Vec<ObservedModule>)
    ensures
        merged@ == merged_modules(modules@, current@),
{
    let kept: Vec<ObservedModule> = copy_keyed_in(&modules, &current);
    let mut list: Vec<ObservedModule> = collect(&kept);
    complete(&mut list, &current);
    stable_sort(list)
}

/// The merged modules are those that the process maps, in the order of their addresses.
pub proof fn merging_keeps_the_mapped_modules(
    modules: Seq<ObservedModule>,
    current: Seq<ObservedModule>,
    key: Key,
)
    ensures
        has_key(merged_modules(modules, current), key) <==> has_key(current, key),
        crate::sorting::ascending(merged_modules(modules, current)),
{
    let kept = collected(keyed_in(modules, current));
    let list = completed(kept, current);
    collecting_keeps_the_keys(keyed_in(modules, current));
    lemma_split_keys(modules, current);
    completing_adds_the_keys(kept, current);
    crate::sorting::stable_sorted_orders(list);
    let sorted = stable_sorted(list);
    lemma_same_keys(sorted, list, key);
    assert(has_key(list, key) <==> has_key(kept, key) || has_key(current, key));
    assert(has_key(kept, key) <==> has_key(keyed_in(modules, current), key));
}

proof fn lemma_same_keys(left: Seq<ObservedModule>, right: Seq<ObservedModule>, key: Key)
    requires
        left.to_multiset() == right.to_multiset(),
    ensures
        has_key(left, key) <==> has_key(right, key),
{
    broadcast use vstd::seq_lib::group_to_multiset_ensures;

    if has_key(left, key) {
        let i = choose|i: int| 0 <= i < left.len() && (#[trigger] left[i]).identity() == key;
        assert(left.to_multiset().count(left[i]) > 0);
        assert(right.contains(left[i]));
        let k = choose|k: int| 0 <= k < right.len() && right[k] == left[i];
        assert(right[k].identity() == key);
    }
    if has_key(right, key) {
        let i = choose|i: int| 0 <= i < right.len() && (#[trigger] right[i]).identity() == key;
        assert(right.to_multiset().count(right[i]) > 0);
        assert(left.contains(right[i]));
        let k = choose|k: int| 0 <= k < left.len() && left[k] == right[i];
        assert(left[k].identity() == key);
    }
}

/// All that scripts know of modules, in a row.
pub open spec fn all_known_modules(observers: Seq<ModuleObserverView>) -> Seq<ObservedModule>
    decreases observers.len(),
{
    if observers.len() == 0 {
        seq![]
    } else {
        all_known_modules(observers.drop_last()) + observers.last().known
    }
}

/// All that scripts know of threads, in a row.
pub open spec fn all_known_threads(observers: Seq<ThreadObserverView>) -> Seq<
    ProcessThreadDetails,
>
    decreases observers.len(),
{
    if observers.len() == 0 {
        seq![]
    } else {
        all_known_threads(observers.drop_last()) + observers.last().known
    }
}

/// Whether some script does not know of the module.
pub open spec fn module_unknown(observers: Seq<ModuleObserverView>, key: Key) -> bool {
    exists|i: int| 0 <= i < observers.len() && !has_key((#[trigger] observers[i]).known, key)
}

/// Whether some script does not know of the thread.
pub open spec fn thread_unknown(observers: Seq<ThreadObserverView>, key: Key) -> bool {
    exists|i: int| 0 <= i < observers.len() && !has_key((#[trigger] observers[i]).known, key)
}

/// That modules have gone.
pub open spec fn modules_gone(modules: Seq<ObservedModule>) -> Seq<ModuleChange> {
    Seq::new(modules.len(), |i: int| ModuleChange::Removed(modules[i]))
}

/// That those modules have come of which some script does not know.
pub open spec fn modules_come(
    observers: Seq<ModuleObserverView>,
    current: Seq<ObservedModule>,
) -> Seq<ModuleChange>
    decreases current.len(),
{
    if current.len() == 0 {
        seq![]
    } else if module_unknown(observers, current.last().identity()) {
        modules_come(observers, current.drop_last()).push(ModuleChange::Added(current.last()))
    } else {
        modules_come(observers, current.drop_last())
    }
}

/// The differences between what scripts know of modules and what the process has: first
/// what has gone, then what has come.
pub open spec fn module_differences(
    observers: Seq<ModuleObserverView>,
    current: Seq<ObservedModule>,
) -> Seq<ModuleChange> {
    modules_gone(
        keyed_out(collected(all_known_modules(observers)), collected(current)),
    ) + modules_come(observers, collected(current))
}

/// That threads have ended.
pub open spec fn threads_gone(threads: Seq<ProcessThreadDetails>) -> Seq<ThreadObserverEvent> {
    Seq::new(threads.len(), |i: int| ThreadObserverEvent::Removed(threads[i]))
}

/// The name under which the first script knows the thread that knows it under another one.
pub open spec fn earlier_name(
    observers: Seq<ThreadObserverView>,
    thread: ProcessThreadDetails,
) -> Option<Option<String>>
    decreases observers.len(),
{
    if observers.len() == 0 {
        None
    } else {
        match earlier_name(observers.drop_last(), thread) {
            Some(name) => Some(name),
            None => {
                let known = observers.last().known;
                if has_key(known, thread.identity()) && names_differ(
                    known[position(known, thread.identity())],
                    thread,
                ) {
                    Some(known[position(known, thread.identity())].name)
                } else {
                    None
                }
            },
        }
    }
}

/// That those threads have been started of which some script does not know, and that others
/// have another name.
pub open spec fn threads_come(
    observers: Seq<ThreadObserverView>,
    current: Seq<ProcessThreadDetails>,
) -> Seq<ThreadObserverEvent>
    decreases current.len(),
{
    if current.len() == 0 {
        seq![]
    } else {
        let front = threads_come(observers, current.drop_last());
        let thread = current.last();
        if thread_unknown(observers, thread.identity()) {
            front.push(ThreadObserverEvent::Added(thread))
        } else {
            match earlier_name(observers, thread) {
                Some(previous_name) => front.push(
                    ThreadObserverEvent::Renamed { thread, previous_name },
                ),
                None => front,
            }
        }
    }
}

/// The differences between what scripts know of threads and what the process has: first
/// what has gone, then what has come or has another name.
pub open spec fn thread_differences(
    observers: Seq<ThreadObserverView>,
    current: Seq<ProcessThreadDetails>,
) -> Seq<ThreadObserverEvent> {
    threads_gone(
        keyed_out(collected(all_known_threads(observers)), collected(current)),
    ) + threads_come(observers, collected(current))
}

/// Which comparisons with the process are to be made.
#[derive(Clone, Copy, Debug, PartialEq, Eq, Structural)]
pub struct ReconcilePlan {
    pub modules: bool,
    pub threads: bool,
}

/// Begins to compare what scripts know with what the process has, if it is time.
pub fn begin_reconcile(state: &mut ProcessObserverState, now: u64) -> (plan: Option<ReconcilePlan>)
    requires
        old(state).wf(),
    ensures
        final(state).wf(),
        plan is Some <==> !old(state).reconciling && old(state).watched() && old(state).due(now),
        plan matches Some(p) ==> {
            &&& p.modules == (old(state).module_observers@.len() > 0)
            &&& p.threads == (old(state).thread_observers@.len() > 0)
            &&& *final(state) == (ProcessObserverState {
                reconciling: true,
                last_reconcile: Some(now),
                ..*old(state)
            })
        },
        plan is None ==> *final(state) == *old(state),
{
    let modules: bool = state.module_observers.len() > 0;
    let threads: bool = state.thread_observers.len() > 0;
    let early: bool = match state.last_reconcile {
        Some(last) => now.saturating_sub(last) < PROCESS_OBSERVER_RECONCILE_INTERVAL,
        None => false,
    };
    if state.reconciling || (!modules && !threads) || early {
        return None;
    }
    state.reconciling = true;
    state.last_reconcile = Some(now);
    Some(ReconcilePlan { modules, threads })
}

fn collect_known_modules(observers: &Vec<ModuleObserver>) -> (known: Vec<ObservedModule>)
    ensures
        known@ == collected(all_known_modules(module_views(observers@))),
        unique_keys(known@),
{
    let ghost views = module_views(observers@);
    let mut known: Vec<ObservedModule> = Vec::new();
    let mut i: usize = 0;
    assert(views.take(0) =~= seq![]);
    while i < observers.len()
        invariant
            i <= observers@.len(),
            views == module_views(observers@),
            known@ == collected(all_known_modules(views.take(i as int))),
            unique_keys(known@),
        decreases observers@.len() - i,
    {
        let ghost front = all_known_modules(views.take(i as int));
        let ghost own = observers@[i as int].known@;
        let mut j: usize = 0;
        assert(front + own.take(0) =~= front);
        while j < observers[i].known.len()
            invariant
                i < observers@.len(),
                j <= own.len(),
                own == observers@[i as int].known@,
                known@ == collected(front + own.take(j as int)),
                unique_keys(known@),
            decreases own.len() - j,
        {
            assert((front + own.take(j + 1)).drop_last() =~= front + own.take(j as int));
            let module: ObservedModule = observers[i].known[j].copy();
            place(&mut known, module);
            j = j + 1;
        }
        assert(own.take(own.len() as int) =~= own);
        assert(views.take(i + 1).drop_last() =~= views.take(i as int));
        i = i + 1;
    }
    assert(views.take(views.len() as int) =~= views);
    known
}

fn collect_known_threads(observers: &Vec<ThreadObserver>) -> (known: Vec<ProcessThreadDetails>)
    ensures
        known@ == collected(all_known_threads(thread_views(observers@))),
        unique_keys(known@),
{
    let ghost views = thread_views(observers@);
    let mut known: Vec<ProcessThreadDetails> = Vec::new();
    let mut i: usize = 0;
    assert(views.take(0) =~= seq![]);
    while i < observers.len()
        invariant
            i <= observers@.len(),
            views == thread_views(observers@),
            known@ == collected(all_known_threads(views.take(i as int))),
            unique_keys(known@),
        decreases observers@.len() - i,
    {
        let ghost front = all_known_threads(views.take(i as int));
        let ghost own = observers@[i as int].known@;
        let mut j: usize = 0;
        assert(front + own.take(0) =~= front);
        while j < observers[i].known.len()
            invariant
                i < observers@.len(),
                j <= own.len(),
                own == observers@[i as int].known@,
                known@ == collected(front + own.take(j as int)),
                unique_keys(known@),
            decreases own.len() - j,
        {
            assert((front + own.take(j + 1)).drop_last() =~= front + own.take(j as int));
            let thread: ProcessThreadDetails = observers[i].known[j].copy();
            place(&mut known, thread);
            j = j + 1;
        }
        assert(own.take(own.len() as int) =~= own);
        assert(views.take(i + 1).drop_last() =~= views.take(i as int));
        i = i + 1;
    }
    assert(views.take(views.len() as int) =~= views);
    known
}

fn some_lacks_module(observers: &Vec<ModuleObserver>, module: &ObservedModule) -> (lacking: bool)
    ensures
        lacking == module_unknown(module_views(observers@), module.identity()),
{
    let mut i: usize = 0;
    while i < observers.len()
        invariant
            i <= observers@.len(),
            forall|k: int|
                0 <= k < i ==> has_key(
                    (#[trigger] module_views(observers@)[k]).known,
                    module.identity(),
                ),
        decreases observers@.len() - i,
    {
        if !holds_key(&observers[i].known, module) {
            assert(!has_key(module_views(observers@)[i as int].known, module.identity()));
            return true;
        }
        i = i + 1;
    }
    false
}

fn some_lacks_thread(observers: &Vec<ThreadObserver>, thread: &ProcessThreadDetails) -> (lacking:
    bool)
    ensures
        lacking == thread_unknown(thread_views(observers@), thread.identity()),
{
    let mut i: usize = 0;
    while i < observers.len()
        invariant
            i <= observers@.len(),
            forall|k: int|
                0 <= k < i ==> has_key(
                    (#[trigger] thread_views(observers@)[k]).known,
                    thread.identity(),
                ),
        decreases observers@.len() - i,
    {
        if !holds_key(&observers[i].known, thread) {
            assert(!has_key(thread_views(observers@)[i as int].known, thread.identity()));
            return true;
        }
        i = i + 1;
    }
    false
}

fn find_earlier_name(observers: &Vec<ThreadObserver>, thread: &ProcessThreadDetails) -> (name: Option<
    Option<String>,
>)
    requires
        threads_known_once(thread_views(observers@)),
    ensures
        name == earlier_name(thread_views(observers@), *thread),
{
    let ghost views = thread_views(observers@);
    let mut i: usize = 0;
    assert(views.take(0) =~= seq![]);
    while i < observers.len()
        invariant
            i <= observers@.len(),
            views == thread_views(observers@),
            threads_known_once(views),
            earlier_name(views.take(i as int), *thread) is None,
        decreases observers@.len() - i,
    {
        assert(views.take(i + 1).drop_last() =~= views.take(i as int));
        assert(unique_keys(views[i as int].known));
        match find_key(&observers[i].known, thread) {
            Some(at) => {
                if !same_name(&observers[i].known[at].name, &thread.name) {
                    let found: ProcessThreadDetails = observers[i].known[at].copy();
                    proof {
                        lemma_earlier_name_stays(views, *thread, i + 1);
                    }
                    return Some(found.name);
                }
            },
            None => {},
        }
        i = i + 1;
    }
    assert(views.take(views.len() as int) =~= views);
    None
}

proof fn lemma_earlier_name_stays(
    observers: Seq<ThreadObserverView>,
    thread: ProcessThreadDetails,
    count: int,
)
    requires
        0 <= count <= observers.len(),
        earlier_name(observers.take(count), thread) is Some,
    ensures
        earlier_name(observers, thread) == earlier_name(observers.take(count), thread),
    decreases observers.len(),
{
    if count == observers.len() {
        assert(observers.take(count) =~= observers);
    } else {
        assert(observers.drop_last().take(count) =~= observers.take(count));
        lemma_earlier_name_stays(observers.drop_last(), thread, count);
    }
}

/// The differences between what scripts know of modules and what the process has.
pub fn reconcile_modules(state: &ProcessObserverState, modules: &Vec<ObservedModule>) -> (changes: Vec<
    ModuleChange,
>)
    ensures
        changes@ == module_differences(state.modules(), modules@),
{
    let mut current: Vec<ObservedModule> = collect(modules);
    let known: Vec<ObservedModule> = collect_known_modules(&state.module_observers);
    let gone: Vec<ObservedModule> = copy_keyed_out(&known, &current);
    let ghost all_gone = gone@;
    let mut changes: Vec<ModuleChange> = Vec::new();
    for module in it: gone
        invariant
            it.seq() == all_gone,
            changes@ == modules_gone(all_gone).take(it.index() as int),
    {
        changes.push(ModuleChange::Removed(module));
        assert(modules_gone(all_gone).take(it.index() as int + 1) =~= modules_gone(all_gone).take(
            it.index() as int,
        ).push(ModuleChange::Removed(module)));
    }
    assert(changes@ =~= modules_gone(all_gone));
    let ghost front = changes@;
    let ghost all = current@;
    assert(all.take(0) =~= seq![]);
    assert(front + modules_come(state.modules(), all.take(0)) =~= front);
    for module in it: current
        invariant
            it.seq() == all,
            changes@ == front + modules_come(state.modules(), all.take(it.index() as int)),
    {
        let ghost done = it.index() as int;
        assert(all.take(done + 1).drop_last() =~= all.take(done));
        assert(all.take(done + 1).last() == module);
        if some_lacks_module(&state.module_observers, &module) {
            let ghost before = changes@;
            changes.push(ModuleChange::Added(module));
            assert(changes@ =~= front + modules_come(state.modules(), all.take(done + 1)));
        }
    }
    assert(all.take(all.len() as int) =~= all);
    changes
}

/// The differences between what scripts know of threads and what the process has.
pub fn reconcile_threads(state: &ProcessObserverState, threads: &Vec<ProcessThreadDetails>) -> (events:
    Vec<ThreadObserverEvent>)
    requires
        state.wf(),
    ensures
        events@ == thread_differences(state.threads(), threads@),
{
    let current: Vec<ProcessThreadDetails> = collect(threads);
    let known: Vec<ProcessThreadDetails> = collect_known_threads(&state.thread_observers);
    let gone: Vec<ProcessThreadDetails> = copy_keyed_out(&known, &current);
    let ghost all_gone = gone@;
    let mut events: Vec<ThreadObserverEvent> = Vec::new();
    for thread in it: gone
        invariant
            it.seq() == all_gone,
            events@ == threads_gone(all_gone).take(it.index() as int),
    {
        events.push(ThreadObserverEvent::Removed(thread));
        assert(threads_gone(all_gone).take(it.index() as int + 1) =~= threads_gone(all_gone).take(
            it.index() as int,
        ).push(ThreadObserverEvent::Removed(thread)));
    }
    assert(events@ =~= threads_gone(all_gone));
    let ghost front = events@;
    let ghost all = current@;
    assert(all.take(0) =~= seq![]);
    assert(front + threads_come(state.threads(), all.take(0)) =~= front);
    for thread in it: current
        invariant
            it.seq() == all,
            state.wf(),
            events@ == front + threads_come(state.threads(), all.take(it.index() as int)),
    {
        let ghost done = it.index() as int;
        assert(all.take(done + 1).drop_last() =~= all.take(done));
        assert(all.take(done + 1).last() == thread);
        if some_lacks_thread(&state.thread_observers, &thread) {
            events.push(ThreadObserverEvent::Added(thread));
        } else {
            match find_earlier_name(&state.thread_observers, &thread) {
                Some(previous_name) => {
                    events.push(ThreadObserverEvent::Renamed { thread, previous_name });
                },
                None => {},
            }
        }
        assert(events@ =~= front + threads_come(state.threads(), all.take(done + 1)));
    }
    assert(all.take(all.len() as int) =~= all);
    events
}

/// Ends a comparison with the process.
pub fn end_reconcile(state: &mut ProcessObserverState)
    requires
        old(state).wf(),
    ensures
        final(state).wf(),
        *final(state) == (ProcessObserverState { reconciling: false, ..*old(state) }),
{
    state.reconciling = false;
}

/// The next event to deliver in a round that has delivered `delivered` so far.
pub fn next_process_observer_event(state: &mut ProcessObserverState, delivered: usize) -> (event: Option<
    QueuedProcessObserverEvent,
>)
    requires
        old(state).wf(),
    ensures
        final(state).wf(),
        event is Some <==> delivered < PROCESS_OBSERVER_QUEUE_CAPACITY && old(state).events@.len()
            > 0,
        event matches Some(e) ==> e == old(state).events@[0] && final(state).events@ == old(
            state,
        ).events@.drop_first(),
        event is None ==> final(state).events@ == old(state).events@,
        *final(state) == (ProcessObserverState { events: final(state).events, ..*old(state) }),
{
    if delivered >= PROCESS_OBSERVER_QUEUE_CAPACITY {
        return None;
    }
    let ghost before = state.events@;
    let event: Option<QueuedProcessObserverEvent> = state.events.pop_front();
    if event.is_some() {
        assert(state.events@ =~= before.drop_first());
    }
    event
}

/// Whether there is something to deliver or a comparison to make.
pub fn process_observer_events_pending(state: &ProcessObserverState, now: u64) -> (pending: bool)
    ensures
        pending == (state.events@.len() > 0 || (state.watched() && state.due(now))),
{
    if state.events.len() != 0 {
        return true;
    }
    if state.module_observers.len() == 0 && state.thread_observers.len() == 0 {
        return false;
    }
    match state.last_reconcile {
        Some(last) => now.saturating_sub(last) >= PROCESS_OBSERVER_RECONCILE_INTERVAL,
        None => true,
    }
}

/// What the engine still has to be told when all watching ends: modules first.
#[derive(Clone, Copy, Debug, PartialEq, Eq, Structural)]
pub struct ObserverCut {
    pub detach_modules: bool,
    pub detach_threads: bool,
}

/// Cuts the events off. The result says what the engine has to be told, if there is one.
pub fn cut_process_observers(state: &mut ProcessObserverState, backend: bool) -> (cut: ObserverCut)
    requires
        old(state).wf(),
    ensures
        final(state).wf(),
        cut.detach_modules == (backend && old(state).module_observers@.len() > 0),
        cut.detach_threads == (backend && old(state).thread_observers@.len() > 0),
        final(state).events@.len() == 0,
        *final(state) == (ProcessObserverState {
            module_accepting: false,
            thread_accepting: false,
            events: final(state).events,
            reconciling: false,
            last_reconcile: None,
            ..*old(state)
        }),
{
    state.module_accepting = false;
    state.thread_accepting = false;
    state.events.clear();
    state.reconciling = false;
    state.last_reconcile = None;
    ObserverCut {
        detach_modules: backend && state.module_observers.len() > 0,
        detach_threads: backend && state.thread_observers.len() > 0,
    }
}

impl ObserverCut {
    /// Takes in what came of telling the engine the next thing. A failure ends the cut.
    pub fn answered(&mut self, outcome: Result<(), String>) -> (result: Result<(), String>)
        ensures
            result == outcome,
            *final(self) == if outcome is Err {
                ObserverCut { detach_modules: false, detach_threads: false }
            } else if old(self).detach_modules {
                ObserverCut { detach_modules: false, ..*old(self) }
            } else {
                ObserverCut { detach_threads: false, ..*old(self) }
            },
    {
        if outcome.is_err() {
            self.detach_modules = false;
            self.detach_threads = false;
        } else if self.detach_modules {
            self.detach_modules = false;
        } else {
            self.detach_threads = false;
        }
        outcome
    }
}

/// The functions of scripts that watch modules.
pub open spec fn module_functions(observers: Seq<ModuleObserverView>) -> Seq<Callback>
    decreases observers.len(),
{
    if observers.len() == 0 {
        seq![]
    } else {
        let last = observers.last();
        module_functions(observers.drop_last()) + present(seq![last.on_added, last.on_removed])
    }
}

/// The functions of scripts that watch threads.
pub open spec fn thread_functions(observers: Seq<ThreadObserverView>) -> Seq<Callback>
    decreases observers.len(),
{
    if observers.len() == 0 {
        seq![]
    } else {
        let last = observers.last();
        thread_functions(observers.drop_last()) + present(
            seq![last.on_added, last.on_removed, last.on_renamed],
        )
    }
}

/// Ends all watching. The result holds the functions to release.
pub fn free_process_observers(state: &mut ProcessObserverState) -> (release: Vec<Callback>)
    requires
        old(state).wf(),
    ensures
        final(state).wf(),
        release@ == module_functions(old(state).modules()) + thread_functions(old(state).threads()),
        !final(state).watched(),
        final(state).events@.len() == 0,
        *final(state) == (ProcessObserverState {
            module_accepting: false,
            thread_accepting: false,
            module_observers: final(state).module_observers,
            thread_observers: final(state).thread_observers,
            events: final(state).events,
            reconciling: false,
            last_reconcile: None,
            ..*old(state)
        }),
{
    let ghost modules = state.modules();
    let ghost threads = state.threads();
    let _ = cut_process_observers(state, false);
    let mut release: Vec<Callback> = Vec::new();
    let mut i: usize = 0;
    assert(modules.take(0) =~= seq![]);
    while i < state.module_observers.len()
        invariant
            i <= state.module_observers@.len(),
            modules == state.modules(),
            release@ == module_functions(modules.take(i as int)),
        decreases state.module_observers@.len() - i,
    {
        assert(modules.take(i + 1).drop_last() =~= modules.take(i as int));
        let mut own: Vec<Callback> = to_release(
            vec![state.module_observers[i].on_added, state.module_observers[i].on_removed],
        );
        release.append(&mut own);
        i = i + 1;
    }
    assert(modules.take(modules.len() as int) =~= modules);
    let ghost front = release@;
    let mut j: usize = 0;
    assert(threads.take(0) =~= seq![]);
    assert(front + thread_functions(threads.take(0)) =~= front);
    while j < state.thread_observers.len()
        invariant
            j <= state.thread_observers@.len(),
            threads == state.threads(),
            release@ == front + thread_functions(threads.take(j as int)),
        decreases state.thread_observers@.len() - j,
    {
        assert(threads.take(j + 1).drop_last() =~= threads.take(j as int));
        let mut own: Vec<Callback> = to_release(
            vec![
                state.thread_observers[j].on_added,
                state.thread_observers[j].on_removed,
                state.thread_observers[j].on_renamed,
            ],
        );
        release.append(&mut own);
        j = j + 1;
        assert(release@ =~= front + thread_functions(threads.take(j as int)));
    }
    assert(threads.take(threads.len() as int) =~= threads);
    state.module_observers = Vec::new();
    state.thread_observers = Vec::new();
    release
}

/// A script that watches modules, after changes in a row.
pub open spec fn after_module_changes(
    observer: ModuleObserverView,
    changes: Seq<ModuleChange>,
) -> ModuleObserverView
    decreases changes.len(),
{
    if changes.len() == 0 {
        observer
    } else {
        after_module_change(after_module_changes(observer, changes.drop_last()), changes.last())
    }
}

/// A script that watches threads, after events in a row.
pub open spec fn after_thread_events(
    observer: ThreadObserverView,
    events: Seq<ThreadObserverEvent>,
) -> ThreadObserverView
    decreases events.len(),
{
    if events.len() == 0 {
        observer
    } else {
        after_thread_event(after_thread_events(observer, events.drop_last()), events.last())
    }
}

proof fn lemma_known_modules(observers: Seq<ModuleObserverView>, i: int, key: Key)
    requires
        0 <= i < observers.len(),
        has_key(observers[i].known, key),
    ensures
        has_key(all_known_modules(observers), key),
    decreases observers.len(),
{
    let front = all_known_modules(observers.drop_last());
    let all = all_known_modules(observers);
    if i < observers.len() - 1 {
        lemma_known_modules(observers.drop_last(), i, key);
        let k = choose|k: int| 0 <= k < front.len() && (#[trigger] front[k]).identity() == key;
        assert(all[k].identity() == key);
    } else {
        let own = observers[i].known;
        let k = choose|k: int| 0 <= k < own.len() && (#[trigger] own[k]).identity() == key;
        assert(all[front.len() + k].identity() == key);
    }
}

proof fn lemma_known_threads(observers: Seq<ThreadObserverView>, i: int, key: Key)
    requires
        0 <= i < observers.len(),
        has_key(observers[i].known, key),
    ensures
        has_key(all_known_threads(observers), key),
    decreases observers.len(),
{
    let front = all_known_threads(observers.drop_last());
    let all = all_known_threads(observers);
    if i < observers.len() - 1 {
        lemma_known_threads(observers.drop_last(), i, key);
        let k = choose|k: int| 0 <= k < front.len() && (#[trigger] front[k]).identity() == key;
        assert(all[k].identity() == key);
    } else {
        let own = observers[i].known;
        let k = choose|k: int| 0 <= k < own.len() && (#[trigger] own[k]).identity() == key;
        assert(all[front.len() + k].identity() == key);
    }
}

proof fn lemma_after_modules_gone(observer: ModuleObserverView, gone: Seq<ObservedModule>, key: Key)
    requires
        unique_keys(observer.known),
    ensures
        unique_keys(after_module_changes(observer, modules_gone(gone)).known),
        has_key(after_module_changes(observer, modules_gone(gone)).known, key) <==> has_key(
            observer.known,
            key,
        ) && !has_key(gone, key),
    decreases gone.len(),
{
    let changes = modules_gone(gone);
    if gone.len() > 0 {
        let front = gone.drop_last();
        assert(changes.drop_last() =~= modules_gone(front));
        lemma_after_modules_gone(observer, front, key);
        lemma_last_key(gone, key);
        let before = after_module_changes(observer, modules_gone(front));
        removing_takes_one_key(before.known, gone.last().identity());
    } else {
        assert(!has_key(gone, key));
    }
}

proof fn lemma_after_modules_come(
    observer: ModuleObserverView,
    first: Seq<ModuleChange>,
    observers: Seq<ModuleObserverView>,
    current: Seq<ObservedModule>,
    key: Key,
)
    requires
        unique_keys(after_module_changes(observer, first).known),
    ensures
        unique_keys(
            after_module_changes(observer, first + modules_come(observers, current)).known,
        ),
        has_key(
            after_module_changes(observer, first + modules_come(observers, current)).known,
            key,
        ) <==> has_key(after_module_changes(observer, first).known, key) || (has_key(current, key)
            && module_unknown(observers, key)),
    decreases current.len(),
{
    let come = modules_come(observers, current);
    if current.len() > 0 {
        let front = current.drop_last();
        let front_come = modules_come(observers, front);
        lemma_after_modules_come(observer, first, observers, front, key);
        lemma_last_key(current, key);
        if module_unknown(observers, current.last().identity()) {
            assert((first + come).drop_last() =~= first + front_come);
            assert((first + come).last() == ModuleChange::Added(current.last()));
            let before = after_module_changes(observer, first + front_come);
            placing_adds_one_key(before.known, current.last());
            assert(has_key(placed(before.known, current.last()), key) <==> has_key(
                before.known,
                key,
            ) || key == current.last().identity());
        }
    } else {
        assert(first + come =~= first);
        assert(!has_key(current, key));
    }
}

/// Once the differences have been delivered, every script that watches modules knows
/// exactly those that the process has.
pub proof fn reconciling_settles_modules(
    observers: Seq<ModuleObserverView>,
    current: Seq<ObservedModule>,
    i: int,
    key: Key,
)
    requires
        modules_known_once(observers),
        0 <= i < observers.len(),
    ensures
        has_key(
            after_module_changes(observers[i], module_differences(observers, current)).known,
            key,
        ) <==> has_key(current, key),
{
    let observer = observers[i];
    let all = all_known_modules(observers);
    let gone = keyed_out(collected(all), collected(current));
    assert(unique_keys(observers[i].known));
    collecting_keeps_the_keys(all);
    collecting_keeps_the_keys(current);
    lemma_split_keys(collected(all), collected(current));
    lemma_after_modules_gone(observer, gone, key);
    lemma_after_modules_come(observer, modules_gone(gone), observers, collected(current), key);
    assert(has_key(gone, key) <==> has_key(collected(all), key) && !has_key(
        collected(current),
        key,
    ));
    assert(has_key(collected(all), key) <==> has_key(all, key));
    assert(has_key(collected(current), key) <==> has_key(current, key));
    if has_key(observer.known, key) {
        lemma_known_modules(observers, i, key);
    } else {
        assert(module_unknown(observers, key));
    }
}

proof fn lemma_after_threads_gone(
    observer: ThreadObserverView,
    gone: Seq<ProcessThreadDetails>,
    key: Key,
)
    requires
        unique_keys(observer.known),
    ensures
        unique_keys(after_thread_events(observer, threads_gone(gone)).known),
        has_key(after_thread_events(observer, threads_gone(gone)).known, key) <==> has_key(
            observer.known,
            key,
        ) && !has_key(gone, key),
    decreases gone.len(),
{
    let events = threads_gone(gone);
    if gone.len() > 0 {
        let front = gone.drop_last();
        assert(events.drop_last() =~= threads_gone(front));
        lemma_after_threads_gone(observer, front, key);
        lemma_last_key(gone, key);
        let before = after_thread_events(observer, threads_gone(front));
        removing_takes_one_key(before.known, gone.last().identity());
    } else {
        assert(!has_key(gone, key));
    }
}

proof fn lemma_after_threads_come(
    observer: ThreadObserverView,
    first: Seq<ThreadObserverEvent>,
    observers: Seq<ThreadObserverView>,
    current: Seq<ProcessThreadDetails>,
    key: Key,
)
    requires
        unique_keys(after_thread_events(observer, first).known),
    ensures
        unique_keys(after_thread_events(observer, first + threads_come(observers, current)).known),
        has_key(after_thread_events(observer, first).known, key) || (has_key(current, key)
            && thread_unknown(observers, key)) ==> has_key(
            after_thread_events(observer, first + threads_come(observers, current)).known,
            key,
        ),
        has_key(
            after_thread_events(observer, first + threads_come(observers, current)).known,
            key,
        ) ==> has_key(after_thread_events(observer, first).known, key) || has_key(current, key),
    decreases current.len(),
{
    let come = threads_come(observers, current);
    if current.len() > 0 {
        let front = current.drop_last();
        let front_come = threads_come(observers, front);
        let thread = current.last();
        lemma_after_threads_come(observer, first, observers, front, key);
        lemma_last_key(current, key);
        let before = after_thread_events(observer, first + front_come);
        placing_adds_one_key(before.known, thread);
        assert(has_key(placed(before.known, thread), key) <==> has_key(before.known, key) || key
            == thread.identity());
        if thread_unknown(observers, thread.identity()) || earlier_name(observers, thread)
            is Some {
            assert((first + come).drop_last() =~= first + front_come);
        }
    } else {
        assert(first + come =~= first);
        assert(!has_key(current, key));
    }
}

/// Once the differences have been delivered, every script that watches threads knows
/// exactly those that the process has.
pub proof fn reconciling_settles_threads(
    observers: Seq<ThreadObserverView>,
    current: Seq<ProcessThreadDetails>,
    i: int,
    key: Key,
)
    requires
        threads_known_once(observers),
        0 <= i < observers.len(),
    ensures
        has_key(
            after_thread_events(observers[i], thread_differences(observers, current)).known,
            key,
        ) <==> has_key(current, key),
{
    let observer = observers[i];
    let all = all_known_threads(observers);
    let gone = keyed_out(collected(all), collected(current));
    assert(unique_keys(observers[i].known));
    collecting_keeps_the_keys(all);
    collecting_keeps_the_keys(current);
    lemma_split_keys(collected(all), collected(current));
    lemma_after_threads_gone(observer, gone, key);
    lemma_after_threads_come(observer, threads_gone(gone), observers, collected(current), key);
    assert(has_key(gone, key) <==> has_key(collected(all), key) && !has_key(
        collected(current),
        key,
    ));
    assert(has_key(collected(all), key) <==> has_key(all, key));
    assert(has_key(collected(current), key) <==> has_key(current, key));
    if has_key(observer.known, key) {
        lemma_known_threads(observers, i, key);
    } else {
        assert(thread_unknown(observers, key));
    }
}

/// A script is told once of a module that comes, and once that it goes: a change that it
/// has taken in means nothing to it a second time.
pub proof fn changes_are_told_once(observer: ModuleObserverView, change: ModuleChange)
    requires
        unique_keys(observer.known),
    ensures
        called_for_module(after_module_change(observer, change), change) is None,
        after_module_change(after_module_change(observer, change), change) == after_module_change(
            observer,
            change,
        ),
        unique_keys(after_module_change(observer, change).known),
{
    match change {
        ModuleChange::Added(module) => {
            placing_adds_one_key(observer.known, module);
            assert(has_key(placed(observer.known, module), module.identity()));
        },
        ModuleChange::Removed(module) => {
            removing_takes_one_key(observer.known, module.identity());
            assert(!has_key(without_key(observer.known, module.identity()), module.identity()));
        },
    }
}

/// A script is told once of a thread that starts, once that it ends, and once of a new name.
pub proof fn thread_events_are_told_once(observer: ThreadObserverView, event: ThreadObserverEvent)
    requires
        unique_keys(observer.known),
    ensures
        called_for_thread(after_thread_event(observer, event), event) is None,
        unique_keys(after_thread_event(observer, event).known),
{
    match event {
        ThreadObserverEvent::Added(thread) => {
            placing_adds_one_key(observer.known, thread);
            assert(has_key(placed(observer.known, thread), thread.identity()));
        },
        ThreadObserverEvent::Removed(thread) => {
            removing_takes_one_key(observer.known, thread.identity());
            assert(!has_key(without_key(observer.known, thread.identity()), thread.identity()));
        },
        ThreadObserverEvent::Renamed { thread, .. } => {
            placing_adds_one_key(observer.known, thread);
            let after = placed(observer.known, thread);
            assert(has_key(after, thread.identity()));
            let at = position(after, thread.identity());
            let k = choose|k: int| 0 <= k < after.len() && after[k] == thread;
            assert(after[at].identity() == after[k].identity());
            if at < k {
                assert(after[at].identity() != after[k].identity());
            } else if k < at {
                assert(after[k].identity() != after[at].identity());
            }
            assert(after[at] == thread);
        },
    }
}

/// The newest events wait, in the order in which they came: what the queue holds is the end
/// of what it held with the new event behind it.
pub proof fn queue_keeps_the_newest_events(
    events: Seq<QueuedProcessObserverEvent>,
    event: QueuedProcessObserverEvent,
)
    requires
        events.len() <= PROCESS_OBSERVER_QUEUE_CAPACITY,
    ensures
        queued(events, event).len() <= PROCESS_OBSERVER_QUEUE_CAPACITY,
        queued(events, event).last() == event,
        exists|dropped: int|
            0 <= dropped <= 1 && queued(events, event) == #[trigger] events.push(event).skip(
                dropped,
            ),
{
    if events.len() == PROCESS_OBSERVER_QUEUE_CAPACITY {
        assert(queued(events, event) =~= events.push(event).skip(1));
    } else {
        assert(queued(events, event) =~= events.push(event).skip(0));
    }
}

/// A module is told from others by its path and its base, a thread by its number.
pub proof fn keys_tell_modules_and_threads_apart(
    left: ObservedModule,
    right: ObservedModule,
    thread: ProcessThreadDetails,
    other: ProcessThreadDetails,
)
    ensures
        left.identity() == right.identity() <==> left.identity_path@ == right.identity_path@
            && left.details.base == right.details.base,
        thread.identity() == other.identity() <==> thread.id == other.id,
{
}

/// A script is called by the function for what happened, and only if it is news: by that
/// for a new module if it did not know it, by that for one that is gone if it did.
pub proof fn scripts_are_told_of_modules_by_the_right_function(
    observer: ModuleObserverView,
    module: ObservedModule,
)
    ensures
        (forall|i: int|
            0 <= i < observer.known.len() ==> (#[trigger] observer.known[i]).identity()
                != module.identity()) ==> {
            &&& called_for_module(observer, ModuleChange::Added(module)) == observer.on_added
            &&& called_for_module(observer, ModuleChange::Removed(module)) is None
            &&& after_module_change(observer, ModuleChange::Added(module)).known
                == observer.known.push(module)
            &&& after_module_change(observer, ModuleChange::Removed(module)).known
                == observer.known
        },
        (exists|i: int|
            0 <= i < observer.known.len() && (#[trigger] observer.known[i]).identity()
                == module.identity()) ==> {
            &&& called_for_module(observer, ModuleChange::Added(module)) is None
            &&& called_for_module(observer, ModuleChange::Removed(module)) == observer.on_removed
            &&& after_module_change(observer, ModuleChange::Added(module)) == observer
        },
        after_module_change(observer, ModuleChange::Removed(module)).id == observer.id,
        after_module_change(observer, ModuleChange::Removed(module)).on_added == observer.on_added,
        after_module_change(observer, ModuleChange::Removed(module)).on_removed
            == observer.on_removed,
{
}

/// A script is called by the function for what happened to a thread, and only if it is news;
/// of a new name it is told only if it knew the thread under another one.
pub proof fn scripts_are_told_of_threads_by_the_right_function(
    observer: ThreadObserverView,
    thread: ProcessThreadDetails,
    previous_name: Option<String>,
    at: int,
)
    requires
        unique_keys(observer.known),
    ensures
        (forall|i: int|
            0 <= i < observer.known.len() ==> (#[trigger] observer.known[i]).id != thread.id) ==> {
            let renamed = ThreadObserverEvent::Renamed { thread, previous_name };
            &&& called_for_thread(observer, ThreadObserverEvent::Added(thread)) == observer.on_added
            &&& called_for_thread(observer, ThreadObserverEvent::Removed(thread)) is None
            &&& called_for_thread(observer, renamed) is None
            &&& after_thread_event(observer, ThreadObserverEvent::Added(thread)).known
                == observer.known.push(thread)
        },
        0 <= at < observer.known.len() && observer.known[at].id == thread.id ==> {
            let renamed = ThreadObserverEvent::Renamed { thread, previous_name };
            let known = observer.known[at];
            let same = known.name is Some && thread.name is Some && known.name->0@
                == thread.name->0@ || known.name is None && thread.name is None;
            &&& called_for_thread(observer, ThreadObserverEvent::Added(thread)) is None
            &&& called_for_thread(observer, ThreadObserverEvent::Removed(thread))
                == observer.on_removed
            &&& !same ==> called_for_thread(observer, renamed) == observer.on_renamed
            &&& same ==> called_for_thread(observer, renamed) is None
            &&& after_thread_event(observer, renamed).known == observer.known.update(at, thread)
        },
{
    if 0 <= at < observer.known.len() && observer.known[at].id == thread.id {
        assert(observer.known[at].identity() == thread.identity());
        assert(has_key(observer.known, thread.identity()));
        let place = position(observer.known, thread.identity());
        assert(observer.known[place].identity() == thread.identity());
        assert(place == at);
    }
    if forall|i: int|
        0 <= i < observer.known.len() ==> (#[trigger] observer.known[i]).id != thread.id {
        assert(!has_key(observer.known, thread.identity()));
    }
}

/// Scripts are called in their order, each once at most.
pub proof fn scripts_are_called_in_their_order(
    modules: Seq<ModuleObserverView>,
    module: ModuleObserverView,
    change: ModuleChange,
    threads: Seq<ThreadObserverView>,
    thread: ThreadObserverView,
    event: ThreadObserverEvent,
)
    ensures
        module_calls(Seq::empty(), change) == Seq::<Callback>::empty(),
        called_for_module(module, change) matches Some(callback) ==> module_calls(
            modules.push(module),
            change,
        ) == module_calls(modules, change).push(callback),
        called_for_module(module, change) is None ==> module_calls(modules.push(module), change)
            == module_calls(modules, change),
        thread_calls(Seq::empty(), event) == Seq::<Callback>::empty(),
        called_for_thread(thread, event) matches Some(callback) ==> thread_calls(
            threads.push(thread),
            event,
        ) == thread_calls(threads, event).push(callback),
        called_for_thread(thread, event) is None ==> thread_calls(threads.push(thread), event)
            == thread_calls(threads, event),
{
    assert(modules.push(module).drop_last() =~= modules);
    assert(threads.push(thread).drop_last() =~= threads);
}

/// Up to 4096 events wait. Only where there are as many does the oldest give way.
pub proof fn only_a_full_queue_drops_its_oldest_event(
    events: Seq<QueuedProcessObserverEvent>,
    event: QueuedProcessObserverEvent,
)
    ensures
        events.len() < 4096 ==> queued(events, event) == events.push(event),
        events.len() == 4096 ==> queued(events, event) == events.skip(1).push(event),
{
    if events.len() == 4096 {
        assert(events.drop_first() =~= events.skip(1));
    }
}

/// The waiting events of one sort are all of that sort, in their order.
pub proof fn events_are_told_apart_by_their_sort(events: Seq<QueuedProcessObserverEvent>)
    ensures
        events_of_sort(events, true) == events.filter(
            |e: QueuedProcessObserverEvent| e is Module,
        ),
        events_of_sort(events, false) == events.filter(
            |e: QueuedProcessObserverEvent| !(e is Module),
        ),
    decreases events.len(),
{
    reveal(Seq::filter);
    if events.len() > 0 {
        events_are_told_apart_by_their_sort(events.drop_last());
    }
}

/// Numbers of scripts follow one another; behind the largest comes one, never zero.
pub proof fn numbers_of_scripts_pass_over_zero(id: u32)
    requires
        id >= 1,
    ensures
        id_after(id, 0) == id,
        id < 0xffff_ffff ==> id_after(id, 1) == id + 1,
        id == 0xffff_ffff ==> id_after(id, 1) == 1,
{
}

/// A comparison with the process is due if there was none yet or the last one was fifty
/// milliseconds ago.
pub proof fn comparisons_are_fifty_milliseconds_apart(state: ProcessObserverState, now: u64)
    ensures
        state.last_reconcile is None ==> state.due(now),
        state.last_reconcile matches Some(last) ==> (state.due(now) <==> now - last >= 50 * 1_000_000),
{
}

/// What has gone is told before what has come. What has gone are the modules that some
/// script knows and the process has not, what has come those that the process has and some
/// script does not know.
pub proof fn differences_are_what_scripts_do_not_know(
    observers: Seq<ModuleObserverView>,
    current: Seq<ObservedModule>,
    at: int,
)
    requires
        0 <= at < module_differences(observers, current).len(),
    ensures
        module_differences(observers, current)[at] matches ModuleChange::Removed(module)
            ==> !has_key(current, module.identity()) && (exists|i: int|
            0 <= i < observers.len() && has_key(
                (#[trigger] observers[i]).known,
                module.identity(),
            )),
        module_differences(observers, current)[at] matches ModuleChange::Added(module) ==> has_key(
            current,
            module.identity(),
        ) && (exists|i: int|
            0 <= i < observers.len() && !has_key(
                (#[trigger] observers[i]).known,
                module.identity(),
            )),
{
    let all = all_known_modules(observers);
    let gone = keyed_out(collected(all), collected(current));
    collecting_keeps_the_keys(all);
    collecting_keeps_the_keys(current);
    lemma_split_keys(collected(all), collected(current));
    if at < gone.len() {
        let module = gone[at];
        assert(has_key(gone, module.identity()));
        assert(has_key(all, module.identity()));
        lemma_known_by_some(observers, module.identity());
    } else {
        let list = collected(current);
        lemma_come_are_unknown(observers, list, at - gone.len());
        let come = modules_come(observers, list);
        assert(module_differences(observers, current)[at] == come[at - gone.len()]);
        let module = come[at - gone.len()]->Added_0;
        assert(has_key(list, module.identity()));
    }
}

proof fn lemma_known_by_some(observers: Seq<ModuleObserverView>, key: Key)
    requires
        has_key(all_known_modules(observers), key),
    ensures
        exists|i: int| 0 <= i < observers.len() && has_key((#[trigger] observers[i]).known, key),
    decreases observers.len(),
{
    let front = observers.drop_last();
    let all = all_known_modules(observers);
    let before = all_known_modules(front);
    let k = choose|k: int| 0 <= k < all.len() && (#[trigger] all[k]).identity() == key;
    if k < before.len() {
        assert(before[k].identity() == key);
        lemma_known_by_some(front, key);
        let i = choose|i: int| 0 <= i < front.len() && has_key((#[trigger] front[i]).known, key);
        assert(observers[i] == front[i]);
    } else {
        let last = observers.last().known;
        assert(last[k - before.len()].identity() == key);
        assert(has_key(observers[observers.len() - 1].known, key));
    }
}

proof fn lemma_come_are_unknown(
    observers: Seq<ModuleObserverView>,
    current: Seq<ObservedModule>,
    at: int,
)
    requires
        0 <= at < modules_come(observers, current).len(),
    ensures
        modules_come(observers, current)[at] matches ModuleChange::Added(module) && has_key(
            current,
            module.identity(),
        ) && module_unknown(observers, module.identity()),
    decreases current.len(),
{
    let front = current.drop_last();
    let before = modules_come(observers, front);
    if at < before.len() {
        lemma_come_are_unknown(observers, front, at);
        let key = before[at]->Added_0.identity();
        let i = choose|i: int| 0 <= i < front.len() && (#[trigger] front[i]).identity() == key;
        assert(current[i].identity() == key);
    } else {
        assert(current[current.len() - 1].identity() == current.last().identity());
    }
}

/// The functions to release are those that are there.
pub proof fn functions_to_release_are_those_that_are_there(
    callbacks: Seq<Option<Callback>>,
    callback: Callback,
)
    ensures
        present(Seq::empty()) == Seq::<Callback>::empty(),
        present(callbacks.push(Some(callback))) == present(callbacks).push(callback),
        present(callbacks.push(None)) == present(callbacks),
{
    assert(callbacks.push(Some(callback)).drop_last() =~= callbacks);
    assert(callbacks.push(None).drop_last() =~= callbacks);
}

/// To watch, a script gives an object with at least one function, and nothing but functions.
pub proof fn watching_needs_a_function(
    is_object: bool,
    on_added: CallbackArgument,
    on_removed: CallbackArgument,
    on_renamed: CallbackArgument,
    backend: bool,
)
    ensures
        module_callbacks_problem(is_object, on_added, on_removed, backend) is None <==> {
            &&& is_object && backend
            &&& !(on_added is Other) && !(on_removed is Other)
            &&& on_added is Function || on_removed is Function
        },
        thread_callbacks_problem(is_object, on_added, on_removed, on_renamed, backend) is None <==> {
            &&& is_object && backend
            &&& !(on_added is Other) && !(on_removed is Other) && !(on_renamed is Other)
            &&& on_added is Function || on_removed is Function || on_renamed is Function
        },
{
}

/// What has come to threads: each that some script does not know is told as new, and each
/// that all know but one under another name as renamed, with the name that the first such
/// script knows.
pub proof fn thread_differences_are_told_by_what_is_known(
    observers: Seq<ThreadObserverView>,
    current: Seq<ProcessThreadDetails>,
    thread: ProcessThreadDetails,
)
    ensures
        threads_come(observers, Seq::empty()) == Seq::<ThreadObserverEvent>::empty(),
        (exists|i: int|
            0 <= i < observers.len() && !has_key(
                (#[trigger] observers[i]).known,
                thread.identity(),
            )) ==> threads_come(observers, current.push(thread)) == threads_come(
            observers,
            current,
        ).push(ThreadObserverEvent::Added(thread)),
        (forall|i: int|
            0 <= i < observers.len() ==> has_key((#[trigger] observers[i]).known, thread.identity()))
            && earlier_name(observers, thread) is Some ==> threads_come(
            observers,
            current.push(thread),
        ) == threads_come(observers, current).push(
            ThreadObserverEvent::Renamed {
                thread,
                previous_name: earlier_name(observers, thread)->0,
            },
        ),
        (forall|i: int|
            0 <= i < observers.len() ==> has_key((#[trigger] observers[i]).known, thread.identity()))
            && earlier_name(observers, thread) is None ==> threads_come(
            observers,
            current.push(thread),
        ) == threads_come(observers, current),
{
    assert(current.push(thread).drop_last() =~= current);
}

/// The functions of all scripts are released, those of each in their order.
pub proof fn all_functions_are_released(
    modules: Seq<ModuleObserverView>,
    module: ModuleObserverView,
    threads: Seq<ThreadObserverView>,
    thread: ThreadObserverView,
)
    ensures
        module_functions(Seq::empty()) == Seq::<Callback>::empty(),
        module_functions(modules.push(module)) == module_functions(modules) + present(
            seq![module.on_added, module.on_removed],
        ),
        thread_functions(Seq::empty()) == Seq::<Callback>::empty(),
        thread_functions(threads.push(thread)) == thread_functions(threads) + present(
            seq![thread.on_added, thread.on_removed, thread.on_renamed],
        ),
{
    assert(modules.push(module).drop_last() =~= modules);
    assert(threads.push(thread).drop_last() =~= threads);
}

/// The number for a new script is free, and all numbers that would have come before it are
/// used.
pub proof fn new_numbers_are_the_first_free_ones(
    state: ProcessObserverState,
    id: u32,
    steps: nat,
    earlier: nat,
)
    requires
        state.wf(),
        first_free(state, id, steps),
    ensures
        id >= 1,
        !state.id_used(id),
        id == (state.next_id - 1 + steps) % 0xffff_ffff + 1,
        earlier < steps ==> state.id_used(
            ((state.next_id - 1 + earlier) % 0xffff_ffff + 1) as u32,
        ),
{
    if earlier < steps {
        assert(state.id_used(id_after(state.next_id, earlier)));
    }
}

/// Changes in a row are taken in one after another.
pub proof fn changes_are_taken_in_one_after_another(
    observer: ModuleObserverView,
    changes: Seq<ModuleChange>,
    change: ModuleChange,
    watcher: ThreadObserverView,
    events: Seq<ThreadObserverEvent>,
    event: ThreadObserverEvent,
)
    ensures
        after_module_changes(observer, Seq::empty()) == observer,
        after_module_changes(observer, changes.push(change)) == after_module_change(
            after_module_changes(observer, changes),
            change,
        ),
        after_thread_events(watcher, Seq::empty()) == watcher,
        after_thread_events(watcher, events.push(event)) == after_thread_event(
            after_thread_events(watcher, events),
            event,
        ),
{
    assert(changes.push(change).drop_last() =~= changes);
    assert(events.push(event).drop_last() =~= events);
}

/// What a thread was called before is what the first script knows that knows it by another
/// name.
pub proof fn earlier_names_are_those_that_scripts_know(
    observers: Seq<ThreadObserverView>,
    observer: ThreadObserverView,
    thread: ProcessThreadDetails,
    at: int,
)
    requires
        unique_keys(observer.known),
    ensures
        earlier_name(Seq::empty(), thread) is None,
        earlier_name(observers, thread) is Some ==> earlier_name(observers.push(observer), thread)
            == earlier_name(observers, thread),
        earlier_name(observers, thread) is None && 0 <= at < observer.known.len()
            && observer.known[at].id == thread.id && optional_text(observer.known[at].name)
            != optional_text(thread.name) ==> earlier_name(observers.push(observer), thread)
            == Some(observer.known[at].name),
        earlier_name(observers, thread) is None && 0 <= at < observer.known.len()
            && observer.known[at].id == thread.id && optional_text(observer.known[at].name)
            == optional_text(thread.name) ==> earlier_name(observers.push(observer), thread) is None,
{
    assert(observers.push(observer).drop_last() =~= observers);
    if 0 <= at < observer.known.len() && observer.known[at].id == thread.id {
        assert(observer.known[at].identity() == thread.identity());
        assert(has_key(observer.known, thread.identity()));
        let place = position(observer.known, thread.identity());
        assert(observer.known[place].identity() == thread.identity());
        assert(place == at);
    }
}

} // verus!
