//! Hooks on functions and the listeners on top of them.

use vstd::prelude::*;
use vstd::string::*;

verus! {

pub const HOOK_OK: i32 = 0;

pub const HOOK_ERROR_NOT_INITIALIZED: i32 = -1;

pub const HOOK_ERROR_INVALID_PARAM: i32 = -2;

pub const HOOK_ERROR_ALREADY_HOOKED: i32 = -3;

pub const HOOK_ERROR_ALLOC_FAILED: i32 = -4;

pub const HOOK_ERROR_MPROTECT_FAILED: i32 = -5;

pub const HOOK_ERROR_NOT_FOUND: i32 = -6;

pub const HOOK_ERROR_BUFFER_TOO_SMALL: i32 = -7;

pub const HOOK_ERROR_WXSHADOW_FAILED: i32 = -8;

/// The text for a code of the hook engine, with the terminator that C wants.
pub open spec fn hook_error_text(code: i32) -> Seq<char> {
    if code == HOOK_ERROR_NOT_INITIALIZED {
        "hook engine not initialized\0"@
    } else if code == HOOK_ERROR_INVALID_PARAM {
        "invalid parameter\0"@
    } else if code == HOOK_ERROR_ALREADY_HOOKED {
        "address already hooked\0"@
    } else if code == HOOK_ERROR_ALLOC_FAILED {
        "memory allocation failed\0"@
    } else if code == HOOK_ERROR_MPROTECT_FAILED {
        "mprotect failed: cannot change memory protection\0"@
    } else if code == HOOK_ERROR_NOT_FOUND {
        "hook not found at address\0"@
    } else if code == HOOK_ERROR_BUFFER_TOO_SMALL {
        "buffer too small for jump instruction\0"@
    } else if code == HOOK_ERROR_WXSHADOW_FAILED {
        "wxshadow prctl write failed: load hook_module.ko + wxshadow_module.ko with kernel_hook/loader\0"@
    } else {
        "unknown hook error\0"@
    }
}

/// The text for a code of the hook engine, with the terminator that C wants.
pub fn hook_error_message(code: i32) -> (text: &'static str)
    ensures
        text@ == hook_error_text(code),
{
    if code == HOOK_ERROR_NOT_INITIALIZED {
        "hook engine not initialized\0"
    } else if code == HOOK_ERROR_INVALID_PARAM {
        "invalid parameter\0"
    } else if code == HOOK_ERROR_ALREADY_HOOKED {
        "address already hooked\0"
    } else if code == HOOK_ERROR_ALLOC_FAILED {
        "memory allocation failed\0"
    } else if code == HOOK_ERROR_MPROTECT_FAILED {
        "mprotect failed: cannot change memory protection\0"
    } else if code == HOOK_ERROR_NOT_FOUND {
        "hook not found at address\0"
    } else if code == HOOK_ERROR_BUFFER_TOO_SMALL {
        "buffer too small for jump instruction\0"
    } else if code == HOOK_ERROR_WXSHADOW_FAILED {
        "wxshadow prctl write failed: load hook_module.ko + wxshadow_module.ko with kernel_hook/loader\0"
    } else {
        "unknown hook error\0"
    }
}

/// How a hook hides.
#[derive(Debug, Clone, Copy, PartialEq, Eq, Structural)]
pub enum StealthMode {
    /// The code itself is patched.
    Normal,
    /// The patch is visible to execution only.
    WxShadow,
    /// The hook sits on a recompiled copy of the page.
    Recomp,
}

impl StealthMode {
    /// The number by which scripts know the mode.
    pub open spec fn number(self) -> i32 {
        match self {
            StealthMode::Normal => 0,
            StealthMode::WxShadow => 1,
            StealthMode::Recomp => 2,
        }
    }

    /// The number by which scripts know the mode.
    pub fn value(self) -> (number: i32)
        ensures
            number == self.number(),
    {
        match self {
            StealthMode::Normal => 0,
            StealthMode::WxShadow => 1,
            StealthMode::Recomp => 2,
        }
    }

    /// The mode for a script's argument; numbers without a mode stand for the first.
    pub fn from_js_arg(val: i64) -> (mode: StealthMode)
        ensures
            0 <= val <= 2 ==> mode.number() == val,
            !(0 <= val <= 2) ==> mode == StealthMode::Normal,
    {
        if val == 1 {
            StealthMode::WxShadow
        } else if val == 2 {
            StealthMode::Recomp
        } else {
            StealthMode::Normal
        }
    }
}

/// What a hook does when its function is called.
#[derive(Debug, Clone, Copy, PartialEq, Eq, Structural)]
pub enum HookKind {
    /// The script function runs in place of the function.
    Replace,
    /// The function runs, with a script function before and one behind it.
    Attach,
    /// The function runs, with any number of listeners before and behind it.
    Interceptor,
}

/// A hook. Script functions are kept as the bytes of their values.
#[derive(Clone, Copy, Debug)]
pub struct HookData {
    pub ctx: u64,
    pub callback_bytes: [u8; 16],
    pub on_leave_bytes: [u8; 16],
    pub has_on_enter: bool,
    pub has_on_leave: bool,
    /// Where the original function can be called.
    pub trampoline: u64,
    pub kind: HookKind,
    pub mode: StealthMode,
    pub recomp_addr: u64,
    pub native_attach_data: u64,
}

/// A listener on the calls of a function. Script functions are kept as the bytes of
/// their values.
#[derive(Clone, Copy, Debug)]
pub struct InterceptorListenerData {
    pub id: u64,
    pub target: u64,
    pub ctx: u64,
    pub on_enter_bytes: [u8; 16],
    pub on_leave_bytes: [u8; 16],
    pub has_on_enter: bool,
    pub has_on_leave: bool,
}

/// The listeners on a target, in the order in which they were attached.
pub open spec fn listeners_on(
    listeners: Seq<InterceptorListenerData>,
    target: u64,
) -> Seq<InterceptorListenerData>
    decreases listeners.len(),
{
    if listeners.len() == 0 {
        Seq::empty()
    } else {
        let front = listeners_on(listeners.drop_last(), target);
        if listeners.last().target == target {
            front.push(listeners.last())
        } else {
            front
        }
    }
}

/// Whether the listener at a position is on the target and has the id.
pub open spec fn is_listener(
    listeners: Seq<InterceptorListenerData>,
    index: int,
    target: u64,
    id: u64,
) -> bool {
    &&& 0 <= index < listeners.len()
    &&& listeners[index].target == target
    &&& listeners[index].id == id
}

/// Whether a listener is attached.
pub open spec fn listening(listeners: Seq<InterceptorListenerData>, target: u64, id: u64) -> bool {
    exists|index: int| #[trigger] is_listener(listeners, index, target, id)
}

proof fn lemma_listeners_on_concat(
    left: Seq<InterceptorListenerData>,
    right: Seq<InterceptorListenerData>,
    target: u64,
)
    ensures
        listeners_on(left + right, target) == listeners_on(left, target) + listeners_on(
            right,
            target,
        ),
    decreases right.len(),
{
    if right.len() == 0 {
        assert(left + right =~= left);
        assert(listeners_on(left, target) + listeners_on(right, target) =~= listeners_on(
            left,
            target,
        ));
    } else {
        assert((left + right).drop_last() =~= left + right.drop_last());
        lemma_listeners_on_concat(left, right.drop_last(), target);
        assert(listeners_on(left + right, target) =~= listeners_on(left, target) + listeners_on(
            right,
            target,
        ));
    }
}

/// Detaching a listener leaves the listeners on other targets alone, and takes it out
/// from between the others on its own target without changing their order.
pub proof fn detaching_is_independent(
    listeners: Seq<InterceptorListenerData>,
    index: int,
    target: u64,
)
    requires
        0 <= index < listeners.len(),
    ensures
        listeners[index].target != target ==> listeners_on(listeners.remove(index), target)
            == listeners_on(listeners, target),
        listeners[index].target == target ==> {
            &&& listeners_on(listeners, target) == listeners_on(listeners.take(index), target).push(
                listeners[index],
            ) + listeners_on(listeners.skip(index + 1), target)
            &&& listeners_on(listeners.remove(index), target) == listeners_on(
                listeners.take(index),
                target,
            ) + listeners_on(listeners.skip(index + 1), target)
        },
{
    let front = listeners.take(index);
    let back = listeners.skip(index + 1);
    let middle = seq![listeners[index]];
    assert(listeners =~= (front + middle) + back);
    assert(listeners.remove(index) =~= front + back);
    lemma_listeners_on_concat(front + middle, back, target);
    lemma_listeners_on_concat(front, back, target);
    assert((front + middle).drop_last() =~= front);
    assert((front + middle).last() == listeners[index]);
}

/// Listeners that were attached one after the other are called in that order.
pub proof fn attaching_keeps_the_order(
    listeners: Seq<InterceptorListenerData>,
    listener: InterceptorListenerData,
    target: u64,
)
    ensures
        listeners_on(listeners.push(listener), target) == if listener.target == target {
            listeners_on(listeners, target).push(listener)
        } else {
            listeners_on(listeners, target)
        },
{
    assert(listeners.push(listener).drop_last() =~= listeners);
}

/// All listeners.
#[derive(Debug)]
pub struct ListenerRegistry {
    pub listeners: Vec<InterceptorListenerData>,
    pub next_id: u64,
}

/// What detaching a listener yields.
#[derive(Debug)]
pub struct RemovedListener {
    pub removed: Option<InterceptorListenerData>,
    /// Whether the target has no listeners left.
    pub target_is_empty: bool,
}

/// A listener with another id.
pub open spec fn with_id(listener: InterceptorListenerData, id: u64) -> InterceptorListenerData {
    InterceptorListenerData { id, ..listener }
}

impl ListenerRegistry {
    pub fn new() -> (registry: ListenerRegistry)
        ensures
            registry.listeners@.len() == 0,
            registry.next_id == 1,
    {
        ListenerRegistry { listeners: Vec::new(), next_id: 1 }
    }

    /// Attaches a listener and gives it an id, which is never zero.
    pub fn add_interceptor_listener(&mut self, listener: InterceptorListenerData) -> (id: u64)
        ensures
            id == if old(self).next_id == 0 {
                1
            } else {
                old(self).next_id
            },
            final(self).next_id == if id == u64::MAX {
                0
            } else {
                (id + 1) as u64
            },
            final(self).listeners@ == old(self).listeners@.push(with_id(listener, id)),
            listening(final(self).listeners@, listener.target, id),
    {
        let id: u64 = if self.next_id == 0 {
            1
        } else {
            self.next_id
        };
        self.next_id = id.wrapping_add(1);
        let mut listener: InterceptorListenerData = listener;
        listener.id = id;
        self.listeners.push(listener);
        assert(is_listener(self.listeners@, self.listeners@.len() - 1, listener.target, id));
        id
    }

    /// The listeners on a target, in the order in which they were attached.
    pub fn interceptor_listener_snapshot(&self, target: u64) -> (snapshot: Vec<
        InterceptorListenerData,
    >)
        ensures
            snapshot@ == listeners_on(self.listeners@, target),
    {
        let mut snapshot: Vec<InterceptorListenerData> = Vec::new();
        let mut i: usize = 0;
        assert(self.listeners@.take(0) =~= Seq::<InterceptorListenerData>::empty());
        while i < self.listeners.len()
            invariant
                i <= self.listeners@.len(),
                snapshot@ == listeners_on(self.listeners@.take(i as int), target),
            decreases self.listeners@.len() - i,
        {
            assert(self.listeners@.take(i + 1).drop_last() =~= self.listeners@.take(i as int));
            if self.listeners[i].target == target {
                snapshot.push(self.listeners[i]);
            }
            i = i + 1;
        }
        assert(self.listeners@.take(self.listeners@.len() as int) =~= self.listeners@);
        snapshot
    }

    /// Whether a listener is attached.
    pub fn interceptor_listener_is_active(&self, target: u64, listener_id: u64) -> (active: bool)
        ensures
            active == listening(self.listeners@, target, listener_id),
    {
        match self.position(target, listener_id) {
            Some(index) => {
                assert(is_listener(self.listeners@, index as int, target, listener_id));
                true
            },
            None => false,
        }
    }

    fn position(&self, target: u64, listener_id: u64) -> (index: Option<usize>)
        ensures
            index matches Some(i) ==> is_listener(self.listeners@, i as int, target, listener_id)
                && forall|k: int| 0 <= k < i ==> !is_listener(self.listeners@, k, target, listener_id),
            index is None ==> !listening(self.listeners@, target, listener_id),
    {
        let mut i: usize = 0;
        while i < self.listeners.len()
            invariant
                i <= self.listeners@.len(),
                forall|k: int|
                    0 <= k < i ==> !is_listener(self.listeners@, k, target, listener_id),
            decreases self.listeners@.len() - i,
        {
            if self.listeners[i].target == target && self.listeners[i].id == listener_id {
                return Some(i);
            }
            i = i + 1;
        }
        None
    }

    fn has_listeners(&self, target: u64) -> (found: bool)
        ensures
            found == (listeners_on(self.listeners@, target).len() > 0),
    {
        let snapshot: Vec<InterceptorListenerData> = self.interceptor_listener_snapshot(target);
        snapshot.len() > 0
    }

    /// Detaches a listener.
    pub fn remove_interceptor_listener(&mut self, target: u64, listener_id: u64) -> (result:
        RemovedListener)
        ensures
            final(self).next_id == old(self).next_id,
            result.target_is_empty == (listeners_on(final(self).listeners@, target).len() == 0),
            match result.removed {
                None => {
                    &&& !listening(old(self).listeners@, target, listener_id)
                    &&& *final(self) == *old(self)
                },
                Some(listener) => exists|index: int|
                    {
                        &&& #[trigger] is_listener(
                            old(self).listeners@,
                            index,
                            target,
                            listener_id,
                        )
                        &&& forall|k: int|
                            0 <= k < index ==> !is_listener(
                                old(self).listeners@,
                                k,
                                target,
                                listener_id,
                            )
                        &&& listener == old(self).listeners@[index]
                        &&& final(self).listeners@ == old(self).listeners@.remove(index)
                    },
            },
    {
        let removed: Option<InterceptorListenerData> = match self.position(target, listener_id) {
            None => None,
            Some(index) => {
                assert(is_listener(self.listeners@, index as int, target, listener_id));
                Some(self.listeners.remove(index))
            },
        };
        let target_is_empty: bool = !self.has_listeners(target);
        RemovedListener { removed, target_is_empty }
    }

    /// Detaches all listeners from a target.
    pub fn take_interceptor_listeners(&mut self, target: u64) -> (taken: Vec<
        InterceptorListenerData,
    >)
        ensures
            final(self).next_id == old(self).next_id,
            taken@ == listeners_on(old(self).listeners@, target),
            forall|other: u64|
                #![trigger listeners_on(final(self).listeners@, other)]
                listeners_on(final(self).listeners@, other) == if other == target {
                    Seq::<InterceptorListenerData>::empty()
                } else {
                    listeners_on(old(self).listeners@, other)
                },
    {
        let mut all: Vec<InterceptorListenerData> = Vec::new();
        core::mem::swap(&mut self.listeners, &mut all);
        let ghost before = all@;
        let mut taken: Vec<InterceptorListenerData> = Vec::new();
        let mut i: usize = 0;
        assert(before.take(0) =~= Seq::<InterceptorListenerData>::empty());
        while i < all.len()
            invariant
                i <= all@.len(),
                all@ == before,
                self.next_id == old(self).next_id,
                taken@ == listeners_on(before.take(i as int), target),
                forall|other: u64|
                    #![trigger listeners_on(self.listeners@, other)]
                    listeners_on(self.listeners@, other) == if other == target {
                        Seq::<InterceptorListenerData>::empty()
                    } else {
                        listeners_on(before.take(i as int), other)
                    },
            decreases all@.len() - i,
        {
            assert(before.take(i + 1).drop_last() =~= before.take(i as int));
            let listener: InterceptorListenerData = all[i];
            let ghost kept = self.listeners@;
            if listener.target == target {
                taken.push(listener);
            } else {
                self.listeners.push(listener);
                assert(self.listeners@.drop_last() =~= kept);
                assert forall|other: u64|
                    #![trigger listeners_on(self.listeners@, other)]
                    listeners_on(self.listeners@, other) == if other == target {
                        Seq::<InterceptorListenerData>::empty()
                    } else {
                        listeners_on(before.take(i + 1), other)
                    } by {
                    assert(listeners_on(kept, other) == if other == target {
                        Seq::<InterceptorListenerData>::empty()
                    } else {
                        listeners_on(before.take(i as int), other)
                    });
                }
            }
            i = i + 1;
        }
        assert(before.take(before.len() as int) =~= before);
        taken
    }

    /// Detaches all listeners.
    pub fn take_all_interceptor_listeners(&mut self) -> (taken: Vec<InterceptorListenerData>)
        ensures
            final(self).next_id == old(self).next_id,
            final(self).listeners@.len() == 0,
            taken@ == old(self).listeners@,
    {
        let mut taken: Vec<InterceptorListenerData> = Vec::new();
        core::mem::swap(&mut self.listeners, &mut taken);
        taken
    }
}

/// The texts for the codes of the hook engine, which count down from minus one; all other
/// codes have one text.
pub proof fn hook_errors_are_told_by_their_codes(code: i32)
    ensures
        code == -1 ==> hook_error_text(code) == "hook engine not initialized\0"@,
        code == -2 ==> hook_error_text(code) == "invalid parameter\0"@,
        code == -3 ==> hook_error_text(code) == "address already hooked\0"@,
        code == -4 ==> hook_error_text(code) == "memory allocation failed\0"@,
        code == -5 ==> hook_error_text(code) == "mprotect failed: cannot change memory protection\0"@,
        code == -6 ==> hook_error_text(code) == "hook not found at address\0"@,
        code == -7 ==> hook_error_text(code) == "buffer too small for jump instruction\0"@,
        code == -8 ==> hook_error_text(code)
            == "wxshadow prctl write failed: load hook_module.ko + wxshadow_module.ko with kernel_hook/loader\0"@,
        code < -8 || code >= 0 ==> hook_error_text(code) == "unknown hook error\0"@,
{
}

/// Modes are numbered as scripts know them.
pub proof fn modes_are_numbered(mode: StealthMode)
    ensures
        mode is Normal ==> mode.number() == 0,
        mode is WxShadow ==> mode.number() == 1,
        mode is Recomp ==> mode.number() == 2,
{
}

/// The listeners on a target are all those with that target, in the order in which they
/// were attached.
pub proof fn listeners_are_those_of_the_target(
    listeners: Seq<InterceptorListenerData>,
    target: u64,
)
    ensures
        listeners_on(listeners, target) == listeners.filter(
            |l: InterceptorListenerData| l.target == target,
        ),
    decreases listeners.len(),
{
    reveal(Seq::filter);
    if listeners.len() > 0 {
        listeners_are_those_of_the_target(listeners.drop_last(), target);
    }
}

} // verus!
