//! Values that the instrumentation engine hands out.

use crate::events::NativePointer;
use vstd::prelude::*;
use vstd::slice::slice_subrange;

verus! {

/// The most bytes that a decoded instruction has room for.
pub const INSTRUCTION_ROOM: usize = 24;

/// One decoded instruction.
#[derive(Clone, Copy, Debug)]
pub struct Insn {
    pub address: u64,
    pub size: u16,
    pub bytes: [u8; INSTRUCTION_ROOM],
}

impl Insn {
    /// How many bytes the instruction takes.
    pub fn len(&self) -> (length: usize)
        ensures
            length == self.size,
    {
        self.size as usize
    }

    /// Where the instruction is.
    pub fn address(&self) -> (address: u64)
        ensures
            address == self.address,
    {
        self.address
    }

    /// The bytes of the instruction.
    pub fn bytes(&self) -> (bytes: &[u8])
        requires
            self.size <= INSTRUCTION_ROOM,
        ensures
            bytes@ == self.bytes@.take(self.size as int),
    {
        let all: &[u8] = self.bytes.as_slice();
        let bytes: &[u8] = slice_subrange(all, 0, self.size as usize);
        assert(bytes@ =~= self.bytes@.take(self.size as int));
        bytes
    }
}

/// A hold on the engine.
#[derive(Clone, Copy, Debug, PartialEq, Eq, Structural)]
pub struct Gum {
    pub handle: u64,
}

/// The engine that traces code. It holds on to the engine as a whole.
#[derive(Clone, Copy, Debug, PartialEq, Eq, Structural)]
pub struct Stalker {
    pub stalker: u64,
    pub gum: Gum,
}

impl Stalker {
    /// The tracing engine that is already there.
    pub fn from_raw(gum: &Gum, raw_stalker: u64) -> (stalker: Stalker)
        ensures
            stalker == (Stalker { stalker: raw_stalker, gum: *gum }),
    {
        Stalker { stalker: raw_stalker, gum: *gum }
    }

    /// The tracing engine itself.
    pub fn raw_stalker(&self) -> (raw: u64)
        ensures
            raw == self.stalker,
    {
        self.stalker
    }
}

/// A call that a probe sees.
#[derive(Clone, Copy, Debug, PartialEq, Eq, Structural)]
pub struct CallProbeDetails {
    pub target: u64,
    pub return_to: u64,
    pub stack: u64,
    pub cpu_context: u64,
}

impl CallProbeDetails {
    /// The function that is called.
    pub fn target_address(&self) -> (address: NativePointer)
        ensures
            address == NativePointer(self.target),
    {
        NativePointer(self.target)
    }

    /// Where the function returns to.
    pub fn return_address(&self) -> (address: NativePointer)
        ensures
            address == NativePointer(self.return_to),
    {
        NativePointer(self.return_to)
    }

    /// The stack at the call.
    pub fn stack_data(&self) -> (address: NativePointer)
        ensures
            address == NativePointer(self.stack),
    {
        NativePointer(self.stack)
    }
}

/// A subscription to modules that are removed. Zero stands for no handler.
#[derive(Clone, Copy, Debug, PartialEq, Eq, Structural)]
pub struct ModuleRegistryObserver {
    pub registry: u64,
    pub handler_id: u64,
    pub gum: Gum,
}

impl ModuleRegistryObserver {
    /// The subscription, if the engine gave a registry and connected a handler.
    pub fn on_removed(gum: &Gum, registry: u64, handler_id: u64) -> (observer: Option<
        ModuleRegistryObserver,
    >)
        ensures
            observer == if registry != 0 && handler_id != 0 {
                Some(ModuleRegistryObserver { registry, handler_id, gum: *gum })
            } else {
                None
            },
    {
        if registry == 0 || handler_id == 0 {
            return None;
        }
        Some(ModuleRegistryObserver { registry, handler_id, gum: *gum })
    }

    /// Ends the subscription: the handler to disconnect. A second call finds none.
    pub fn disconnect(&mut self) -> (handler: Option<u64>)
        ensures
            handler == if old(self).handler_id != 0 && old(self).registry != 0 {
                Some(old(self).handler_id)
            } else {
                None
            },
            *final(self) == (ModuleRegistryObserver {
                handler_id: if old(self).registry != 0 {
                    0
                } else {
                    old(self).handler_id
                },
                ..*old(self)
            }),
    {
        if self.handler_id != 0 && self.registry != 0 {
            let handler: u64 = self.handler_id;
            self.handler_id = 0;
            Some(handler)
        } else {
            None
        }
    }
}

} // verus!
