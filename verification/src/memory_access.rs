//! Copying bytes between the process and the agent without faulting.
//!
//! The kernel does the copying, piece by piece. What it answers decides how a transfer
//! goes on.

use crate::script::{range_error, ErrorKind, ScriptError};
use crate::text::{
    numeral, numerals_spell_their_values, prefixed_hex, push_numeral, push_prefixed_hex,
    push_signed, signed_numeral, spells,
};
use vstd::prelude::*;
use vstd::string::*;

verus! {

pub const EPERM: i32 = 1;

pub const EINTR: i32 = 4;

pub const EIO: i32 = 5;

pub const ENOMEM: i32 = 12;

pub const EACCES: i32 = 13;

pub const EFAULT: i32 = 14;

pub const ENOSYS: i32 = 38;

pub const EOVERFLOW: i32 = 75;

/// Most bytes that one operation moves.
pub const MAX_OPERATION_SIZE: u64 = 0x7fff_ffff;

/// Most bytes that a duplicate may have.
pub const MAX_OWNED_ALLOCATION: usize = 256 * 1024 * 1024;

/// Bytes that a copy moves at once.
pub const COPY_CHUNK_SIZE: usize = 64 * 1024;

/// Which way bytes move.
#[derive(Clone, Copy, Debug, Eq, PartialEq, Structural)]
pub enum MemoryOperation {
    Read,
    Write,
}

/// Bytes that could not be moved.
#[derive(Clone, Copy, Debug, Eq, PartialEq, Structural)]
pub struct MemoryAccessError {
    pub operation: MemoryOperation,
    pub address: u64,
    pub size: usize,
    pub errno: i32,
}

/// The name of an operation.
pub open spec fn operation_text(operation: MemoryOperation) -> Seq<char> {
    match operation {
        MemoryOperation::Read => "read"@,
        MemoryOperation::Write => "write"@,
    }
}

/// The text of an error.
pub open spec fn access_error_text(error: MemoryAccessError) -> Seq<char> {
    "memory "@ + operation_text(error.operation) + " failed at "@ + prefixed_hex(
        error.address as nat,
    ) + " (size "@ + numeral(error.size as nat, 10) + ", errno "@ + signed_numeral(
        error.errno as int,
        10,
    ) + ")"@
}

impl MemoryAccessError {
    /// The text of the error.
    pub fn text(&self) -> (text: String)
        ensures
            text@ == access_error_text(*self),
    {
        let mut text: String = String::from_str("memory ");
        match self.operation {
            MemoryOperation::Read => {
                text.append("read");
            },
            MemoryOperation::Write => {
                text.append("write");
            },
        }
        text.append(" failed at ");
        push_prefixed_hex(&mut text, self.address);
        text.append(" (size ");
        push_numeral(&mut text, self.size as u64, 10);
        text.append(", errno ");
        push_signed(&mut text, self.errno as i64);
        text.append(")");
        text
    }
}

/// A transfer of `size` bytes at `address`, of which some have been moved. The kernel
/// knows the place as `kernel_address`, without a tag.
#[derive(Clone, Copy, Debug, Eq, PartialEq, Structural)]
pub struct Transfer {
    pub operation: MemoryOperation,
    pub address: u64,
    pub kernel_address: u64,
    pub size: usize,
    pub completed: usize,
}

/// What follows from an answer of the kernel.
#[derive(Clone, Copy, Debug, Eq, PartialEq, Structural)]
pub enum TransferStep {
    Done,
    /// Ask for the rest.
    Continue,
    Failed(MemoryAccessError),
}

/// What the kernel answers: how many bytes it has moved, or an error number.
#[derive(Clone, Copy, Debug, Eq, PartialEq, Structural)]
pub enum KernelAnswer {
    Moved(usize),
    Error(i32),
}

impl Transfer {
    pub open spec fn wf(&self) -> bool {
        &&& self.completed <= self.size
        &&& self.kernel_address + self.size <= u64::MAX
    }

    /// The error for the rest of the transfer.
    pub open spec fn failure(&self, errno: i32) -> MemoryAccessError {
        MemoryAccessError {
            operation: self.operation,
            address: if self.address + self.completed > u64::MAX {
                (self.address + self.completed - 0x1_0000_0000_0000_0000) as u64
            } else {
                (self.address + self.completed) as u64
            },
            size: (self.size - self.completed) as usize,
            errno,
        }
    }

    fn fail(&self, errno: i32) -> (error: MemoryAccessError)
        requires
            self.wf(),
        ensures
            error == self.failure(errno),
    {
        MemoryAccessError {
            operation: self.operation,
            address: self.address.wrapping_add(self.completed as u64),
            size: self.size - self.completed,
            errno,
        }
    }

    /// Takes in an answer of the kernel. An interrupted call is made again; an answer of
    /// no bytes is an error.
    pub fn advance(&mut self, answer: KernelAnswer) -> (step: TransferStep)
        requires
            old(self).wf(),
            answer matches KernelAnswer::Moved(count) ==> count <= old(self).size - old(
                self).completed,
        ensures
            final(self).wf(),
            final(self).operation == old(self).operation,
            final(self).address == old(self).address,
            final(self).kernel_address == old(self).kernel_address,
            final(self).size == old(self).size,
            final(self).completed == old(self).completed + match answer {
                KernelAnswer::Moved(count) => count as int,
                KernelAnswer::Error(_) => 0,
            },
            step == match answer {
                KernelAnswer::Moved(count) => if count > 0 {
                    if final(self).completed == final(self).size {
                        TransferStep::Done
                    } else {
                        TransferStep::Continue
                    }
                } else {
                    TransferStep::Failed(old(self).failure(EIO))
                },
                KernelAnswer::Error(errno) => if errno == EINTR {
                    TransferStep::Continue
                } else {
                    TransferStep::Failed(old(self).failure(errno))
                },
            },
    {
        let errno: i32 = match answer {
            KernelAnswer::Moved(count) => {
                if count > 0 {
                    self.completed = self.completed + count;
                    if self.completed == self.size {
                        return TransferStep::Done;
                    }
                    return TransferStep::Continue;
                }
                EIO
            },
            KernelAnswer::Error(errno) => {
                if errno == EINTR {
                    return TransferStep::Continue;
                }
                errno
            },
        };
        TransferStep::Failed(self.fail(errno))
    }
}

/// How an access begins.
#[derive(Clone, Copy, Debug, Eq, PartialEq, Structural)]
pub enum AccessStart {
    /// There is nothing to move.
    Nothing,
    Transfer(Transfer),
    Failed(MemoryAccessError),
}

/// How a read begins: not at address zero and not past the end of memory.
/// `kernel_address` is the address without its tag.
pub fn read_exact(address: u64, kernel_address: u64, size: usize) -> (start: AccessStart)
    ensures
        start == if size == 0 {
            AccessStart::Nothing
        } else if kernel_address == 0 || kernel_address + size > u64::MAX {
            AccessStart::Failed(
                MemoryAccessError {
                    operation: MemoryOperation::Read,
                    address,
                    size,
                    errno: EFAULT,
                },
            )
        } else {
            AccessStart::Transfer(
                Transfer {
                    operation: MemoryOperation::Read,
                    address,
                    kernel_address,
                    size,
                    completed: 0,
                },
            )
        },
{
    if size == 0 {
        return AccessStart::Nothing;
    }
    if kernel_address == 0 || kernel_address.checked_add(size as u64).is_none() {
        return AccessStart::Failed(
            MemoryAccessError { operation: MemoryOperation::Read, address, size, errno: EFAULT },
        );
    }
    AccessStart::Transfer(
        Transfer { operation: MemoryOperation::Read, address, kernel_address, size, completed: 0 },
    )
}

/// How a write begins: as a read does, and only where all pages are writable.
pub fn write_exact(address: u64, kernel_address: u64, size: usize, writable: bool) -> (start:
    AccessStart)
    ensures
        start == if size == 0 {
            AccessStart::Nothing
        } else if kernel_address == 0 || kernel_address + size > u64::MAX || !writable {
            AccessStart::Failed(
                MemoryAccessError {
                    operation: MemoryOperation::Write,
                    address,
                    size,
                    errno: EFAULT,
                },
            )
        } else {
            AccessStart::Transfer(
                Transfer {
                    operation: MemoryOperation::Write,
                    address,
                    kernel_address,
                    size,
                    completed: 0,
                },
            )
        },
{
    if size == 0 {
        return AccessStart::Nothing;
    }
    if kernel_address == 0 || kernel_address.checked_add(size as u64).is_none() || !writable {
        return AccessStart::Failed(
            MemoryAccessError { operation: MemoryOperation::Write, address, size, errno: EFAULT },
        );
    }
    AccessStart::Transfer(
        Transfer { operation: MemoryOperation::Write, address, kernel_address, size, completed: 0 },
    )
}

/// Whether a read that failed is tried again through the process's memory file: only
/// where the system call itself is refused.
pub fn falls_back_to_memory_file(errno: i32) -> (falls_back: bool)
    ensures
        falls_back == (errno == ENOSYS || errno == EPERM || errno == EACCES),
{
    errno == ENOSYS || errno == EPERM || errno == EACCES
}

/// Where in the memory file the next bytes of a transfer are, if a file can be that long.
pub fn memory_file_offset(transfer: &Transfer) -> (result: Result<i64, MemoryAccessError>)
    requires
        transfer.wf(),
    ensures
        transfer.kernel_address + transfer.completed <= i64::MAX ==> result == Ok::<
            i64,
            MemoryAccessError,
        >((transfer.kernel_address + transfer.completed) as i64),
        transfer.kernel_address + transfer.completed > i64::MAX ==> result == Err::<
            i64,
            MemoryAccessError,
        >(transfer.failure(EOVERFLOW)),
{
    let position: u64 = transfer.kernel_address + transfer.completed as u64;
    if position > i64::MAX as u64 {
        Err(transfer.fail(EOVERFLOW))
    } else {
        Ok(position as i64)
    }
}

/// One piece of a copy: `length` bytes from `source` to `destination`.
#[derive(Clone, Copy, Debug, Eq, PartialEq, Structural)]
pub struct CopyStep {
    pub source: u64,
    pub destination: u64,
    pub length: usize,
}

/// A copy that is under way. A copy to a higher address that overlaps its source goes from
/// the end to the start, every other from the start to the end.
#[derive(Clone, Copy, Debug, Eq, PartialEq, Structural)]
pub struct CopyPlan {
    pub source: u64,
    pub destination: u64,
    pub size: usize,
    pub backward: bool,
    /// How many bytes have been copied.
    pub copied: usize,
}

/// Memory after `length` bytes have been moved from one place to another, all at once.
pub open spec fn moved(memory: Map<int, u8>, source: int, destination: int, length: int) -> Map<
    int,
    u8,
> {
    Map::new(
        |address: int| memory.dom().contains(address),
        |address: int|
            if destination <= address < destination + length {
                memory[address - destination + source]
            } else {
                memory[address]
            },
    )
}

/// Memory after one piece has been read as a whole and then written.
pub open spec fn stepped(memory: Map<int, u8>, step: CopyStep) -> Map<int, u8> {
    moved(memory, step.source as int, step.destination as int, step.length as int)
}

impl CopyPlan {
    pub open spec fn wf(&self) -> bool {
        &&& self.copied <= self.size
        &&& self.source + self.size <= u64::MAX
        &&& self.destination + self.size <= u64::MAX
        &&& self.backward == (self.source < self.destination < self.source + self.size)
    }

    /// Whether the memory is as it should be in the middle of the copy: the part that has
    /// been copied is done, and the part of the source that is still needed is untouched.
    pub open spec fn explains(&self, before: Map<int, u8>, now: Map<int, u8>) -> bool {
        let done = if self.backward {
            moved(
                before,
                (self.source + self.size - self.copied) as int,
                (self.destination + self.size - self.copied) as int,
                self.copied as int,
            )
        } else {
            moved(before, self.source as int, self.destination as int, self.copied as int)
        };
        now == done
    }

    /// The next piece, or `None` when the copy is complete.
    pub open spec fn step(&self) -> Option<CopyStep> {
        let left = self.size - self.copied;
        let length = if left < COPY_CHUNK_SIZE {
            left
        } else {
            COPY_CHUNK_SIZE as int
        };
        if self.copied >= self.size || self.source == self.destination {
            None
        } else if self.backward {
            Some(
                CopyStep {
                    source: (self.source + left - length) as u64,
                    destination: (self.destination + left - length) as u64,
                    length: length as usize,
                },
            )
        } else {
            Some(
                CopyStep {
                    source: (self.source + self.copied) as u64,
                    destination: (self.destination + self.copied) as u64,
                    length: length as usize,
                },
            )
        }
    }

    /// The next piece, or `None` when the copy is complete.
    pub fn next_step(&self) -> (step: Option<CopyStep>)
        requires
            self.wf(),
        ensures
            step == self.step(),
            step matches Some(s) ==> 0 < s.length <= self.size - self.copied,
    {
        if self.copied >= self.size || self.source == self.destination {
            return None;
        }
        let left: usize = self.size - self.copied;
        let length: usize = if left < COPY_CHUNK_SIZE {
            left
        } else {
            COPY_CHUNK_SIZE
        };
        if self.backward {
            let offset: u64 = (left - length) as u64;
            Some(
                CopyStep {
                    source: self.source + offset,
                    destination: self.destination + offset,
                    length,
                },
            )
        } else {
            let offset: u64 = self.copied as u64;
            Some(
                CopyStep {
                    source: self.source + offset,
                    destination: self.destination + offset,
                    length,
                },
            )
        }
    }

    /// Takes in that the next piece has been copied.
    pub fn step_done(&mut self)
        requires
            old(self).wf(),
            old(self).step() is Some,
        ensures
            final(self).wf(),
            *final(self) == (CopyPlan {
                copied: (old(self).copied + old(self).step()->0.length) as usize,
                ..*old(self)
            }),
    {
        let left: usize = self.size - self.copied;
        if left < COPY_CHUNK_SIZE {
            self.copied = self.copied + left;
        } else {
            self.copied = self.copied + COPY_CHUNK_SIZE;
        }
    }
}

/// Why a copy cannot begin: its source or its destination passes the end of memory.
pub open spec fn copy_problem(destination: u64, source: u64, size: usize) -> Option<
    MemoryAccessError,
> {
    if size == 0 || destination == source {
        None
    } else if source + size > u64::MAX {
        Some(
            MemoryAccessError {
                operation: MemoryOperation::Read,
                address: source,
                size,
                errno: EOVERFLOW,
            },
        )
    } else if destination + size > u64::MAX {
        Some(
            MemoryAccessError {
                operation: MemoryOperation::Write,
                address: destination,
                size,
                errno: EOVERFLOW,
            },
        )
    } else {
        None
    }
}

/// Begins a copy. `None` means that there is nothing to do.
pub fn copy_memory(destination: u64, source: u64, size: usize) -> (result: Result<
    Option<CopyPlan>,
    MemoryAccessError,
>)
    ensures
        match copy_problem(destination, source, size) {
            Some(error) => result == Err::<Option<CopyPlan>, MemoryAccessError>(error),
            None => {
                &&& result matches Ok(plan)
                &&& plan is None <==> size == 0 || destination == source
                &&& plan matches Some(p) ==> {
                    &&& p.wf()
                    &&& p == (CopyPlan {
                        source,
                        destination,
                        size,
                        backward: source < destination < source + size,
                        copied: 0,
                    })
                }
            },
        },
{
    if size == 0 || destination == source {
        return Ok(None);
    }
    let source_end: u64 = match source.checked_add(size as u64) {
        Some(end) => end,
        None => {
            return Err(
                MemoryAccessError {
                    operation: MemoryOperation::Read,
                    address: source,
                    size,
                    errno: EOVERFLOW,
                },
            );
        },
    };
    if destination.checked_add(size as u64).is_none() {
        return Err(
            MemoryAccessError {
                operation: MemoryOperation::Write,
                address: destination,
                size,
                errno: EOVERFLOW,
            },
        );
    }
    let backward: bool = destination > source && destination < source_end;
    Ok(Some(CopyPlan { source, destination, size, backward, copied: 0 }))
}

/// Every piece of a copy leaves the memory as the copy wants it, also where source and
/// destination overlap.
pub proof fn copy_steps_are_right(plan: CopyPlan, before: Map<int, u8>, now: Map<int, u8>)
    requires
        plan.wf(),
        plan.step() is Some,
        plan.explains(before, now),
        forall|address: int|
            plan.source <= address < plan.source + plan.size || plan.destination <= address
                < plan.destination + plan.size ==> #[trigger] before.dom().contains(address),
    ensures
        ({
            let next = CopyPlan {
                copied: (plan.copied + plan.step()->0.length) as usize,
                ..plan
            };
            next.explains(before, stepped(now, plan.step()->0))
        }),
{
    let step = plan.step()->0;
    let next = CopyPlan { copied: (plan.copied + step.length) as usize, ..plan };
    let after = stepped(now, step);
    let goal = if plan.backward {
        moved(
            before,
            (plan.source + plan.size - next.copied) as int,
            (plan.destination + plan.size - next.copied) as int,
            next.copied as int,
        )
    } else {
        moved(before, plan.source as int, plan.destination as int, next.copied as int)
    };
    assert(after.dom() =~= goal.dom());
    assert forall|address: int| #[trigger] after.dom().contains(address) implies after[address]
        == goal[address] by {
        if step.destination <= address < step.destination + step.length {
            let from = address - step.destination + step.source;
            assert(before.dom().contains(from));
            assert(now[from] == before[from]);
        }
    }
    assert(after =~= goal);
}

/// A copy that is complete has moved all bytes as if at once, whatever overlaps.
pub proof fn copy_is_memmove(plan: CopyPlan, before: Map<int, u8>, now: Map<int, u8>)
    requires
        plan.wf(),
        plan.copied == plan.size,
        plan.explains(before, now),
    ensures
        now == moved(
            before,
            plan.source as int,
            plan.destination as int,
            plan.size as int,
        ),
{
}

/// Before its first piece a copy has changed nothing.
pub proof fn copy_begins_with_nothing_done(plan: CopyPlan, memory: Map<int, u8>)
    requires
        plan.wf(),
        plan.copied == 0,
    ensures
        plan.explains(memory, memory),
{
    assert(moved(memory, plan.source as int, plan.destination as int, 0) =~= memory);
    assert(moved(
        memory,
        (plan.source + plan.size) as int,
        (plan.destination + plan.size) as int,
        0,
    ) =~= memory);
}

/// A size that a script gives for an operation.
pub fn parse_size(size: Option<i64>, operation: &str) -> (result: Result<usize, ScriptError>)
    ensures
        result is Ok <==> size is Some && 0 <= size->0 <= MAX_OPERATION_SIZE,
        result matches Ok(bytes) ==> bytes == size->0,
        result matches Err(error) ==> error@ == (
            ErrorKind::RangeError,
            operation@ + ": invalid size"@,
        ),
{
    match size {
        Some(bytes) => {
            if bytes >= 0 && bytes as u64 <= MAX_OPERATION_SIZE {
                return Ok(bytes as usize);
            }
        },
        None => {},
    }
    let message: String = crate::script::joined(operation, ": invalid size");
    Err(ScriptError { kind: ErrorKind::RangeError, message })
}

/// A size that a script gives for a duplicate: not zero, and not too large to own.
pub fn parse_dup_size(size: Option<i64>) -> (result: Result<usize, ScriptError>)
    ensures
        result is Ok <==> size is Some && 0 < size->0 <= MAX_OWNED_ALLOCATION,
        result matches Ok(bytes) ==> bytes == size->0,
        result matches Err(error) ==> error@ == (
            ErrorKind::RangeError,
            "Memory.dup: invalid size"@,
        ),
{
    match parse_size(size, "Memory.dup") {
        Err(error) => {
            assert(error.message@ =~= "Memory.dup: invalid size"@) by {
                reveal_strlit("Memory.dup");
                reveal_strlit(": invalid size");
                reveal_strlit("Memory.dup: invalid size");
            }
            Err(error)
        },
        Ok(bytes) => {
            if bytes > 0 && bytes <= MAX_OWNED_ALLOCATION {
                Ok(bytes)
            } else {
                Err(range_error("Memory.dup: invalid size"))
            }
        },
    }
}

/// Moving bytes changes exactly those of the destination, each to what lay at its place in
/// the source before, and no byte comes or goes.
pub proof fn moving_changes_only_the_destination(
    memory: Map<int, u8>,
    source: int,
    destination: int,
    length: int,
    address: int,
)
    requires
        memory.dom().contains(address),
    ensures
        moved(memory, source, destination, length).dom() =~= memory.dom(),
        0 <= address - destination < length ==> moved(
            memory,
            source,
            destination,
            length,
        )[address] == memory[source + (address - destination)],
        !(0 <= address - destination < length) ==> moved(
            memory,
            source,
            destination,
            length,
        )[address] == memory[address],
{
    assert(address - destination + source == source + (address - destination));
}

/// The text of an error says what failed, at which address in hexadecimal, how many bytes
/// were left, and with which error number.
pub proof fn access_errors_show_their_fields(error: MemoryAccessError) -> (parts: (
    Seq<char>,
    Seq<char>,
    Seq<char>,
))
    ensures
        error.operation is Read ==> access_error_text(error) == "memory read failed at 0x"@
            + parts.0 + " (size "@ + parts.1 + ", errno "@ + parts.2 + ")"@,
        error.operation is Write ==> access_error_text(error) == "memory write failed at 0x"@
            + parts.0 + " (size "@ + parts.1 + ", errno "@ + parts.2 + ")"@,
        spells(parts.0, error.address as nat, 16, 1),
        spells(parts.1, error.size as nat, 10, 1),
        error.errno >= 0 ==> spells(parts.2, error.errno as nat, 10, 1),
        error.errno < 0 ==> parts.2.len() > 0 && parts.2[0] == '-' && spells(
            parts.2.skip(1),
            (0 - error.errno) as nat,
            10,
            1,
        ),
{
    numerals_spell_their_values(error.address as nat, 16, 1);
    numerals_spell_their_values(error.size as nat, 10, 1);
    let address = numeral(error.address as nat, 16);
    let size = numeral(error.size as nat, 10);
    let errno = signed_numeral(error.errno as int, 10);
    if error.errno >= 0 {
        numerals_spell_their_values(error.errno as nat, 10, 1);
    } else {
        numerals_spell_their_values((0 - error.errno) as nat, 10, 1);
        assert(errno.skip(1) =~= numeral((0 - error.errno) as nat, 10));
    }
    reveal_strlit("memory ");
    reveal_strlit("read");
    reveal_strlit("write");
    reveal_strlit(" failed at ");
    reveal_strlit("memory read failed at 0x");
    reveal_strlit("memory write failed at 0x");
    let text = access_error_text(error);
    let front = "memory "@ + operation_text(error.operation) + " failed at "@;
    assert(front + prefixed_hex(error.address as nat) =~= front + seq!['0', 'x'] + address);
    if error.operation is Read {
        assert(front + seq!['0', 'x'] =~= "memory read failed at 0x"@);
    } else {
        assert(front + seq!['0', 'x'] =~= "memory write failed at 0x"@);
    }
    (address, size, errno)
}

/// A copy of something to another place is refused exactly if its source or its destination
/// passes the end of memory, the source first.
pub proof fn copies_stay_within_memory(destination: u64, source: u64, size: usize)
    ensures
        copy_problem(destination, source, size) is Some <==> size > 0 && destination != source && (
        source + size >= 0x1_0000_0000_0000_0000 || destination + size >= 0x1_0000_0000_0000_0000),
        copy_problem(destination, source, size) matches Some(error) ==> {
            &&& error.size == size
            &&& source + size >= 0x1_0000_0000_0000_0000 ==> error.operation is Read
                && error.address == source
            &&& source + size < 0x1_0000_0000_0000_0000 ==> error.operation is Write
                && error.address == destination
        },
{
}

/// The error of a transfer is about what is left of it: the bytes that have not been moved,
/// from the first of them on, counted around the end of memory.
pub proof fn failures_are_about_the_rest(transfer: Transfer, errno: i32)
    requires
        transfer.wf(),
    ensures
        transfer.failure(errno).operation == transfer.operation,
        transfer.failure(errno).address == transfer.address + transfer.completed
            || transfer.failure(errno).address == transfer.address + transfer.completed
            - 0x1_0000_0000_0000_0000,
        transfer.failure(errno).size + transfer.completed == transfer.size,
        transfer.failure(errno).errno == errno,
{
}

} // verus!
