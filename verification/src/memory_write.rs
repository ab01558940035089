//! Writing bytes, also where the code of a page must not be seen to change.

use crate::script::{joined, ErrorKind, ScriptError};
use crate::text::{numeral, prefixed_hex, push_numeral, push_prefixed_hex, push_signed, signed_numeral};
use vstd::prelude::*;
use vstd::string::*;

verus! {

/// The granularity of hidden writes.
pub const SHADOW_PAGE: u64 = 0x1000;

/// How bytes are written.
#[derive(Clone, Copy, Debug, PartialEq, Eq, Structural)]
pub enum WritePlan {
    /// There is nothing to write.
    Nothing,
    /// To a mapping that is writable.
    Plain,
    /// Hidden, within one page.
    OnePage,
    /// Hidden, across two pages: the second is written first.
    TwoPages { first_length: usize, second_address: u64 },
}

/// Why a write is refused.
pub open spec fn write_problem(address: u64, length: usize, stealth: i64) -> Option<Seq<char>> {
    let page_offset = address % SHADOW_PAGE;
    if length == 0 || stealth == 0 {
        None
    } else if stealth != 1 {
        Some(
            "writeBytes: unsupported stealth mode "@ + signed_numeral(stealth as int, 10)
                + " (expected 0 or 1; use writest for mode 2)"@,
        )
    } else if page_offset + length > 0x2000 {
        Some(
            "writeBytes(stealth=1): bytes len="@ + numeral(length as nat, 10)
                + " 跨 >2 页 (page_off="@ + prefixed_hex(page_offset as nat)
                + ")，kernel_hook backend 不支持"@,
        )
    } else {
        None
    }
}

/// How bytes are written.
pub open spec fn write_plan(address: u64, length: usize, stealth: i64) -> WritePlan {
    let page_offset = address % SHADOW_PAGE;
    if length == 0 {
        WritePlan::Nothing
    } else if stealth == 0 {
        WritePlan::Plain
    } else if page_offset + length > SHADOW_PAGE {
        WritePlan::TwoPages {
            first_length: (SHADOW_PAGE - page_offset) as usize,
            second_address: (address + (SHADOW_PAGE - page_offset)) as u64,
        }
    } else {
        WritePlan::OnePage
    }
}

/// Decides how bytes are written. A hidden write that crosses a page does not begin in
/// the last page of memory.
pub fn memory_write_bytes(address: u64, length: usize, stealth: i64) -> (result: Result<
    WritePlan,
    ScriptError,
>)
    requires
        stealth == 1 && SHADOW_PAGE < address % SHADOW_PAGE + length <= 0x2000 ==> address + (
        SHADOW_PAGE - address % SHADOW_PAGE) <= u64::MAX,
    ensures
        result is Err <==> write_problem(address, length, stealth) is Some,
        result matches Err(error) ==> write_problem(address, length, stealth) is Some && error@ == (
            ErrorKind::InternalError,
            write_problem(address, length, stealth)->0,
        ),
        result matches Ok(plan) ==> plan == write_plan(address, length, stealth),
{
    if length == 0 {
        return Ok(WritePlan::Nothing);
    }
    if stealth == 0 {
        return Ok(WritePlan::Plain);
    }
    if stealth != 1 {
        let mut message: String = String::from_str("writeBytes: unsupported stealth mode ");
        push_signed(&mut message, stealth);
        message.append(" (expected 0 or 1; use writest for mode 2)");
        return Err(ScriptError { kind: ErrorKind::InternalError, message });
    }
    let page_offset: u64 = address % SHADOW_PAGE;
    if length as u64 > 0x2000 - page_offset {
        let mut message: String = String::from_str("writeBytes(stealth=1): bytes len=");
        push_numeral(&mut message, length as u64, 10);
        message.append(" 跨 >2 页 (page_off=");
        push_prefixed_hex(&mut message, page_offset);
        message.append(")，kernel_hook backend 不支持");
        return Err(ScriptError { kind: ErrorKind::InternalError, message });
    }
    if length as u64 > SHADOW_PAGE - page_offset {
        let first: u64 = SHADOW_PAGE - page_offset;
        return Ok(
            WritePlan::TwoPages { first_length: first as usize, second_address: address + first },
        );
    }
    Ok(WritePlan::OnePage)
}

/// Two hidden writes meet: the first ends where the second begins, on a page boundary, and
/// together they write all bytes.
pub proof fn two_pages_meet(address: u64, length: usize, stealth: i64)
    requires
        stealth == 1,
        write_problem(address, length, stealth) is None,
        write_plan(address, length, stealth) is TwoPages,
        address + (SHADOW_PAGE - address % SHADOW_PAGE) <= u64::MAX,
    ensures
        ({
            let plan = write_plan(address, length, stealth);
            let first = plan->first_length;
            let second = plan->second_address;
            &&& address + first == second
            &&& second as int % 0x1000 == 0
            &&& 0 < first < length
            &&& length - first <= 0x1000
        }),
{
}

/// Code that has to be fetched from memory again.
#[derive(Clone, Copy, Debug, PartialEq, Eq, Structural)]
pub struct CodeFlush {
    pub start: u64,
    pub length: usize,
}

/// What has to be flushed once bytes have been written to a writable mapping.
pub fn plain_written(address: u64, length: usize) -> (flush: CodeFlush)
    ensures
        flush == (CodeFlush { start: address, length }),
{
    CodeFlush { start: address, length }
}

/// What a hidden write across two pages does next.
#[derive(Debug)]
pub enum ShadowStep {
    WriteSecond,
    WriteFirst,
    /// The first page could not be written: take the second back, then fail.
    ReleaseSecond(ScriptError),
    Failed(ScriptError),
    /// Both pages are written, and flushed as one.
    Done(CodeFlush),
}

/// What a hidden write across two pages does next, given the answers so far. The page that
/// holds the start is written last, so that a jump there is seen only when it is complete.
/// Both places are noted once both are written, and not before.
pub fn shadow_two_pages(
    patches: &mut ShadowPatches,
    address: u64,
    length: usize,
    second_address: u64,
    second: Option<i32>,
    first: Option<i32>,
) -> (step: ShadowStep)
    requires
        old(patches).wf(),
    ensures
        final(patches).wf(),
        final(patches)@ == if second == Some(0i32) && first == Some(0i32) {
            old(patches)@.insert(address).insert(second_address)
        } else {
            old(patches)@
        },
        match (second, first) {
            (None, _) => step is WriteSecond,
            (Some(code), f) => if code != 0 {
                step is Failed && step->Failed_0@ == (
                    ErrorKind::InternalError,
                    "writeBytes(stealth=1): kernel_hook second-page write rc="@ + signed_numeral(
                        code as int,
                        10,
                    ),
                )
            } else {
                match f {
                    None => step is WriteFirst,
                    Some(code) => if code != 0 {
                        step is ReleaseSecond && step->ReleaseSecond_0@ == (
                            ErrorKind::InternalError,
                            "writeBytes(stealth=1): kernel_hook first-page rc="@ + signed_numeral(
                                code as int,
                                10,
                            ) + ", second 已回滚"@,
                        )
                    } else {
                        step == ShadowStep::Done(CodeFlush { start: address, length })
                    },
                }
            },
        },
{
    match second {
        None => ShadowStep::WriteSecond,
        Some(code) => {
            if code != 0 {
                let mut message: String = String::from_str(
                    "writeBytes(stealth=1): kernel_hook second-page write rc=",
                );
                push_signed(&mut message, code as i64);
                return ShadowStep::Failed(ScriptError { kind: ErrorKind::InternalError, message });
            }
            match first {
                None => ShadowStep::WriteFirst,
                Some(code) => {
                    if code != 0 {
                        let mut message: String = String::from_str(
                            "writeBytes(stealth=1): kernel_hook first-page rc=",
                        );
                        push_signed(&mut message, code as i64);
                        message.append(", second 已回滚");
                        return ShadowStep::ReleaseSecond(
                            ScriptError { kind: ErrorKind::InternalError, message },
                        );
                    }
                    patches.track_wxshadow_addr(address);
                    patches.track_wxshadow_addr(second_address);
                    ShadowStep::Done(CodeFlush { start: address, length })
                },
            }
        },
    }
}

/// The result of a hidden write within one page. The place is noted if it was written; the
/// result is what has to be flushed then.
pub fn shadow_one_page(patches: &mut ShadowPatches, address: u64, length: usize, code: i32) -> (result:
    Result<CodeFlush, ScriptError>)
    requires
        old(patches).wf(),
    ensures
        final(patches).wf(),
        final(patches)@ == if code == 0 {
            old(patches)@.insert(address)
        } else {
            old(patches)@
        },
        result is Ok <==> code == 0,
        result matches Ok(flush) ==> flush == (CodeFlush { start: address, length }),
        result matches Err(error) ==> error@ == (
            ErrorKind::InternalError,
            "writeBytes(stealth=1): kernel_hook write rc="@ + signed_numeral(code as int, 10),
        ),
{
    if code != 0 {
        let mut message: String = String::from_str("writeBytes(stealth=1): kernel_hook write rc=");
        push_signed(&mut message, code as i64);
        return Err(ScriptError { kind: ErrorKind::InternalError, message });
    }
    patches.track_wxshadow_addr(address);
    Ok(CodeFlush { start: address, length })
}

/// The message for a write that failed.
pub fn write_error_message(operation: &str, error: &crate::memory_access::MemoryAccessError) -> (message:
    String)
    ensures
        message@ == operation@ + ": "@ + crate::memory_access::access_error_text(*error)
            + "; target must be writable (use Memory.protect first if appropriate)"@,
{
    let mut message: String = joined(operation, ": ");
    message.append(error.text().as_str());
    message.append("; target must be writable (use Memory.protect first if appropriate)");
    message
}

/// The places of hidden writes that have to be taken back.
#[derive(Debug)]
pub struct ShadowPatches {
    pub addresses: Vec<u64>,
}

impl ShadowPatches {
    /// Every place is there once.
    pub open spec fn wf(&self) -> bool {
        self.addresses@.no_duplicates()
    }

    /// The set of places.
    pub open spec fn view(&self) -> Set<u64> {
        self.addresses@.to_set()
    }

    pub fn new() -> (patches: ShadowPatches)
        ensures
            patches.wf(),
            patches@ == Set::<u64>::empty(),
    {
        let patches: ShadowPatches = ShadowPatches { addresses: Vec::new() };
        assert(patches@ =~= Set::<u64>::empty());
        patches
    }

    fn position(&self, address: u64) -> (index: Option<usize>)
        ensures
            index matches Some(i) ==> i < self.addresses@.len() && self.addresses@[i as int]
                == address,
            index is None ==> !self@.contains(address),
    {
        let mut i: usize = 0;
        while i < self.addresses.len()
            invariant
                i <= self.addresses@.len(),
                forall|k: int| 0 <= k < i ==> #[trigger] self.addresses@[k] != address,
            decreases self.addresses@.len() - i,
        {
            if self.addresses[i] == address {
                return Some(i);
            }
            i = i + 1;
        }
        None
    }

    /// Notes a hidden write.
    pub fn track_wxshadow_addr(&mut self, address: u64)
        requires
            old(self).wf(),
        ensures
            final(self).wf(),
            final(self)@ == old(self)@.insert(address),
    {
        let ghost before = self.addresses@;
        match self.position(address) {
            Some(index) => {
                assert(before[index as int] == address);
                assert(before.contains(address));
                assert(self@ =~= old(self)@.insert(address));
            },
            None => {
                assert(!before.contains(address));
                self.addresses.push(address);
                let ghost after = self.addresses@;
                assert forall|x: u64| after.to_set().contains(x) == before.to_set().insert(
                    address,
                ).contains(x) by {
                    if before.contains(x) {
                        let k = choose|k: int| 0 <= k < before.len() && before[k] == x;
                        assert(after[k] == x);
                    }
                    if x == address {
                        assert(after[before.len() as int] == x);
                    }
                    if after.contains(x) && x != address {
                        let k = choose|k: int| 0 <= k < after.len() && after[k] == x;
                        assert(before[k] == x);
                    }
                }
                assert(self@ =~= old(self)@.insert(address));
            },
        }
    }

    /// Forgets a hidden write.
    pub fn untrack_wxshadow_addr(&mut self, address: u64)
        requires
            old(self).wf(),
        ensures
            final(self).wf(),
            final(self)@ == old(self)@.remove(address),
    {
        let ghost before = self.addresses@;
        match self.position(address) {
            None => {
                assert(self@ =~= old(self)@.remove(address));
            },
            Some(index) => {
                let _ = self.addresses.remove(index);
                let ghost after = self.addresses@;
                assert forall|x: u64| after.to_set().contains(x) == before.to_set().remove(
                    address,
                ).contains(x) by {
                    if after.contains(x) {
                        let k = choose|k: int| 0 <= k < after.len() && after[k] == x;
                        let j = if k < index {
                            k
                        } else {
                            k + 1
                        };
                        assert(before[j] == x);
                        assert(j != index);
                        assert(before[index as int] == address);
                    }
                    if before.contains(x) && x != address {
                        let j = choose|j: int| 0 <= j < before.len() && before[j] == x;
                        let k = if j < index {
                            j
                        } else {
                            j - 1
                        };
                        assert(after[k] == x);
                    }
                }
                assert(self@ =~= old(self)@.remove(address));
            },
        }
    }

    /// Hands out all places to take back, and forgets them.
    pub fn cleanup_wxshadow_patches(&mut self) -> (addresses: Vec<u64>)
        requires
            old(self).wf(),
        ensures
            final(self).wf(),
            final(self)@ == Set::<u64>::empty(),
            addresses@.to_set() == old(self)@,
            addresses@.no_duplicates(),
    {
        let mut addresses: Vec<u64> = Vec::new();
        core::mem::swap(&mut self.addresses, &mut addresses);
        assert(self@ =~= Set::<u64>::empty());
        addresses
    }
}

/// Which writes are refused: hidden ones of a mode that there is not, and those that touch
/// more than two pages of 4096 bytes. No bytes are never refused, nor is a plain write.
pub proof fn hidden_writes_touch_two_pages_at_most(address: u64, length: usize, stealth: i64)
    ensures
        length == 0 || stealth == 0 ==> write_problem(address, length, stealth) is None,
        length > 0 && stealth != 0 && stealth != 1 ==> write_problem(address, length, stealth)
            is Some,
        length > 0 && stealth == 1 ==> (write_problem(address, length, stealth) is None <==> (
        address + length - 1) / 4096 <= address as int / 4096 + 1),
        length == 0 ==> write_plan(address, length, stealth) is Nothing,
        length > 0 && stealth == 0 ==> write_plan(address, length, stealth) is Plain,
        length > 0 && stealth == 1 ==> (write_plan(address, length, stealth) is OnePage <==> (
        address + length - 1) / 4096 == address as int / 4096),
        length > 0 && stealth == 1 && !(write_plan(address, length, stealth) is OnePage)
            ==> write_plan(address, length, stealth) is TwoPages,
{
}

} // verus!
