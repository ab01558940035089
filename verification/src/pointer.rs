//! Addresses as scripts hold them.

use crate::bytes::{le_bytes, le_bytes_read_back, lemma_byte_ranges, push_le};
use crate::memory_pattern::{
    denotes_pattern, explicit_digits, first_colon, hex_value, is_hex, is_nibble, match_part,
    matches_bytes, pattern_bytes, pattern_masks, pattern_problem, without_spaces, MatchPattern,
};
use crate::script::{joined, range_error, type_error, ErrorKind, ScriptError};
use crate::text::{
    begins_with, chars_of, digit_char, has_front, is_space, is_trimmed, numeral, numeral_reads_back,
    numeral_text, numerals_spell_their_values, parse_u64, parsed_u64, prefixed_hex,
    push_prefixed_hex, push_zero_padded, spells, trim, trimmed, trimming_is_unique, zero_padded,
};
use vstd::prelude::*;
use vstd::slice::slice_subrange;
use vstd::string::*;
use vstd::utf8::encode_utf8;

verus! {

/// An address, and the allocation that lives at least as long as it, by number.
#[derive(Clone, Copy, Debug, PartialEq, Eq, Structural)]
pub struct NativePointerData {
    pub addr: u64,
    pub owner: Option<u64>,
}

/// An allocation that pointers keep alive.
#[derive(Clone, Copy, Debug, PartialEq, Eq, Structural)]
pub struct OwnedAllocation {
    pub id: u64,
    pub addr: u64,
    /// How many pointers keep it alive.
    pub pointers: u64,
}

/// The allocations that pointers keep alive.
#[derive(Debug)]
pub struct Allocations {
    pub next_id: u64,
    pub live: Vec<OwnedAllocation>,
}

/// Whether an allocation is alive.
pub open spec fn is_alive(live: Seq<OwnedAllocation>, id: u64) -> bool {
    exists|i: int| 0 <= i < live.len() && (#[trigger] live[i]).id == id
}

/// Where an allocation is.
pub open spec fn allocation_at(live: Seq<OwnedAllocation>, id: u64) -> int {
    choose|i: int| 0 <= i < live.len() && (#[trigger] live[i]).id == id
}

/// Whether every allocation is there once and some pointer keeps it alive.
pub open spec fn kept_alive(live: Seq<OwnedAllocation>) -> bool {
    &&& forall|i: int| 0 <= i < live.len() ==> (#[trigger] live[i]).pointers > 0
    &&& forall|i: int, j: int|
        #![trigger live[i], live[j]]
        0 <= i < j < live.len() ==> live[i].id != live[j].id
}

/// The allocations when one more pointer keeps one of them alive.
pub open spec fn with_pointer(live: Seq<OwnedAllocation>, id: u64) -> Seq<OwnedAllocation> {
    let at = allocation_at(live, id);
    live.update(at, OwnedAllocation { pointers: (live[at].pointers + 1) as u64, ..live[at] })
}

/// The allocations when one of the pointers that keep one of them alive is gone: with the
/// last of them the allocation goes too.
pub open spec fn without_pointer(live: Seq<OwnedAllocation>, id: u64) -> Seq<OwnedAllocation> {
    let at = allocation_at(live, id);
    if live[at].pointers == 1 {
        live.remove(at)
    } else {
        live.update(at, OwnedAllocation { pointers: (live[at].pointers - 1) as u64, ..live[at] })
    }
}

proof fn lemma_allocation_at(live: Seq<OwnedAllocation>, at: int)
    requires
        kept_alive(live),
        0 <= at < live.len(),
    ensures
        is_alive(live, live[at].id),
        allocation_at(live, live[at].id) == at,
{
    let id = live[at].id;
    let found = allocation_at(live, id);
    assert(live[found].id == id);
    if found < at {
        assert(live[found].id != live[at].id);
    } else if at < found {
        assert(live[at].id != live[found].id);
    }
}

/// A pointer that is derived from another one keeps their allocation alive: when one of
/// the two is gone, everything is as before.
pub proof fn a_derived_pointer_keeps_its_allocation(live: Seq<OwnedAllocation>, id: u64)
    requires
        kept_alive(live),
        is_alive(live, id),
        live[allocation_at(live, id)].pointers < u64::MAX,
    ensures
        kept_alive(with_pointer(live, id)),
        is_alive(with_pointer(live, id), id),
        without_pointer(with_pointer(live, id), id) == live,
{
    let at = allocation_at(live, id);
    let more = with_pointer(live, id);
    assert forall|i: int, j: int|
        #![trigger more[i], more[j]]
        0 <= i < j < more.len() implies more[i].id != more[j].id by {
        assert(live[i].id != live[j].id);
    }
    assert forall|i: int| 0 <= i < more.len() implies (#[trigger] more[i]).pointers > 0 by {
        assert(live[i].pointers > 0);
    }
    assert(live[at].pointers > 0);
    lemma_allocation_at(more, at);
    assert(without_pointer(more, id) =~= live);
}

/// An allocation is gone exactly when the last pointer that kept it alive is, and no other
/// allocation is touched.
pub proof fn the_last_pointer_frees_its_allocation(
    live: Seq<OwnedAllocation>,
    id: u64,
    other: OwnedAllocation,
)
    requires
        kept_alive(live),
        is_alive(live, id),
        other.id != id,
    ensures
        kept_alive(without_pointer(live, id)),
        is_alive(without_pointer(live, id), id) <==> live[allocation_at(live, id)].pointers > 1,
        without_pointer(live, id).contains(other) <==> live.contains(other),
{
    let at = allocation_at(live, id);
    let less = without_pointer(live, id);
    assert(live[at].pointers > 0);
    if live[at].pointers == 1 {
        assert forall|i: int| 0 <= i < less.len() implies (#[trigger] less[i]).pointers > 0
            && less[i].id != id by {
            let m = if i < at {
                i
            } else {
                i + 1
            };
            assert(less[i] == live[m]);
            if m < at {
                assert(live[m].id != live[at].id);
            } else {
                assert(live[at].id != live[m].id);
            }
        }
        assert forall|i: int, j: int|
            #![trigger less[i], less[j]]
            0 <= i < j < less.len() implies less[i].id != less[j].id by {
            let m = if i < at {
                i
            } else {
                i + 1
            };
            let n = if j < at {
                j
            } else {
                j + 1
            };
            assert(live[m].id != live[n].id);
        }
        if live.contains(other) {
            let i = choose|i: int| 0 <= i < live.len() && live[i] == other;
            if i < at {
                assert(less[i] == other);
            } else {
                assert(less[i - 1] == other);
            }
        }
        if less.contains(other) {
            let i = choose|i: int| 0 <= i < less.len() && less[i] == other;
            if i < at {
                assert(live[i] == other);
            } else {
                assert(live[i + 1] == other);
            }
        }
    } else {
        assert forall|i: int, j: int|
            #![trigger less[i], less[j]]
            0 <= i < j < less.len() implies less[i].id != less[j].id by {
            assert(live[i].id != live[j].id);
        }
        assert forall|i: int| 0 <= i < less.len() implies (#[trigger] less[i]).pointers > 0 by {
            assert(live[i].pointers > 0);
        }
        assert(less[at].id == id);
        if live.contains(other) {
            let i = choose|i: int| 0 <= i < live.len() && live[i] == other;
            assert(less[i] == other);
        }
        if less.contains(other) {
            let i = choose|i: int| 0 <= i < less.len() && less[i] == other;
            assert(live[i] == other);
        }
    }
}

impl Allocations {
    pub open spec fn wf(&self) -> bool {
        &&& kept_alive(self.live@)
        &&& forall|i: int| 0 <= i < self.live@.len() ==> (#[trigger] self.live@[i]).id < self.next_id
    }

    /// Whether an allocation is alive.
    pub open spec fn alive(&self, id: u64) -> bool {
        is_alive(self.live@, id)
    }

    /// Where an allocation is.
    pub open spec fn at(&self, id: u64) -> int {
        allocation_at(self.live@, id)
    }

    pub fn new() -> (allocations: Allocations)
        ensures
            allocations.wf(),
            allocations.live@.len() == 0,
            allocations.next_id == 0,
    {
        Allocations { next_id: 0, live: Vec::new() }
    }

    fn find(&self, id: u64) -> (found: Option<usize>)
        requires
            self.wf(),
        ensures
            found is Some <==> self.alive(id),
            found matches Some(i) ==> i < self.live@.len() && i == self.at(id)
                && self.live@[i as int].id == id,
    {
        let mut i: usize = 0;
        while i < self.live.len()
            invariant
                i <= self.live@.len(),
                self.wf(),
                forall|k: int| 0 <= k < i ==> (#[trigger] self.live@[k]).id != id,
            decreases self.live@.len() - i,
        {
            if self.live[i].id == id {
                assert(self.live@[i as int].id == id);
                assert(self.live@[self.at(id)].id == id);
                return Some(i);
            }
            i = i + 1;
        }
        None
    }

    /// A pointer that keeps a new allocation alive.
    pub fn create_owned_native_pointer(&mut self, addr: u64) -> (pointer: NativePointerData)
        requires
            old(self).wf(),
            old(self).next_id < u64::MAX,
        ensures
            final(self).wf(),
            pointer == (NativePointerData { addr, owner: Some(old(self).next_id) }),
            !old(self).alive(old(self).next_id),
            final(self).next_id == old(self).next_id + 1,
            final(self).live@ == old(self).live@.push(
                (OwnedAllocation { id: old(self).next_id, addr, pointers: 1 }),
            ),
    {
        let id: u64 = self.next_id;
        assert(!self.alive(id)) by {
            if self.alive(id) {
                assert(self.live@[self.at(id)].id < self.next_id);
            }
        }
        assert forall|k: int| 0 <= k < self.live@.len() implies (#[trigger] self.live@[k]).id
            != id by {}
        self.next_id = id + 1;
        self.live.push(OwnedAllocation { id, addr, pointers: 1 });
        NativePointerData { addr, owner: Some(id) }
    }

    /// A pointer that keeps alive what the given one does.
    pub fn create_native_pointer_with_owner(&mut self, addr: u64, owner: Option<u64>) -> (pointer:
        NativePointerData)
        requires
            old(self).wf(),
            owner matches Some(id) ==> old(self).alive(id) && old(self).live@[old(self).at(
                id,
            )].pointers < u64::MAX,
        ensures
            final(self).wf(),
            pointer == (NativePointerData { addr, owner }),
            final(self).next_id == old(self).next_id,
            final(self).live@ == match owner {
                Some(id) => with_pointer(old(self).live@, id),
                None => old(self).live@,
            },
    {
        match owner {
            Some(id) => {
                match self.find(id) {
                    Some(i) => {
                        let ghost before = self.live@;
                        let pointers: u64 = self.live[i].pointers + 1;
                        self.live[i].pointers = pointers;
                        assert(self.live@ =~= before.update(
                            i as int,
                            OwnedAllocation { pointers, ..before[i as int] },
                        ));
                        assert forall|a: int, b: int|
                            #![trigger self.live@[a], self.live@[b]]
                            0 <= a < b < self.live@.len() implies self.live@[a].id
                            != self.live@[b].id by {
                            assert(before[a].id != before[b].id);
                        }
                    },
                    None => {},
                }
            },
            None => {},
        }
        NativePointerData { addr, owner }
    }

    /// Takes in that a pointer is gone. The result is the allocation to free, if that was
    /// the last pointer to keep it alive.
    pub fn native_pointer_finalizer(&mut self, pointer: NativePointerData) -> (freed: Option<u64>)
        requires
            old(self).wf(),
            pointer.owner matches Some(id) ==> old(self).alive(id),
        ensures
            final(self).wf(),
            final(self).next_id == old(self).next_id,
            match pointer.owner {
                Some(id) => {
                    let before = old(self).live@[old(self).at(id)];
                    &&& freed == if before.pointers == 1 {
                        Some(before.addr)
                    } else {
                        None
                    }
                    &&& final(self).live@ == without_pointer(old(self).live@, id)
                },
                None => freed is None && final(self).live@ == old(self).live@,
            },
    {
        let id: u64 = match pointer.owner {
            Some(id) => id,
            None => {
                return None;
            },
        };
        match self.find(id) {
            Some(i) => {
                let ghost before = self.live@;
                if self.live[i].pointers == 1 {
                    let addr: u64 = self.live[i].addr;
                    let _ = self.live.remove(i);
                    assert forall|a: int, b: int|
                        #![trigger self.live@[a], self.live@[b]]
                        0 <= a < b < self.live@.len() implies self.live@[a].id
                        != self.live@[b].id by {
                        let m = if a < i {
                            a
                        } else {
                            a + 1
                        };
                        let n = if b < i {
                            b
                        } else {
                            b + 1
                        };
                        assert(before[m].id != before[n].id);
                    }
                    Some(addr)
                } else {
                    assert(before[i as int].pointers > 0);
                    let pointers: u64 = self.live[i].pointers - 1;
                    self.live[i].pointers = pointers;
                    assert(self.live@ =~= before.update(
                        i as int,
                        OwnedAllocation { pointers, ..before[i as int] },
                    ));
                    assert forall|a: int, b: int|
                        #![trigger self.live@[a], self.live@[b]]
                        0 <= a < b < self.live@.len() implies self.live@[a].id
                        != self.live@[b].id by {
                        assert(before[a].id != before[b].id);
                    }
                    None
                }
            },
            None => None,
        }
    }
}

/// A pointer that keeps nothing alive.
pub fn create_native_pointer(addr: u64) -> (pointer: NativePointerData)
    ensures
        pointer == (NativePointerData { addr, owner: None }),
{
    NativePointerData { addr, owner: None }
}

/// The number of the class of pointers: the one that was there first.
pub fn get_or_init_class_id(slot: &mut u32, new_id: u32) -> (id: u32)
    ensures
        id == if *old(slot) == 0 {
            new_id
        } else {
            *old(slot)
        },
        *final(slot) == id,
{
    if *slot == 0 {
        *slot = new_id;
    }
    *slot
}

/// A value that a script passes where an address is wanted.
#[derive(Debug)]
pub enum PointerArgument {
    Pointer(NativePointerData),
    /// A callback or a function that has an address.
    Callable(u64),
    /// A string, if it can be read.
    Text(Option<String>),
    /// A number, as far as it converts to an unsigned or a signed one.
    Number { unsigned: Option<u64>, signed: Option<i64> },
    /// Any other value.
    Other,
}

/// The address of a value that has one.
pub open spec fn value_address(value: PointerArgument) -> Option<u64> {
    match value {
        PointerArgument::Pointer(pointer) => Some(pointer.addr),
        PointerArgument::Callable(addr) => Some(addr),
        _ => None,
    }
}

/// The address of a value that has one.
pub fn get_native_pointer_addr(value: &PointerArgument) -> (addr: Option<u64>)
    ensures
        addr == value_address(*value),
{
    match value {
        PointerArgument::Pointer(pointer) => Some(pointer.addr),
        PointerArgument::Callable(addr) => Some(*addr),
        _ => None,
    }
}

/// An address in hexadecimal, with its prefix.
pub fn format_native_pointer(addr: u64) -> (text: String)
    ensures
        text@ == prefixed_hex(addr as nat),
{
    let mut text: String = String::new();
    push_prefixed_hex(&mut text, addr);
    assert(Seq::<char>::empty() + prefixed_hex(addr as nat) =~= prefixed_hex(addr as nat));
    text
}

/// A number reduced to thirty-two bits with a sign.
pub open spec fn low_signed(value: int) -> int {
    let low = value % 0x1_0000_0000;
    if low < 0x8000_0000 {
        low
    } else {
        low - 0x1_0000_0000
    }
}

/// The low half of an address as a signed number.
pub fn native_pointer_as_i32(addr: u64) -> (number: i32)
    ensures
        number == low_signed(addr as int),
{
    let low: i64 = (addr % 0x1_0000_0000) as i64;
    if low < 0x8000_0000 {
        low as i32
    } else {
        (low - 0x1_0000_0000) as i32
    }
}

/// The low half of an address.
pub fn native_pointer_as_u32(addr: u64) -> (number: u32)
    ensures
        number == addr % 0x1_0000_0000,
{
    (addr % 0x1_0000_0000) as u32
}

/// A text without its hexadecimal prefix, if it has one.
pub open spec fn hex_digits(text: Seq<char>) -> Option<Seq<char>> {
    if has_front(text, "0x"@) || has_front(text, "0X"@) {
        Some(text.skip(2))
    } else {
        None
    }
}

fn strip_hex(text: &Vec<char>) -> (digits: Option<&[char]>)
    ensures
        digits is Some <==> hex_digits(text@) is Some,
        digits matches Some(d) ==> Some(d@) == hex_digits(text@),
{
    proof {
        reveal_strlit("0x");
        reveal_strlit("0X");
    }
    if begins_with(text.as_slice(), "0x") || begins_with(text.as_slice(), "0X") {
        let digits: &[char] = slice_subrange(text.as_slice(), 2, text.len());
        assert(digits@ =~= text@.skip(2));
        Some(digits)
    } else {
        None
    }
}

/// What is wrong with a value that has to convert to an address.
pub open spec fn operand_problem(value: PointerArgument, operation: Seq<char>) -> Option<
    Seq<char>,
> {
    match value {
        PointerArgument::Pointer(_) | PointerArgument::Callable(_) => None,
        PointerArgument::Text(None) => Some("invalid pointer string"@),
        PointerArgument::Text(Some(text)) => match hex_digits(trimmed(text@)) {
            None => Some(operation + ": pointer string must be hexadecimal"@),
            Some(digits) => match parsed_u64(digits, 16) {
                None => Some(operation + ": invalid pointer string"@),
                Some(_) => None,
            },
        },
        PointerArgument::Number { unsigned, .. } => match unsigned {
            Some(_) => None,
            None => Some(operation + ": expected a pointer-compatible value"@),
        },
        PointerArgument::Other => Some(operation + ": expected a pointer-compatible value"@),
    }
}

/// The address that a value converts to.
pub open spec fn operand_value(value: PointerArgument) -> int {
    match value {
        PointerArgument::Pointer(pointer) => pointer.addr as int,
        PointerArgument::Callable(addr) => addr as int,
        PointerArgument::Text(Some(text)) => parsed_u64(
            hex_digits(trimmed(text@))->0,
            16,
        )->0 as int,
        PointerArgument::Number { unsigned: Some(number), .. } => number as int,
        _ => 0,
    }
}

fn operation_error(operation: &str, problem: &str) -> (error: ScriptError)
    ensures
        error@ == (ErrorKind::TypeError, operation@ + problem@),
{
    ScriptError { kind: ErrorKind::TypeError, message: joined(operation, problem) }
}

/// A value that has to convert to an address.
pub fn parse_pointer_operand(value: &PointerArgument, operation: &str) -> (result: Result<
    u64,
    ScriptError,
>)
    ensures
        result is Err <==> operand_problem(*value, operation@) is Some,
        result matches Ok(addr) ==> addr == operand_value(*value),
        result matches Err(error) ==> error@.0 == ErrorKind::TypeError && Some(error@.1)
            == operand_problem(*value, operation@),
{
    match value {
        PointerArgument::Pointer(pointer) => Ok(pointer.addr),
        PointerArgument::Callable(addr) => Ok(*addr),
        PointerArgument::Text(None) => Err(type_error("invalid pointer string")),
        PointerArgument::Text(Some(text)) => {
            let chars: Vec<char> = chars_of(text.as_str());
            let inner: Vec<char> = trim(chars.as_slice());
            match strip_hex(&inner) {
                None => Err(operation_error(operation, ": pointer string must be hexadecimal")),
                Some(digits) => match parse_u64(digits, 16) {
                    Some(addr) => Ok(addr),
                    None => Err(operation_error(operation, ": invalid pointer string")),
                },
            }
        },
        PointerArgument::Number { unsigned: Some(number), .. } => Ok(*number),
        _ => Err(operation_error(operation, ": expected a pointer-compatible value")),
    }
}

/// A text without all the copies of another one at its front.
pub open spec fn without_fronts(text: Seq<char>, front: Seq<char>) -> Seq<char>
    decreases text.len(),
{
    if front.len() > 0 && has_front(text, front) {
        without_fronts(text.skip(front.len() as int), front)
    } else {
        text
    }
}

fn strip_fronts(text: &Vec<char>, front: &str) -> (rest: Vec<char>)
    requires
        front@.len() == 2,
    ensures
        rest@ == without_fronts(text@, front@),
{
    let mut start: usize = 0;
    assert(text@.skip(0) =~= text@);
    let mut more: bool = true;
    while more
        invariant
            start <= text@.len(),
            front@.len() == 2,
            without_fronts(text@, front@) == without_fronts(text@.skip(start as int), front@),
            !more ==> !has_front(text@.skip(start as int), front@),
        decreases
            text@.len() - start,
            (if more {
                1int
            } else {
                0int
            }),
    {
        let rest: &[char] = slice_subrange(text.as_slice(), start, text.len());
        assert(rest@ =~= text@.skip(start as int));
        if begins_with(rest, front) {
            assert(text@.skip(start as int).skip(2) =~= text@.skip(start + 2));
            start = start + 2;
        } else {
            more = false;
        }
    }
    let rest: Vec<char> = vstd::slice::slice_to_vec(
        slice_subrange(text.as_slice(), start, text.len()),
    );
    assert(rest@ =~= text@.skip(start as int));
    rest
}

/// The digits of a text that is read as an address, with or without a prefix.
pub open spec fn pointer_digits(text: Seq<char>) -> Seq<char> {
    without_fronts(without_fronts(trimmed(text), "0x"@), "0X"@)
}

/// What is wrong with a value that is to become a pointer.
pub open spec fn pointer_problem(value: PointerArgument) -> Option<Seq<char>> {
    match value {
        PointerArgument::Text(None) => Some("Invalid string"@),
        PointerArgument::Text(Some(text)) => if parsed_u64(pointer_digits(text@), 16) is None {
            Some("Invalid hex string"@)
        } else {
            None
        },
        PointerArgument::Number { unsigned, .. } => if unsigned is None {
            Some("ptr() failed to convert numeric value"@)
        } else {
            None
        },
        PointerArgument::Pointer(_) => None,
        _ => Some("ptr() argument must be number, string, or BigInt"@),
    }
}

/// The pointer that a value becomes.
pub open spec fn pointer_of(value: PointerArgument) -> NativePointerData {
    match value {
        PointerArgument::Pointer(pointer) => pointer,
        PointerArgument::Text(Some(text)) => NativePointerData {
            addr: parsed_u64(pointer_digits(text@), 16)->0 as u64,
            owner: None,
        },
        PointerArgument::Number { unsigned: Some(number), .. } => NativePointerData {
            addr: number,
            owner: None,
        },
        _ => NativePointerData { addr: 0, owner: None },
    }
}

/// Makes a pointer of a value.
pub fn js_ptr(value: Option<&PointerArgument>) -> (result: Result<NativePointerData, ScriptError>)
    ensures
        result is Ok <==> value is Some && pointer_problem(*value->0) is None,
        result matches Ok(pointer) ==> pointer == pointer_of(*value->0),
        result matches Err(error) ==> error@ == (
            ErrorKind::TypeError,
            match value {
                None => "ptr() requires 1 argument"@,
                Some(value) => pointer_problem(*value)->0,
            },
        ),
{
    let value: &PointerArgument = match value {
        Some(value) => value,
        None => {
            return Err(type_error("ptr() requires 1 argument"));
        },
    };
    match value {
        PointerArgument::Text(None) => Err(type_error("Invalid string")),
        PointerArgument::Text(Some(text)) => {
            proof {
                reveal_strlit("0x");
                reveal_strlit("0X");
            }
            let chars: Vec<char> = chars_of(text.as_str());
            let inner: Vec<char> = trim(chars.as_slice());
            let lower: Vec<char> = strip_fronts(&inner, "0x");
            let digits: Vec<char> = strip_fronts(&lower, "0X");
            match parse_u64(digits.as_slice(), 16) {
                Some(addr) => Ok(create_native_pointer(addr)),
                None => Err(type_error("Invalid hex string")),
            }
        },
        PointerArgument::Number { unsigned: Some(number), .. } => Ok(create_native_pointer(*number)),
        PointerArgument::Number { unsigned: None, .. } => Err(
            type_error("ptr() failed to convert numeric value"),
        ),
        PointerArgument::Pointer(pointer) => Ok(*pointer),
        _ => Err(type_error("ptr() argument must be number, string, or BigInt")),
    }
}

/// What is wrong with an offset.
pub open spec fn offset_problem(value: PointerArgument) -> Option<Seq<char>> {
    match value {
        PointerArgument::Number { signed, .. } => if signed is None {
            Some("failed to convert numeric offset"@)
        } else {
            None
        },
        PointerArgument::Text(None) => Some("invalid string argument"@),
        PointerArgument::Text(Some(text)) => match hex_digits(trimmed(text@)) {
            None => Some("string offset must be hex (0x...)"@),
            Some(digits) => if parsed_u64(digits, 16) is None {
                Some("invalid hex string"@)
            } else {
                None
            },
        },
        PointerArgument::Pointer(_) | PointerArgument::Callable(_) => None,
        PointerArgument::Other => Some("offset must be a number, hex string, or NativePointer"@),
    }
}

/// The offset that a value stands for, up to a multiple of two to the sixty-fourth.
pub open spec fn offset_value(value: PointerArgument) -> int {
    match value {
        PointerArgument::Number { signed: Some(number), .. } => number as int,
        _ => operand_value(value),
    }
}

/// Whether two numbers are the same in sixty-four bits.
pub open spec fn same_bits(left: int, right: int) -> bool {
    left % 0x1_0000_0000_0000_0000 == right % 0x1_0000_0000_0000_0000
}

/// An unsigned number with the same bits as a signed one.
pub fn unsigned_bits(value: i64) -> (bits: u64)
    ensures
        same_bits(bits as int, value as int),
        bits == (value as int) % 0x1_0000_0000_0000_0000,
{
    if value >= 0 {
        value as u64
    } else {
        assert(value + 0x1_0000_0000_0000_0000 == (value as int) % 0x1_0000_0000_0000_0000) by (nonlinear_arith)
            requires
                -0x8000_0000_0000_0000 <= value < 0,
        ;
        (0xffff_ffff_ffff_ffffu64 - ((-(value + 1)) as u64))
    }
}

/// A signed number with the same bits as an unsigned one.
pub fn signed_bits(value: u64) -> (number: i64)
    ensures
        same_bits(number as int, value as int),
        number == if value < 0x8000_0000_0000_0000 {
            value as int
        } else {
            value - 0x1_0000_0000_0000_0000
        },
{
    if value < 0x8000_0000_0000_0000 {
        value as i64
    } else {
        assert(same_bits(value - 0x1_0000_0000_0000_0000, value as int)) by (nonlinear_arith);
        -((0xffff_ffff_ffff_ffffu64 - value) as i64) - 1
    }
}

/// An offset.
pub fn parse_offset(value: &PointerArgument) -> (result: Result<i64, ScriptError>)
    ensures
        result is Err <==> offset_problem(*value) is Some,
        result matches Ok(offset) ==> same_bits(offset as int, offset_value(*value)),
        result matches Err(error) ==> error@ == (ErrorKind::TypeError, offset_problem(*value)->0),
{
    match value {
        PointerArgument::Number { signed: Some(number), .. } => Ok(*number),
        PointerArgument::Number { signed: None, .. } => Err(
            type_error("failed to convert numeric offset"),
        ),
        PointerArgument::Text(None) => Err(type_error("invalid string argument")),
        PointerArgument::Text(Some(text)) => {
            let chars: Vec<char> = chars_of(text.as_str());
            let inner: Vec<char> = trim(chars.as_slice());
            match strip_hex(&inner) {
                None => Err(type_error("string offset must be hex (0x...)")),
                Some(digits) => match parse_u64(digits, 16) {
                    Some(offset) => Ok(signed_bits(offset)),
                    None => Err(type_error("invalid hex string")),
                },
            }
        },
        PointerArgument::Pointer(pointer) => Ok(signed_bits(pointer.addr)),
        PointerArgument::Callable(addr) => Ok(signed_bits(*addr)),
        PointerArgument::Other => Err(
            type_error("offset must be a number, hex string, or NativePointer"),
        ),
    }
}

/// What is wrong with a call on a pointer that takes one value.
pub open spec fn call_problem(
    this: Option<NativePointerData>,
    argument: Option<Option<Seq<char>>>,
    missing: Seq<char>,
) -> Option<Seq<char>> {
    if this is None {
        Some("Not a NativePointer"@)
    } else {
        match argument {
            None => Some(missing),
            Some(problem) => problem,
        }
    }
}

/// What is wrong with an offset that may be missing.
pub open spec fn given_offset(argument: Option<&PointerArgument>) -> Option<Option<Seq<char>>> {
    match argument {
        Some(value) => Some(offset_problem(*value)),
        None => None,
    }
}

/// What is wrong with an operand that may be missing.
pub open spec fn given_operand(argument: Option<&PointerArgument>, operation: Seq<char>) -> Option<
    Option<Seq<char>>,
> {
    match argument {
        Some(value) => Some(operand_problem(*value, operation)),
        None => None,
    }
}

/// The address that lies `distance` behind another one; addresses wrap around.
pub open spec fn moved(addr: int, distance: int) -> int {
    (addr + distance) % 0x1_0000_0000_0000_0000
}

proof fn lemma_moved(addr: u64, left: int, right: int)
    requires
        same_bits(left, right),
    ensures
        moved(addr as int, left) == moved(addr as int, right),
        moved(addr as int, -left) == moved(addr as int, -right),
{
    let m: int = 0x1_0000_0000_0000_0000;
    vstd::arithmetic::div_mod::lemma_add_mod_noop_right(addr as int, left, m);
    vstd::arithmetic::div_mod::lemma_add_mod_noop_right(addr as int, right, m);
    vstd::arithmetic::div_mod::lemma_sub_mod_noop_right(addr as int, left, m);
    vstd::arithmetic::div_mod::lemma_sub_mod_noop_right(addr as int, right, m);
}

/// The pointer behind another one by an offset. It keeps alive what the other one does.
pub fn native_pointer_add(this: Option<NativePointerData>, argument: Option<&PointerArgument>) -> (result:
    Result<NativePointerData, ScriptError>)
    ensures
        ({
            let problem = call_problem(
                this,
                given_offset(argument),
                "add() requires 1 argument"@,
            );
            &&& result is Err <==> problem is Some
            &&& result matches Err(error) ==> error@ == (ErrorKind::TypeError, problem->0)
            &&& result matches Ok(pointer) ==> pointer.addr == moved(
                this->0.addr as int,
                offset_value(*argument->0),
            ) && pointer.owner == this->0.owner
        }),
{
    let this: NativePointerData = match this {
        Some(this) => this,
        None => {
            return Err(type_error("Not a NativePointer"));
        },
    };
    let argument: &PointerArgument = match argument {
        Some(argument) => argument,
        None => {
            return Err(type_error("add() requires 1 argument"));
        },
    };
    match parse_offset(argument) {
        Ok(offset) => {
            let bits: u64 = unsigned_bits(offset);
            proof {
                lemma_moved(this.addr, bits as int, offset as int);
                lemma_moved(this.addr, offset as int, offset_value(*argument));
                lemma_wrapping(this.addr, bits);
            }
            Ok(NativePointerData { addr: this.addr.wrapping_add(bits), owner: this.owner })
        },
        Err(error) => Err(error),
    }
}

proof fn lemma_wrapping(left: u64, right: u64)
    ensures
        left + right > u64::MAX ==> moved(left as int, right as int) == left + right
            - 0x1_0000_0000_0000_0000,
        left + right <= u64::MAX ==> moved(left as int, right as int) == left + right,
        left < right ==> moved(left as int, -(right as int)) == left - right
            + 0x1_0000_0000_0000_0000,
        left >= right ==> moved(left as int, -(right as int)) == left - right,
{
    let m: int = 0x1_0000_0000_0000_0000;
    if left + right > u64::MAX {
        vstd::arithmetic::div_mod::lemma_mod_sub_multiples_vanish(left + right, m);
        vstd::arithmetic::div_mod::lemma_small_mod((left + right - m) as nat, m as nat);
    } else {
        vstd::arithmetic::div_mod::lemma_small_mod((left + right) as nat, m as nat);
    }
    if left < right {
        vstd::arithmetic::div_mod::lemma_mod_add_multiples_vanish(left - right, m);
        vstd::arithmetic::div_mod::lemma_small_mod((left - right + m) as nat, m as nat);
    } else {
        vstd::arithmetic::div_mod::lemma_small_mod((left - right) as nat, m as nat);
    }
}

/// The pointer before another one by an offset. It keeps alive what the other one does.
pub fn native_pointer_sub(this: Option<NativePointerData>, argument: Option<&PointerArgument>) -> (result:
    Result<NativePointerData, ScriptError>)
    ensures
        ({
            let problem = call_problem(
                this,
                given_offset(argument),
                "sub() requires 1 argument"@,
            );
            &&& result is Err <==> problem is Some
            &&& result matches Err(error) ==> error@ == (ErrorKind::TypeError, problem->0)
            &&& result matches Ok(pointer) ==> pointer.addr == moved(
                this->0.addr as int,
                -offset_value(*argument->0),
            ) && pointer.owner == this->0.owner
        }),
{
    let this: NativePointerData = match this {
        Some(this) => this,
        None => {
            return Err(type_error("Not a NativePointer"));
        },
    };
    let argument: &PointerArgument = match argument {
        Some(argument) => argument,
        None => {
            return Err(type_error("sub() requires 1 argument"));
        },
    };
    match parse_offset(argument) {
        Ok(offset) => {
            let bits: u64 = unsigned_bits(offset);
            proof {
                lemma_moved(this.addr, bits as int, offset as int);
                lemma_moved(this.addr, offset as int, offset_value(*argument));
                lemma_wrapping(this.addr, bits);
            }
            Ok(NativePointerData { addr: this.addr.wrapping_sub(bits), owner: this.owner })
        },
        Err(error) => Err(error),
    }
}

/// Whether a pointer is null.
pub fn native_pointer_is_null(this: &PointerArgument) -> (result: Result<bool, ScriptError>)
    ensures
        result is Ok <==> value_address(*this) is Some,
        result matches Ok(null) ==> null == (value_address(*this) == Some(0u64)),
        result matches Err(error) ==> error@ == (ErrorKind::TypeError, "Not a NativePointer"@),
{
    match get_native_pointer_addr(this) {
        Some(addr) => Ok(addr == 0),
        None => Err(type_error("Not a NativePointer")),
    }
}

/// What is wrong with a call on anything that has an address.
pub open spec fn address_call_problem(
    this: PointerArgument,
    argument: Option<Option<Seq<char>>>,
    missing: Seq<char>,
) -> Option<Seq<char>> {
    if value_address(this) is None {
        Some("Not a NativePointer"@)
    } else {
        match argument {
            None => Some(missing),
            Some(problem) => problem,
        }
    }
}

/// Whether two addresses are the same.
pub fn native_pointer_equals(this: &PointerArgument, argument: Option<&PointerArgument>) -> (result:
    Result<bool, ScriptError>)
    ensures
        ({
            let problem = address_call_problem(
                *this,
                given_operand(argument, "equals"@),
                "equals() requires 1 argument"@,
            );
            &&& result is Err <==> problem is Some
            &&& result matches Err(error) ==> error@ == (ErrorKind::TypeError, problem->0)
            &&& result matches Ok(same) ==> same == (value_address(*this)->0 == operand_value(
                *argument->0,
            ))
        }),
{
    let addr: u64 = match get_native_pointer_addr(this) {
        Some(addr) => addr,
        None => {
            return Err(type_error("Not a NativePointer"));
        },
    };
    let argument: &PointerArgument = match argument {
        Some(argument) => argument,
        None => {
            return Err(type_error("equals() requires 1 argument"));
        },
    };
    match parse_pointer_operand(argument, "equals") {
        Ok(other) => Ok(addr == other),
        Err(error) => Err(error),
    }
}

/// Which of two addresses is lower: minus one, zero or one.
pub fn native_pointer_compare(this: &PointerArgument, argument: Option<&PointerArgument>) -> (result:
    Result<i32, ScriptError>)
    ensures
        ({
            let problem = address_call_problem(
                *this,
                given_operand(argument, "compare"@),
                "compare() requires 1 argument"@,
            );
            &&& result is Err <==> problem is Some
            &&& result matches Err(error) ==> error@ == (ErrorKind::TypeError, problem->0)
            &&& result matches Ok(order) ==> order == if value_address(*this)->0 < operand_value(
                *argument->0,
            ) {
                -1
            } else if value_address(*this)->0 == operand_value(*argument->0) {
                0
            } else {
                1int
            }
        }),
{
    let addr: u64 = match get_native_pointer_addr(this) {
        Some(addr) => addr,
        None => {
            return Err(type_error("Not a NativePointer"));
        },
    };
    let argument: &PointerArgument = match argument {
        Some(argument) => argument,
        None => {
            return Err(type_error("compare() requires 1 argument"));
        },
    };
    match parse_pointer_operand(argument, "compare") {
        Ok(other) => Ok(
            if addr < other {
                -1
            } else if addr == other {
                0
            } else {
                1
            },
        ),
        Err(error) => Err(error),
    }
}

/// An operation on the bits of two addresses.
#[derive(Clone, Copy, Debug, PartialEq, Eq, Structural)]
pub enum BitOperation {
    And,
    Or,
    Xor,
}

/// The name of an operation.
pub open spec fn bit_operation_name(operation: BitOperation) -> Seq<char> {
    match operation {
        BitOperation::And => "and"@,
        BitOperation::Or => "or"@,
        BitOperation::Xor => "xor"@,
    }
}

/// What an operation gives.
pub open spec fn combined(operation: BitOperation, left: u64, right: u64) -> u64 {
    match operation {
        BitOperation::And => left & right,
        BitOperation::Or => left | right,
        BitOperation::Xor => left ^ right,
    }
}

/// The pointer whose bits come from two addresses. It keeps alive what the first one does.
pub fn native_pointer_combine(
    operation: BitOperation,
    this: Option<NativePointerData>,
    argument: Option<&PointerArgument>,
) -> (result: Result<NativePointerData, ScriptError>)
    ensures
        ({
            let name = bit_operation_name(operation);
            let problem = call_problem(
                this,
                given_operand(argument, name),
                name + "() requires 1 argument"@,
            );
            &&& result is Err <==> problem is Some
            &&& result matches Err(error) ==> error@ == (ErrorKind::TypeError, problem->0)
            &&& result matches Ok(pointer) ==> pointer.addr == combined(
                operation,
                this->0.addr,
                operand_value(*argument->0) as u64,
            ) && pointer.owner == this->0.owner
        }),
{
    let name: &'static str = match operation {
        BitOperation::And => "and",
        BitOperation::Or => "or",
        BitOperation::Xor => "xor",
    };
    let this: NativePointerData = match this {
        Some(this) => this,
        None => {
            return Err(type_error("Not a NativePointer"));
        },
    };
    let argument: &PointerArgument = match argument {
        Some(argument) => argument,
        None => {
            return Err(operation_error(name, "() requires 1 argument"));
        },
    };
    match parse_pointer_operand(argument, name) {
        Ok(other) => {
            let addr: u64 = match operation {
                BitOperation::And => this.addr & other,
                BitOperation::Or => this.addr | other,
                BitOperation::Xor => this.addr ^ other,
            };
            Ok(NativePointerData { addr, owner: this.owner })
        },
        Err(error) => Err(error),
    }
}

/// The pointer whose bits are shifted by a number of places below sixty-four. It keeps
/// alive what the first one does.
pub fn native_pointer_shift(
    this: Option<NativePointerData>,
    argument: Option<&PointerArgument>,
    left: bool,
) -> (result: Result<NativePointerData, ScriptError>)
    ensures
        ({
            let problem = call_problem(
                this,
                given_operand(
                    argument,
                    if left {
                        "shl"@
                    } else {
                        "shr"@
                    },
                ),
                "shift operation requires 1 argument"@,
            );
            let places = (operand_value(*argument->0) % 64) as u64;
            &&& result is Err <==> problem is Some
            &&& result matches Err(error) ==> error@ == (ErrorKind::TypeError, problem->0)
            &&& result matches Ok(pointer) ==> pointer.addr == (if left {
                this->0.addr << places
            } else {
                this->0.addr >> places
            }) && pointer.owner == this->0.owner
        }),
{
    let name: &'static str = if left {
        "shl"
    } else {
        "shr"
    };
    let this: NativePointerData = match this {
        Some(this) => this,
        None => {
            return Err(type_error("Not a NativePointer"));
        },
    };
    let argument: &PointerArgument = match argument {
        Some(argument) => argument,
        None => {
            return Err(type_error("shift operation requires 1 argument"));
        },
    };
    match parse_pointer_operand(argument, name) {
        Ok(amount) => {
            let places: u64 = amount % 64;
            let addr: u64 = if left {
                this.addr << places
            } else {
                this.addr >> places
            };
            Ok(NativePointerData { addr, owner: this.owner })
        },
        Err(error) => Err(error),
    }
}

/// The pointer with every bit turned over. It keeps alive what the first one does.
pub fn native_pointer_not(this: Option<NativePointerData>) -> (result: Result<
    NativePointerData,
    ScriptError,
>)
    ensures
        result is Ok <==> this is Some,
        result matches Ok(pointer) ==> pointer == (NativePointerData {
            addr: !this->0.addr,
            owner: this->0.owner,
        }),
        result matches Err(error) ==> error@ == (ErrorKind::TypeError, "Not a NativePointer"@),
{
    match this {
        Some(this) => Ok(NativePointerData { addr: !this.addr, owner: this.owner }),
        None => Err(type_error("Not a NativePointer")),
    }
}

/// The pointer without the tag in its top byte, where the processor passes tags over. It
/// keeps alive what the first one does.
pub fn native_pointer_strip(this: Option<NativePointerData>, tagged: bool) -> (result: Result<
    NativePointerData,
    ScriptError,
>)
    ensures
        result is Ok <==> this is Some,
        result matches Ok(pointer) ==> pointer.owner == this->0.owner && pointer.addr == if tagged {
            this->0.addr % 0x100_0000_0000_0000
        } else {
            this->0.addr
        },
        result matches Err(error) ==> error@ == (ErrorKind::TypeError, "Not a NativePointer"@),
{
    match this {
        Some(this) => {
            let addr: u64 = this.addr;
            let stripped: u64 = if tagged {
                assert(addr & 0x00ff_ffff_ffff_ffff == addr % 0x100_0000_0000_0000) by (bit_vector);
                addr & 0x00ff_ffff_ffff_ffff
            } else {
                addr
            };
            Ok(NativePointerData { addr: stripped, owner: this.owner })
        },
        None => Err(type_error("Not a NativePointer")),
    }
}

/// The base in which a script wants to see an address.
#[derive(Clone, Copy, Debug, PartialEq, Eq, Structural)]
pub enum RadixArgument {
    Missing,
    /// A value that does not convert to an integer.
    Other,
    Number(i64),
}

/// The text of an address in the base that a script wants.
pub open spec fn pointer_text(addr: u64, radix: RadixArgument) -> Option<Seq<char>> {
    match radix {
        RadixArgument::Missing => Some(prefixed_hex(addr as nat)),
        RadixArgument::Number(base) => if base == 0 {
            Some(prefixed_hex(addr as nat))
        } else if base == 10 || base == 16 {
            Some(numeral(addr as nat, base as nat))
        } else {
            None
        },
        RadixArgument::Other => None,
    }
}

/// The text of an address in the base that a script wants.
pub fn native_pointer_to_string(this: &PointerArgument, radix: RadixArgument) -> (result: Result<
    String,
    ScriptError,
>)
    ensures
        result is Ok <==> value_address(*this) is Some && pointer_text(
            value_address(*this)->0,
            radix,
        ) is Some,
        result matches Ok(text) ==> Some(text@) == pointer_text(value_address(*this)->0, radix),
        result matches Err(error) ==> error@ == if value_address(*this) is None {
            (ErrorKind::TypeError, "Not a NativePointer"@)
        } else if radix is Other {
            (ErrorKind::TypeError, "toString(): radix must be an integer"@)
        } else {
            (ErrorKind::RangeError, "toString(): unsupported radix"@)
        },
{
    let addr: u64 = match get_native_pointer_addr(this) {
        Some(addr) => addr,
        None => {
            return Err(type_error("Not a NativePointer"));
        },
    };
    let base: i64 = match radix {
        RadixArgument::Missing => 0,
        RadixArgument::Number(base) => base,
        RadixArgument::Other => {
            return Err(type_error("toString(): radix must be an integer"));
        },
    };
    if base == 0 {
        Ok(format_native_pointer(addr))
    } else if base == 10 {
        Ok(numeral_text(addr, 10))
    } else if base == 16 {
        Ok(numeral_text(addr, 16))
    } else {
        Err(range_error("toString(): unsupported radix"))
    }
}

/// The text by which an address is written out.
pub fn native_pointer_to_json(this: &PointerArgument) -> (result: Result<String, ScriptError>)
    ensures
        result is Ok <==> value_address(*this) is Some,
        result matches Ok(text) ==> text@ == prefixed_hex(value_address(*this)->0 as nat),
        result matches Err(error) ==> error@ == (ErrorKind::TypeError, "Not a NativePointer"@),
{
    match get_native_pointer_addr(this) {
        Some(addr) => Ok(format_native_pointer(addr)),
        None => Err(type_error("Not a NativePointer")),
    }
}

/// The address as a number.
pub fn native_pointer_to_number(this: &PointerArgument) -> (result: Result<u64, ScriptError>)
    ensures
        result is Ok <==> value_address(*this) is Some,
        result matches Ok(number) ==> Some(number) == value_address(*this),
        result matches Err(error) ==> error@ == (ErrorKind::TypeError, "Not a NativePointer"@),
{
    match get_native_pointer_addr(this) {
        Some(addr) => Ok(addr),
        None => Err(type_error("Not a NativePointer")),
    }
}

/// The low half of the address as a signed number.
pub fn native_pointer_to_int32(this: &PointerArgument) -> (result: Result<i32, ScriptError>)
    ensures
        result is Ok <==> value_address(*this) is Some,
        result matches Ok(number) ==> number == low_signed(value_address(*this)->0 as int),
        result matches Err(error) ==> error@ == (ErrorKind::TypeError, "Not a NativePointer"@),
{
    match get_native_pointer_addr(this) {
        Some(addr) => Ok(native_pointer_as_i32(addr)),
        None => Err(type_error("Not a NativePointer")),
    }
}

/// The low half of the address.
pub fn native_pointer_to_uint32(this: &PointerArgument) -> (result: Result<u32, ScriptError>)
    ensures
        result is Ok <==> value_address(*this) is Some,
        result matches Ok(number) ==> number == value_address(*this)->0 % 0x1_0000_0000,
        result matches Err(error) ==> error@ == (ErrorKind::TypeError, "Not a NativePointer"@),
{
    match get_native_pointer_addr(this) {
        Some(addr) => Ok(native_pointer_as_u32(addr)),
        None => Err(type_error("Not a NativePointer")),
    }
}

/// Bytes in hexadecimal, two digits each, with spaces between them.
pub open spec fn spaced_hex(bytes: Seq<u8>) -> Seq<char>
    decreases bytes.len(),
{
    if bytes.len() == 0 {
        seq![]
    } else if bytes.len() == 1 {
        zero_padded(numeral(bytes[0] as nat, 16), 2)
    } else {
        spaced_hex(bytes.drop_last()) + seq![' '] + zero_padded(
            numeral(bytes.last() as nat, 16),
            2,
        )
    }
}

/// The pattern that finds an address in memory, lowest byte first.
pub fn native_pointer_to_match_pattern(this: &PointerArgument) -> (result: Result<
    String,
    ScriptError,
>)
    ensures
        result is Ok <==> value_address(*this) is Some,
        result matches Ok(text) ==> text@ == spaced_hex(
            le_bytes(value_address(*this)->0 as nat, 8),
        ),
        result matches Err(error) ==> error@ == (ErrorKind::TypeError, "Not a NativePointer"@),
{
    let addr: u64 = match get_native_pointer_addr(this) {
        Some(addr) => addr,
        None => {
            return Err(type_error("Not a NativePointer"));
        },
    };
    let mut bytes: Vec<u8> = Vec::new();
    push_le(&mut bytes, addr, 8);
    assert(bytes@ =~= le_bytes(addr as nat, 8));
    let mut text: String = String::new();
    let mut i: usize = 0;
    assert(bytes@.take(0) =~= seq![]);
    while i < bytes.len()
        invariant
            i <= bytes@.len(),
            text@ == spaced_hex(bytes@.take(i as int)),
        decreases bytes@.len() - i,
    {
        assert(bytes@.take(i + 1).drop_last() =~= bytes@.take(i as int));
        let ghost before = text@;
        if i > 0 {
            text.push(' ');
        }
        push_zero_padded(&mut text, bytes[i] as u64, 16, 2);
        let ghost digits = zero_padded(numeral(bytes@[i as int] as nat, 16), 2);
        proof {
            if i == 0 {
                assert(before =~= seq![]);
                assert(text@ =~= digits);
            } else {
                assert(text@ =~= before + seq![' '] + digits);
            }
        }
        i = i + 1;
    }
    assert(bytes@.take(bytes@.len() as int) =~= bytes@);
    Ok(text)
}

proof fn lemma_hex_text(addr: u64)
    ensures
        trimmed(prefixed_hex(addr as nat)) == prefixed_hex(addr as nat),
        hex_digits(prefixed_hex(addr as nat)) == Some(numeral(addr as nat, 16)),
        parsed_u64(numeral(addr as nat, 16), 16) == Some(addr as nat),
        !has_front(numeral(addr as nat, 16), "0x"@),
        !has_front(numeral(addr as nat, 16), "0X"@),
{
    let digits = numeral(addr as nat, 16);
    let text = prefixed_hex(addr as nat);
    reveal_strlit("0x");
    reveal_strlit("0X");
    numeral_reads_back(addr as nat, 16);
    assert(crate::text::digit_value(digits[0]) is Some);
    assert(digits[0] != '+');
    assert(text.skip(2) =~= digits);
    assert(text.take(2) =~= "0x"@);
    assert(text.subrange(0, text.len() as int) =~= text);
    assert(crate::text::digit_value(digits[digits.len() - 1]) is Some);
    assert(!is_space(text[0]));
    assert(!is_space(text[text.len() - 1]));
    assert(is_trimmed(text, text));
    trimming_is_unique(text, text);
    if digits.len() >= 2 {
        assert(crate::text::digit_value(digits[1]) is Some);
        assert(digits.take(2)[1] == digits[1]);
    }
}

/// The text of a pointer, given back to the library, is that pointer's address.
pub proof fn pointers_read_back(addr: u64, value: PointerArgument)
    requires
        value matches PointerArgument::Text(Some(text)) && text@ == prefixed_hex(addr as nat),
    ensures
        pointer_problem(value) is None,
        pointer_of(value) == (NativePointerData { addr, owner: None }),
        forall|operation: Seq<char>| operand_problem(value, operation) is None,
        operand_value(value) == addr,
{
    lemma_hex_text(addr);
    reveal_strlit("0x");
    reveal_strlit("0X");
    let text = prefixed_hex(addr as nat);
    let digits = numeral(addr as nat, 16);
    assert(text.take(2) =~= "0x"@);
    assert(text.skip(2) =~= digits);
    assert(without_fronts(text, "0x"@) == without_fronts(digits, "0x"@));
    assert(without_fronts(digits, "0x"@) == digits);
    assert(without_fronts(digits, "0X"@) == digits);
}

/// Going forward by a distance and back by the same one leads to where it began.
pub proof fn moving_there_and_back(addr: u64, distance: int)
    ensures
        moved(moved(addr as int, distance), -distance) == addr,
        moved(moved(addr as int, -distance), distance) == addr,
{
    let m: int = 0x1_0000_0000_0000_0000;
    vstd::arithmetic::div_mod::lemma_sub_mod_noop(addr + distance, distance, m);
    vstd::arithmetic::div_mod::lemma_sub_mod_noop_right(
        (addr + distance) % m,
        distance,
        m,
    );
    vstd::arithmetic::div_mod::lemma_add_mod_noop(addr - distance, distance, m);
    vstd::arithmetic::div_mod::lemma_add_mod_noop_right(
        (addr - distance) % m,
        distance,
        m,
    );
    vstd::arithmetic::div_mod::lemma_small_mod(addr as nat, m as nat);
}

/// Turning every bit over twice changes nothing, and neither does an exclusive or with the
/// same bits twice.
pub proof fn bits_turn_back(addr: u64, mask: u64)
    ensures
        !(!addr) == addr,
        combined(BitOperation::Xor, combined(BitOperation::Xor, addr, mask), mask) == addr,
{
    assert(!(!addr) == addr) by (bit_vector);
    assert((addr ^ mask) ^ mask == addr) by (bit_vector);
}

/// The characters of a byte in hexadecimal, as bytes.
spec fn byte_digits(byte: u8) -> Seq<u8> {
    seq![digit_char(byte as nat / 16) as u8, digit_char(byte as nat % 16) as u8]
}

/// The characters of bytes in hexadecimal in a row, as bytes.
spec fn all_byte_digits(bytes: Seq<u8>) -> Seq<u8>
    decreases bytes.len(),
{
    if bytes.len() == 0 {
        seq![]
    } else {
        all_byte_digits(bytes.drop_last()) + byte_digits(bytes.last())
    }
}

proof fn lemma_digit_byte(digit: nat)
    requires
        digit < 16,
    ensures
        is_hex(digit_char(digit) as u8),
        hex_value(digit_char(digit) as u8) == digit,
        '\0' <= digit_char(digit) <= '\u{7f}',
        digit_char(digit) != ' ',
        digit_char(digit) != ':',
{
}

proof fn lemma_two_digits(byte: u8)
    ensures
        zero_padded(numeral(byte as nat, 16), 2) == seq![
            digit_char(byte as nat / 16),
            digit_char(byte as nat % 16),
        ],
{
    let value = byte as nat;
    let text = zero_padded(numeral(value, 16), 2);
    reveal_with_fuel(numeral, 3);
    if value < 16 {
        assert(numeral(value, 16) =~= seq![digit_char(value)]);
        assert(digit_char(0) == '0');
        assert(text =~= seq![digit_char(0), digit_char(value)]);
    } else {
        assert(numeral(value / 16, 16) =~= seq![digit_char(value / 16)]);
        assert(text =~= seq![digit_char(value / 16), digit_char(value % 16)]);
    }
}

proof fn lemma_digit_pairs(bytes: Seq<u8>)
    ensures
        all_byte_digits(bytes).len() == 2 * bytes.len(),
        forall|i: int|
            0 <= i < bytes.len() ==> all_byte_digits(bytes)[2 * i] == #[trigger] byte_digits(
                bytes[i],
            )[0] && all_byte_digits(bytes)[2 * i + 1] == byte_digits(bytes[i])[1],
    decreases bytes.len(),
{
    if bytes.len() > 0 {
        let front = bytes.drop_last();
        lemma_digit_pairs(front);
        assert forall|i: int| 0 <= i < bytes.len() implies all_byte_digits(bytes)[2 * i]
            == #[trigger] byte_digits(bytes[i])[0] && all_byte_digits(bytes)[2 * i + 1]
            == byte_digits(bytes[i])[1] by {
            if i < front.len() {
                assert(all_byte_digits(front)[2 * i] == byte_digits(front[i])[0]);
            }
        }
    }
}

/// Characters as bytes, each one for one.
spec fn narrowed(text: Seq<char>) -> Seq<u8> {
    Seq::new(text.len(), |i: int| text[i] as u8)
}

proof fn lemma_spaced_hex(bytes: Seq<u8>)
    ensures
        forall|i: int|
            0 <= i < spaced_hex(bytes).len() ==> '\0' <= #[trigger] spaced_hex(bytes)[i] <= '\u{7f}'
                && spaced_hex(bytes)[i] != ':',
        without_spaces(narrowed(spaced_hex(bytes))) == all_byte_digits(bytes),
    decreases bytes.len(),
{
    let text = spaced_hex(bytes);
    let row = narrowed(text);
    if bytes.len() > 0 {
        let front = bytes.drop_last();
        let byte = bytes.last();
        lemma_two_digits(byte);
        lemma_digit_byte(byte as nat / 16);
        lemma_digit_byte(byte as nat % 16);
        lemma_spaced_hex(front);
        let high = digit_char(byte as nat / 16);
        let low = digit_char(byte as nat % 16);
        let before = if bytes.len() == 1 {
            seq![]
        } else {
            spaced_hex(front) + seq![' ']
        };
        assert(front.len() == 0 ==> spaced_hex(front) =~= seq![]);
        assert(text =~= before + seq![high, low]);
        assert(row.drop_last() =~= narrowed(before).push(high as u8));
        assert(row.drop_last().drop_last() =~= narrowed(before));
        if bytes.len() > 1 {
            assert(narrowed(before).drop_last() =~= narrowed(spaced_hex(front)));
            assert(narrowed(before).last() == 0x20u8);
        } else {
            assert(narrowed(before) =~= narrowed(spaced_hex(front)));
        }
        assert(without_spaces(narrowed(before)) == all_byte_digits(front));
        assert(without_spaces(row.drop_last()) =~= all_byte_digits(front).push(high as u8));
        assert(without_spaces(row) =~= all_byte_digits(front).push(high as u8).push(low as u8));
        assert(all_byte_digits(bytes) =~= all_byte_digits(front).push(high as u8).push(low as u8));
        assert forall|i: int| 0 <= i < text.len() implies '\0' <= #[trigger] text[i] <= '\u{7f}'
            && text[i] != ':' by {
            if i < before.len() {
                assert(text[i] == before[i]);
                if i < spaced_hex(front).len() {
                    assert(text[i] == spaced_hex(front)[i]);
                }
            }
        }
    } else {
        assert(row =~= seq![]);
    }
}

proof fn lemma_no_colon(input: Seq<u8>, from: int)
    requires
        0 <= from <= input.len(),
        forall|i: int| 0 <= i < input.len() ==> input[i] != 0x3a,
    ensures
        first_colon(input, from) == input.len(),
    decreases input.len() - from,
{
    if from < input.len() {
        lemma_no_colon(input, from + 1);
    }
}

/// The pattern that a pointer gives is one that the search for patterns accepts, and among
/// places of a pointer's size it finds exactly those that hold the pointer.
pub proof fn match_patterns_find_their_pointer(
    addr: u64,
    text: Seq<char>,
    pattern: MatchPattern,
    candidate: Seq<u8>,
)
    requires
        text == spaced_hex(le_bytes(addr as nat, 8)),
        denotes_pattern(text, pattern),
        candidate.len() == 8,
    ensures
        pattern_problem(encode_utf8(text)) is None,
        pattern.bytes@ == le_bytes(addr as nat, 8),
        matches_bytes(pattern.bytes@, pattern.masks@, candidate) <==> candidate == le_bytes(
            addr as nat,
            8,
        ),
{
    let bytes = le_bytes(addr as nat, 8);
    let input = encode_utf8(text);
    let digits = all_byte_digits(bytes);
    lemma_byte_ranges();
    le_bytes_read_back(addr as nat, 8);
    lemma_spaced_hex(bytes);
    lemma_digit_pairs(bytes);
    assert(vstd::utf8::is_ascii_chars(text));
    vstd::utf8::is_ascii_chars_encode_utf8(text);
    assert(input =~= narrowed(text));
    assert forall|i: int| 0 <= i < input.len() implies input[i] != 0x3a by {
        assert(text[i] != ':');
        assert(text[i] as u8 == input[i]);
    }
    lemma_no_colon(input, 0);
    assert(match_part(input) =~= input);
    assert(without_spaces(match_part(input)) == digits);
    assert forall|i: int| 0 <= i < digits.len() implies is_nibble(#[trigger] digits[i], true)
        && digits[i] != 0x3f by {
        let at = i / 2;
        lemma_digit_byte(bytes[at] as nat / 16);
        lemma_digit_byte(bytes[at] as nat % 16);
        assert(byte_digits(bytes[at])[i % 2] == digits[i]);
    }
    let shown = pattern_bytes(digits);
    let masks = pattern_masks(digits, None);
    assert forall|i: int| 0 <= i < bytes.len() implies #[trigger] shown[i] == bytes[i] && masks[i]
        == 0xffu8 by {
        lemma_digit_byte(bytes[i] as nat / 16);
        lemma_digit_byte(bytes[i] as nat % 16);
        assert(byte_digits(bytes[i])[0] == digits[2 * i]);
        assert(digits[2 * i] != 0x3f && digits[2 * i + 1] != 0x3f);
    }
    assert(shown =~= bytes);
    assert(explicit_digits(input) is None);
    assert(masks[0] == 0xffu8 && masks.last() == 0xffu8) by {
        assert(shown[0] == bytes[0]);
        assert(shown[7] == bytes[7]);
    }
    assert(pattern.bytes@ == shown);
    assert(pattern.masks@ == masks);
    assert(forall|a: u8, b: u8| a & 0xff == b & 0xff ==> a == b) by (bit_vector);
    if matches_bytes(pattern.bytes@, pattern.masks@, candidate) {
        assert forall|i: int| 0 <= i < 8 implies candidate[i] == bytes[i] by {
            assert(shown[i] == bytes[i]);
            assert(candidate[i] & masks[i] == shown[i] & masks[i]);
        }
        assert(candidate =~= bytes);
    }
}

/// An address that is moved differs from the sum by a multiple of two to the sixty-fourth,
/// and is the sum itself where that is an address.
pub proof fn moving_wraps_around(addr: u64, distance: int)
    ensures
        0 <= moved(addr as int, distance) <= 0xffff_ffff_ffff_ffff,
        (addr + distance - moved(addr as int, distance)) % 0x1_0000_0000_0000_0000 == 0,
        0 <= addr + distance <= 0xffff_ffff_ffff_ffff ==> moved(addr as int, distance) == addr
            + distance,
{
    let m: int = 0x1_0000_0000_0000_0000;
    let value = addr + distance;
    vstd::arithmetic::div_mod::lemma_fundamental_div_mod(value, m);
    vstd::arithmetic::div_mod::lemma_mod_multiples_basic(value / m, m);
    if 0 <= value < m {
        vstd::arithmetic::div_mod::lemma_small_mod(value as nat, m as nat);
    }
}

/// The low half of an address with a sign differs from the address by a multiple of two to
/// the thirty-second and lies in the range of thirty-two bits.
pub proof fn low_halves_keep_their_bits(addr: u64)
    ensures
        -0x8000_0000 <= low_signed(addr as int) <= 0x7fff_ffff,
        (addr - low_signed(addr as int)) % 0x1_0000_0000 == 0,
{
    let m: int = 0x1_0000_0000;
    let q = addr as int / m;
    vstd::arithmetic::div_mod::lemma_fundamental_div_mod(addr as int, m);
    vstd::arithmetic::div_mod::lemma_mod_multiples_basic(q, m);
    vstd::arithmetic::div_mod::lemma_mod_multiples_basic(q + 1, m);
}

/// Each bit of a combination comes from the bits at the same place: both, one of them, or
/// just one of them.
pub proof fn bits_are_combined_place_by_place(left: u64, right: u64, place: u64)
    requires
        place < 64,
    ensures
        ({
            let l = (left >> place) & 1 == 1;
            let r = (right >> place) & 1 == 1;
            &&& (combined(BitOperation::And, left, right) >> place) & 1 == 1 <==> l && r
            &&& (combined(BitOperation::Or, left, right) >> place) & 1 == 1 <==> l || r
            &&& (combined(BitOperation::Xor, left, right) >> place) & 1 == 1 <==> l != r
        }),
{
    assert({
        let l = (left >> place) & 1 == 1;
        let r = (right >> place) & 1 == 1;
        &&& ((left & right) >> place) & 1 == 1 <==> l && r
        &&& ((left | right) >> place) & 1 == 1 <==> l || r
        &&& ((left ^ right) >> place) & 1 == 1 <==> l != r
    }) by (bit_vector)
        requires
            place < 64,
    ;
}

/// What an operand stands for: the address of a pointer or of something that can be called,
/// an unsigned number, or the digits of a text behind `0x`. Other values are refused, with
/// the name of the operation in front.
pub proof fn operands_are_addresses(value: PointerArgument, operation: Seq<char>)
    ensures
        value is Pointer ==> operand_problem(value, operation) is None && operand_value(value)
            == value->Pointer_0.addr,
        value is Callable ==> operand_problem(value, operation) is None && operand_value(value)
            == value->Callable_0,
        value is Number && value->Number_unsigned is Some ==> operand_problem(
            value,
            operation,
        ) is None && operand_value(value) == value->Number_unsigned->0,
        value is Number && value->Number_unsigned is None || value is Other ==> operand_problem(
            value,
            operation,
        ) == Some(operation + ": expected a pointer-compatible value"@),
        value is Text && value->Text_0 is None ==> operand_problem(value, operation) == Some(
            "invalid pointer string"@,
        ),
        forall|digits: Seq<char>|
            value is Text && value->Text_0 is Some && is_trimmed(
                value->Text_0->0@,
                #[trigger] ("0x"@ + digits),
            ) ==> (operand_problem(value, operation) is None <==> parsed_u64(digits, 16) is Some)
                && (parsed_u64(digits, 16) matches Some(addr) ==> operand_value(value) == addr),
        forall|digits: Seq<char>|
            value is Text && value->Text_0 is Some && is_trimmed(
                value->Text_0->0@,
                #[trigger] ("0X"@ + digits),
            ) ==> (operand_problem(value, operation) is None <==> parsed_u64(digits, 16) is Some)
                && (parsed_u64(digits, 16) matches Some(addr) ==> operand_value(value) == addr),
{
    reveal_strlit("0x");
    reveal_strlit("0X");
    assert forall|digits: Seq<char>|
        value is Text && value->Text_0 is Some && is_trimmed(
            value->Text_0->0@,
            #[trigger] ("0x"@ + digits),
        ) implies (operand_problem(value, operation) is None <==> parsed_u64(digits, 16) is Some)
        && (parsed_u64(digits, 16) matches Some(addr) ==> operand_value(value) == addr) by {
        trimming_is_unique(value->Text_0->0@, "0x"@ + digits);
        assert(("0x"@ + digits).take(2) =~= "0x"@);
        assert(("0x"@ + digits).skip(2) =~= digits);
    }
    assert forall|digits: Seq<char>|
        value is Text && value->Text_0 is Some && is_trimmed(
            value->Text_0->0@,
            #[trigger] ("0X"@ + digits),
        ) implies (operand_problem(value, operation) is None <==> parsed_u64(digits, 16) is Some)
        && (parsed_u64(digits, 16) matches Some(addr) ==> operand_value(value) == addr) by {
        trimming_is_unique(value->Text_0->0@, "0X"@ + digits);
        assert(("0X"@ + digits).take(2) =~= "0X"@);
        assert(("0X"@ + digits).skip(2) =~= digits);
    }
}

/// An offset is a signed number, or else what it is as an operand.
pub proof fn offsets_have_signs(value: PointerArgument, operation: Seq<char>)
    ensures
        value is Number && value->Number_signed is Some ==> offset_problem(value) is None
            && offset_value(value) == value->Number_signed->0,
        value is Number && value->Number_signed is None ==> offset_problem(value) is Some,
        !(value is Number) ==> (offset_problem(value) is None <==> operand_problem(
            value,
            operation,
        ) is None),
        !(value is Number) ==> offset_value(value) == operand_value(value),
{
}

/// What becomes a pointer: another pointer as it is, an unsigned number, or a text whose
/// hexadecimal digits stand alone or behind a mark; the pointer that is made of a number or
/// a text keeps nothing alive.
pub proof fn pointers_are_made_of_addresses(value: PointerArgument, digits: Seq<char>)
    requires
        !has_front(digits, "0x"@),
        !has_front(digits, "0X"@),
    ensures
        value is Pointer ==> pointer_problem(value) is None && pointer_of(value)
            == value->Pointer_0,
        value is Number && value->Number_unsigned is Some ==> pointer_problem(value) is None
            && pointer_of(value) == (NativePointerData {
            addr: value->Number_unsigned->0,
            owner: None,
        }),
        value is Callable || value is Other || value is Number && value->Number_unsigned is None
            ==> pointer_problem(value) is Some,
        (value matches PointerArgument::Text(Some(text)) && (is_trimmed(text@, digits)
            || is_trimmed(text@, "0x"@ + digits) || is_trimmed(text@, "0X"@ + digits))) ==> {
            &&& pointer_problem(value) is None <==> parsed_u64(digits, 16) is Some
            &&& parsed_u64(digits, 16) matches Some(addr) ==> pointer_of(value) == (
            NativePointerData { addr: addr as u64, owner: None })
        },
{
    if value is Text && value->Text_0 is Some {
        let text = value->Text_0->0@;
        reveal_strlit("0x");
        reveal_strlit("0X");
        let lower = "0x"@ + digits;
        let upper = "0X"@ + digits;
        assert(lower.take(2) =~= "0x"@);
        assert(lower.skip(2) =~= digits);
        assert(upper.take(2) =~= "0X"@);
        assert(upper.skip(2) =~= digits);
        assert(upper.take(2)[1] != "0x"@[1]);
        reveal_with_fuel(without_fronts, 2);
        if is_trimmed(text, digits) {
            trimming_is_unique(text, digits);
        } else if is_trimmed(text, lower) {
            trimming_is_unique(text, lower);
            assert(without_fronts(lower, "0x"@) == digits);
        } else if is_trimmed(text, upper) {
            trimming_is_unique(text, upper);
            assert(without_fronts(upper, "0x"@) == upper);
            assert(without_fronts(upper, "0X"@) == digits);
        }
    }
}

/// An address is shown in hexadecimal behind `0x` unless a base is asked for; in base ten
/// or sixteen it stands alone, and there are no other bases.
pub proof fn pointers_show_their_address(addr: u64, base: i64)
    ensures
        pointer_text(addr, RadixArgument::Missing) matches Some(text) && text.take(2) == "0x"@
            && spells(text.skip(2), addr as nat, 16, 1),
        pointer_text(addr, RadixArgument::Number(0)) == pointer_text(addr, RadixArgument::Missing),
        pointer_text(addr, RadixArgument::Number(10)) matches Some(text) && spells(
            text,
            addr as nat,
            10,
            1,
        ),
        pointer_text(addr, RadixArgument::Number(16)) matches Some(text) && spells(
            text,
            addr as nat,
            16,
            1,
        ),
        base != 0 && base != 10 && base != 16 ==> pointer_text(
            addr,
            RadixArgument::Number(base),
        ) is None,
        pointer_text(addr, RadixArgument::Other) is None,
{
    reveal_strlit("0x");
    numerals_spell_their_values(addr as nat, 16, 1);
    numerals_spell_their_values(addr as nat, 10, 1);
    assert(prefixed_hex(addr as nat).take(2) =~= "0x"@);
    assert(prefixed_hex(addr as nat).skip(2) =~= numeral(addr as nat, 16));
}

/// A call on a pointer needs the pointer and an argument that is right; the pointer is asked
/// for first.
pub proof fn calls_need_a_pointer_and_an_argument(
    this: Option<NativePointerData>,
    other: PointerArgument,
    argument: Option<Option<Seq<char>>>,
    missing: Seq<char>,
)
    ensures
        call_problem(this, argument, missing) is None <==> this is Some && argument is Some
            && argument->0 is None,
        this is None ==> call_problem(this, argument, missing) == Some("Not a NativePointer"@),
        this is Some && argument is None ==> call_problem(this, argument, missing) == Some(missing),
        address_call_problem(other, argument, missing) is None <==> (other is Pointer || other
            is Callable) && argument is Some && argument->0 is None,
        bit_operation_name(BitOperation::And) == "and"@,
        bit_operation_name(BitOperation::Or) == "or"@,
        bit_operation_name(BitOperation::Xor) == "xor"@,
{
}

/// One more pointer to an allocation counts one more, and one less one less; the other
/// allocations stay, and one goes with its last pointer.
pub proof fn pointers_to_allocations_are_counted(live: Seq<OwnedAllocation>, at: int)
    requires
        kept_alive(live),
        0 <= at < live.len(),
        live[at].pointers < u64::MAX,
    ensures
        with_pointer(live, live[at].id).len() == live.len(),
        with_pointer(live, live[at].id)[at].pointers == live[at].pointers + 1,
        forall|i: int|
            0 <= i < live.len() && i != at ==> #[trigger] with_pointer(live, live[at].id)[i]
                == live[i],
        live[at].pointers == 1 ==> without_pointer(live, live[at].id) == live.take(at) + live.skip(
            at + 1,
        ),
        live[at].pointers > 1 ==> without_pointer(live, live[at].id).len() == live.len()
            && without_pointer(live, live[at].id)[at].pointers == live[at].pointers - 1,
{
    lemma_allocation_at(live, at);
    if live[at].pointers == 1 {
        assert(live.remove(at) =~= live.take(at) + live.skip(at + 1));
    }
}

} // verus!
