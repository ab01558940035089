//! Allocating pages and changing their protection.

use crate::script::{internal_error, range_error, type_error, ErrorKind, ScriptError};
use crate::sorting::{stable_sort, stable_sorted, stable_sorted_orders, SortKey};
use crate::text::{chars_of, prefixed_hex, push_prefixed_hex};
use vstd::prelude::*;
use vstd::string::*;

verus! {

pub const PROT_READ: i32 = 1;

pub const PROT_WRITE: i32 = 2;

pub const PROT_EXEC: i32 = 4;

/// Most candidates that are collected before no further gap is filled up.
pub const MAX_CANDIDATES: usize = 4096;

/// Largest size that a script may ask for.
pub const MAX_ALLOCATION: i64 = 0x7fff_ffff;

/// The flags for a choice of rights.
pub open spec fn protection_flags(read: bool, write: bool, execute: bool) -> i32 {
    (if read {
        1i32
    } else {
        0i32
    } + if write {
        2i32
    } else {
        0i32
    } + if execute {
        4i32
    } else {
        0i32
    }) as i32
}

/// The flags that a text such as `rw-` stands for.
pub open spec fn parsed_protection(text: Seq<char>) -> Option<i32> {
    if text.len() == 3 && (text[0] == 'r' || text[0] == '-') && (text[1] == 'w' || text[1] == '-')
        && (text[2] == 'x' || text[2] == '-') {
        Some(protection_flags(text[0] == 'r', text[1] == 'w', text[2] == 'x'))
    } else {
        None
    }
}

/// The text for flags.
pub open spec fn protection_text(protection: i32) -> Seq<char> {
    seq![
        if protection & PROT_READ != 0 {
            'r'
        } else {
            '-'
        },
        if protection & PROT_WRITE != 0 {
            'w'
        } else {
            '-'
        },
        if protection & PROT_EXEC != 0 {
            'x'
        } else {
            '-'
        },
    ]
}

/// Reads a protection such as `rw-`.
pub fn parse_protection(text: &str) -> (protection: Option<i32>)
    ensures
        protection == parsed_protection(text@),
{
    let chars: Vec<char> = chars_of(text);
    if chars.len() != 3 {
        return None;
    }
    let mut protection: i32 = 0;
    if chars[0] == 'r' {
        protection = protection + PROT_READ;
    } else if chars[0] != '-' {
        return None;
    }
    if chars[1] == 'w' {
        protection = protection + PROT_WRITE;
    } else if chars[1] != '-' {
        return None;
    }
    if chars[2] == 'x' {
        protection = protection + PROT_EXEC;
    } else if chars[2] != '-' {
        return None;
    }
    Some(protection)
}

/// The text for flags.
pub fn format_protection(protection: i32) -> (text: String)
    ensures
        text@ == protection_text(protection),
{
    let mut text: String = String::new();
    if protection & PROT_READ != 0 {
        text.push('r');
    } else {
        text.push('-');
    }
    if protection & PROT_WRITE != 0 {
        text.push('w');
    } else {
        text.push('-');
    }
    if protection & PROT_EXEC != 0 {
        text.push('x');
    } else {
        text.push('-');
    }
    assert(text@ =~= protection_text(protection));
    text
}

/// Writing a protection that was read gives the same text.
pub proof fn protection_reads_back(text: Seq<char>)
    requires
        parsed_protection(text) is Some,
    ensures
        protection_text(parsed_protection(text)->0) == text,
{
    assert(0i32 & 1 == 0 && 1i32 & 1 == 1 && 2i32 & 1 == 0 && 3i32 & 1 == 1 && 4i32 & 1 == 0
        && 5i32 & 1 == 1 && 6i32 & 1 == 0 && 7i32 & 1 == 1) by (bit_vector);
    assert(0i32 & 2 == 0 && 1i32 & 2 == 0 && 2i32 & 2 == 2 && 3i32 & 2 == 2 && 4i32 & 2 == 0
        && 5i32 & 2 == 0 && 6i32 & 2 == 2 && 7i32 & 2 == 2) by (bit_vector);
    assert(0i32 & 4 == 0 && 1i32 & 4 == 0 && 2i32 & 4 == 0 && 3i32 & 4 == 0 && 4i32 & 4 == 4
        && 5i32 & 4 == 4 && 6i32 & 4 == 4 && 7i32 & 4 == 4) by (bit_vector);
    assert(protection_text(parsed_protection(text)->0) =~= text);
}

/// Whole pages.
#[derive(Clone, Copy, Debug, PartialEq, Eq, Structural)]
pub struct PageRange {
    pub start: u64,
    pub length: u64,
}

/// The pages that hold some bytes, if rounding up to a page does not pass the end of
/// memory.
pub open spec fn covering_pages(address: u64, size: u64, page_size: u64) -> Option<PageRange> {
    if address + size > u64::MAX || address + size + (page_size - 1) > u64::MAX {
        None
    } else {
        let start = address - address % page_size;
        let end = address + size + (page_size - 1);
        Some(
            PageRange {
                start: start as u64,
                length: (end - end % (page_size as int) - start) as u64,
            },
        )
    }
}

proof fn lemma_mod_at_most(value: u64, unit: u64)
    by (nonlinear_arith)
    requires
        unit > 0,
    ensures
        0 <= value % unit <= value,
{
}

/// The pages that hold some bytes; `address` carries no tag.
pub fn page_range(address: u64, size: u64, page_size: u64) -> (range: Option<PageRange>)
    requires
        page_size > 0,
    ensures
        range == covering_pages(address, size, page_size),
{
    let end: u64 = match address.checked_add(size) {
        Some(end) => end,
        None => {
            return None;
        },
    };
    proof {
        lemma_mod_at_most(address, page_size);
    }
    let start: u64 = address - address % page_size;
    let padded: u64 = match end.checked_add(page_size - 1) {
        Some(padded) => padded,
        None => {
            return None;
        },
    };
    proof {
        lemma_mod_at_most(padded, page_size);
    }
    let aligned: u64 = padded - padded % page_size;
    proof {
        pages_cover(address, size, page_size);
    }
    Some(PageRange { start, length: aligned - start })
}

/// The pages begin at or before the bytes and end at or behind them, less than one page
/// away on either side.
pub proof fn pages_cover(address: u64, size: u64, page_size: u64)
    requires
        page_size > 0,
        address + size + (page_size - 1) <= u64::MAX,
    ensures
        covering_pages(address, size, page_size) is Some,
        ({
            let start = address - address % page_size;
            let end = (address + size + (page_size - 1)) - (address + size + (page_size - 1)) % (
            page_size as int);
            let range = covering_pages(address, size, page_size)->0;
            &&& range.start == start
            &&& range.length == end - start
            &&& start <= address < start + page_size
            &&& address + size <= end < address + size + page_size
            &&& start % (page_size as int) == 0
            &&& end % (page_size as int) == 0
        }),
{
    let p = page_size as int;
    let a = address as int;
    let e = address + size + (page_size - 1);
    vstd::arithmetic::div_mod::lemma_fundamental_div_mod(a, p);
    vstd::arithmetic::div_mod::lemma_fundamental_div_mod(e, p);
    vstd::arithmetic::div_mod::lemma_mod_multiples_basic(a / p, p);
    vstd::arithmetic::div_mod::lemma_mod_multiples_basic(e / p, p);
    assert((a / p) * p == p * (a / p)) by (nonlinear_arith);
    assert((e / p) * p == p * (e / p)) by (nonlinear_arith);
}

/// A mapping of the process.
#[derive(Clone, Copy, Debug, PartialEq, Eq, Structural)]
pub struct MappedRange {
    pub start: u64,
    pub end: u64,
}

/// A mapping, ordered by its start.
#[derive(Clone, Copy, Debug, PartialEq, Eq, Structural)]
pub struct ByStart(pub MappedRange);

/// A mapping, ordered by its end.
#[derive(Clone, Copy, Debug, PartialEq, Eq, Structural)]
pub struct ByEnd(pub MappedRange);

impl SortKey for ByStart {
    open spec fn sort_key(&self) -> u64 {
        self.0.start
    }

    fn key(&self) -> (key: u64) {
        self.0.start
    }
}

impl SortKey for ByEnd {
    open spec fn sort_key(&self) -> u64 {
        self.0.end
    }

    fn key(&self) -> (key: u64) {
        self.0.end
    }
}

/// A place for an allocation and how far it is from where it is wanted.
#[derive(Clone, Copy, Debug, PartialEq, Eq, Structural)]
pub struct Candidate {
    pub address: u64,
    pub distance: u64,
}

impl SortKey for Candidate {
    open spec fn sort_key(&self) -> u64 {
        self.distance
    }

    fn key(&self) -> (key: u64) {
        self.distance
    }
}

/// Mappings in the order of their starts, those with one start in the order of their ends.
pub open spec fn ordered_ranges(ranges: Seq<MappedRange>) -> Seq<MappedRange> {
    let by_end = stable_sorted(Seq::new(ranges.len(), |i: int| ByEnd(ranges[i])));
    let by_start = stable_sorted(Seq::new(by_end.len(), |i: int| ByStart(by_end[i].0)));
    Seq::new(by_start.len(), |i: int| by_start[i].0)
}

/// A sum that stops at the end of memory.
pub open spec fn capped_sum(left: u64, right: u64) -> u64 {
    if left + right > u64::MAX {
        u64::MAX
    } else {
        (left + right) as u64
    }
}

/// The distance between two addresses.
pub open spec fn distance(left: u64, right: u64) -> u64 {
    if left >= right {
        (left - right) as u64
    } else {
        (right - left) as u64
    }
}

/// What is looked for: `size` bytes in steps of a page, within a window.
#[derive(Clone, Copy, Debug, PartialEq, Eq, Structural)]
pub struct NearRequest {
    pub size: u64,
    pub page_size: u64,
    pub near: u64,
    pub window_start: u64,
    pub window_end: u64,
}

/// The places in one gap, behind those found already. Filling a gap stops once there are
/// enough places.
pub open spec fn gap_places(request: NearRequest, place: u64, gap_end: u64, found: Seq<u64>) -> Seq<
    u64,
>
    decreases MAX_CANDIDATES + 1 - found.len(),
{
    if capped_sum(place, request.size) > gap_end {
        found
    } else if found.len() + 1 > MAX_CANDIDATES {
        found.push(place)
    } else {
        gap_places(request, capped_sum(place, request.page_size), gap_end, found.push(place))
    }
}

/// The places behind the last mapping.
pub open spec fn tail_places(request: NearRequest, place: u64, found: Seq<u64>) -> Seq<u64>
    decreases MAX_CANDIDATES + 1 - found.len(),
{
    if capped_sum(place, request.size) > request.window_end || found.len() > MAX_CANDIDATES {
        found
    } else {
        tail_places(request, capped_sum(place, request.page_size), found.push(place))
    }
}

/// The smaller of two addresses.
pub open spec fn smaller(left: u64, right: u64) -> u64 {
    if left <= right {
        left
    } else {
        right
    }
}

/// The places in the gaps between the mappings from a position on, and where the search
/// has come.
pub open spec fn gaps_places(
    request: NearRequest,
    occupied: Seq<MappedRange>,
    pos: int,
    cursor: u64,
    found: Seq<u64>,
) -> (u64, Seq<u64>)
    decreases occupied.len() - pos,
{
    if pos < 0 || pos >= occupied.len() {
        (cursor, found)
    } else {
        let range = occupied[pos];
        if range.end <= cursor {
            gaps_places(request, occupied, pos + 1, cursor, found)
        } else {
            let more = if range.start > cursor {
                gap_places(request, cursor, smaller(range.start, request.window_end), found)
            } else {
                found
            };
            if range.end >= request.window_end {
                (range.end, more)
            } else {
                gaps_places(request, occupied, pos + 1, range.end, more)
            }
        }
    }
}

/// All places, in ascending order.
pub open spec fn all_places(request: NearRequest, occupied: Seq<MappedRange>) -> Seq<u64> {
    let (cursor, found) = gaps_places(request, occupied, 0, request.window_start, Seq::empty());
    tail_places(request, cursor, found)
}

/// Places with their distances.
pub open spec fn as_candidates(places: Seq<u64>, near: u64) -> Seq<Candidate> {
    Seq::new(
        places.len(),
        |i: int| Candidate { address: places[i], distance: distance(places[i], near) },
    )
}

/// A window of `max_distance` around an address, from the start of a page on, or `None`
/// if it is empty.
pub open spec fn near_window(size: u64, page_size: u64, near: u64, max_distance: u64) -> Option<
    NearRequest,
> {
    let low = if near >= max_distance {
        near - max_distance
    } else {
        0
    };
    let window_start = (low - low % (page_size as int)) as u64;
    let window_end = capped_sum(near, max_distance);
    if window_end <= window_start {
        None
    } else {
        Some(NearRequest { size, page_size, near, window_start, window_end })
    }
}

impl NearRequest {
    pub open spec fn wf(&self) -> bool {
        &&& self.size > 0
        &&& self.page_size > 0
        &&& self.window_start < self.window_end
    }

    /// The window around an address.
    pub fn new(size: u64, page_size: u64, near: u64, max_distance: u64) -> (request: Option<
        NearRequest,
    >)
        requires
            size > 0,
            page_size > 0,
        ensures
            request == near_window(size, page_size, near, max_distance),
            request matches Some(r) ==> r.wf(),
    {
        let low: u64 = near.saturating_sub(max_distance);
        proof {
            lemma_mod_at_most(low, page_size);
        }
        let window_start: u64 = low - low % page_size;
        let window_end: u64 = near.saturating_add(max_distance);
        if window_end <= window_start {
            return None;
        }
        Some(NearRequest { size, page_size, near, window_start, window_end })
    }

    /// Whether a mapping that was made lies in the window.
    pub fn accepts(&self, address: u64) -> (accepted: bool)
        ensures
            accepted == (address >= self.window_start && capped_sum(address, self.size)
                <= self.window_end),
    {
        address >= self.window_start && address.saturating_add(self.size) <= self.window_end
    }

    fn fill_gap(&self, start: u64, gap_end: u64, places: &mut Vec<u64>)
        ensures
            final(places)@ == gap_places(*self, start, gap_end, old(places)@),
    {
        let mut place: u64 = start;
        let ghost goal = gap_places(*self, start, gap_end, places@);
        let mut full: bool = false;
        while !full && place.saturating_add(self.size) <= gap_end
            invariant
                full ==> places@ == goal,
                !full ==> goal == gap_places(*self, place, gap_end, places@),
            decreases
                    (if full {
                        0int
                    } else {
                        1int
                    }),
                    MAX_CANDIDATES + 1 - places@.len(),
        {
            places.push(place);
            place = place.saturating_add(self.page_size);
            if places.len() > MAX_CANDIDATES {
                full = true;
            }
        }
    }

    /// The places between and behind the mappings of a process, those nearest to the
    /// wanted address first. Nothing is mapped at address zero.
    pub fn candidates(&self, occupied: &Vec<MappedRange>) -> (candidates: Vec<Candidate>)
        ensures
            candidates@ == stable_sorted(
                as_candidates(nonzero(all_places(*self, ordered_ranges(occupied@))), self.near),
            ),
    {
        let occupied: Vec<MappedRange> = order_ranges(occupied);
        let mut places: Vec<u64> = Vec::new();
        let mut cursor: u64 = self.window_start;
        let mut i: usize = 0;
        let ghost goal = gaps_places(*self, occupied@, 0, self.window_start, Seq::empty());
        let mut done: bool = false;
        while !done && i < occupied.len()
            invariant
                i <= occupied@.len(),
                done ==> goal == (cursor, places@),
                !done ==> goal == gaps_places(*self, occupied@, i as int, cursor, places@),
            decreases
                    (if done {
                        0int
                    } else {
                        1int
                    }) + occupied@.len() - i,
        {
            let range: MappedRange = occupied[i];
            if range.end > cursor {
                if range.start > cursor {
                    let gap_end: u64 = if range.start <= self.window_end {
                        range.start
                    } else {
                        self.window_end
                    };
                    self.fill_gap(cursor, gap_end, &mut places);
                }
                cursor = range.end;
                if cursor >= self.window_end {
                    done = true;
                }
            }
            i = i + 1;
        }
        let ghost all = all_places(*self, occupied@);
        while cursor.saturating_add(self.size) <= self.window_end && places.len() <= MAX_CANDIDATES
            invariant
                all == tail_places(*self, cursor, places@),
            decreases MAX_CANDIDATES + 1 - places@.len(),
        {
            places.push(cursor);
            cursor = cursor.saturating_add(self.page_size);
        }
        let mut candidates: Vec<Candidate> = Vec::new();
        let mut k: usize = 0;
        assert(places@.take(0) =~= Seq::<u64>::empty());
        assert(candidates@ =~= as_candidates(nonzero(places@.take(0)), self.near));
        while k < places.len()
            invariant
                k <= places@.len(),
                candidates@ == as_candidates(nonzero(places@.take(k as int)), self.near),
            decreases places@.len() - k,
        {
            let address: u64 = places[k];
            let distance: u64 = if address >= self.near {
                address - self.near
            } else {
                self.near - address
            };
            if address != 0 {
                candidates.push(Candidate { address, distance });
            }
            assert(places@.take(k + 1).drop_last() =~= places@.take(k as int));
            k = k + 1;
            assert(candidates@ =~= as_candidates(nonzero(places@.take(k as int)), self.near));
        }
        assert(places@.take(places@.len() as int) =~= places@);
        stable_sort(candidates)
    }
}

/// The places other than address zero, in order.
pub open spec fn nonzero(places: Seq<u64>) -> Seq<u64>
    decreases places.len(),
{
    if places.len() == 0 {
        Seq::empty()
    } else {
        let front = nonzero(places.drop_last());
        if places.last() != 0 {
            front.push(places.last())
        } else {
            front
        }
    }
}

fn order_ranges(ranges: &Vec<MappedRange>) -> (ordered: Vec<MappedRange>)
    ensures
        ordered@ == ordered_ranges(ranges@),
{
    let mut by_end: Vec<ByEnd> = Vec::new();
    let mut i: usize = 0;
    while i < ranges.len()
        invariant
            i <= ranges@.len(),
            by_end@ == Seq::new(i as nat, |k: int| ByEnd(ranges@[k])),
        decreases ranges@.len() - i,
    {
        by_end.push(ByEnd(ranges[i]));
        i = i + 1;
        assert(by_end@ =~= Seq::new(i as nat, |k: int| ByEnd(ranges@[k])));
    }
    let by_end: Vec<ByEnd> = stable_sort(by_end);
    let mut by_start: Vec<ByStart> = Vec::new();
    let mut j: usize = 0;
    while j < by_end.len()
        invariant
            j <= by_end@.len(),
            by_start@ == Seq::new(j as nat, |k: int| ByStart(by_end@[k].0)),
        decreases by_end@.len() - j,
    {
        by_start.push(ByStart(by_end[j].0));
        j = j + 1;
        assert(by_start@ =~= Seq::new(j as nat, |k: int| ByStart(by_end@[k].0)));
    }
    let by_start: Vec<ByStart> = stable_sort(by_start);
    let mut ordered: Vec<MappedRange> = Vec::new();
    let mut n: usize = 0;
    while n < by_start.len()
        invariant
            n <= by_start@.len(),
            ordered@ == Seq::new(n as nat, |k: int| by_start@[k].0),
        decreases by_start@.len() - n,
    {
        ordered.push(by_start[n].0);
        n = n + 1;
        assert(ordered@ =~= Seq::new(n as nat, |k: int| by_start@[k].0));
    }
    ordered
}

/// Whether `size` bytes at a place lie in the window and in no mapping.
pub open spec fn is_free(request: NearRequest, occupied: Seq<MappedRange>, place: u64) -> bool {
    &&& request.window_start <= place
    &&& place + request.size <= request.window_end
    &&& forall|i: int|
        0 <= i < occupied.len() ==> (#[trigger] occupied[i]).end <= place || place + request.size
            <= occupied[i].start
}

/// Whether all places are free.
pub open spec fn all_free(request: NearRequest, occupied: Seq<MappedRange>, places: Seq<u64>) -> bool {
    forall|k: int| 0 <= k < places.len() ==> is_free(request, occupied, #[trigger] places[k])
}

/// Whether mappings are in the order of their starts.
pub open spec fn in_start_order(occupied: Seq<MappedRange>) -> bool {
    forall|i: int, j: int|
        #![trigger occupied[i], occupied[j]]
        0 <= i <= j < occupied.len() ==> occupied[i].start <= occupied[j].start
}

proof fn lemma_gap_places_free(
    request: NearRequest,
    occupied: Seq<MappedRange>,
    pos: int,
    place: u64,
    gap_end: u64,
    found: Seq<u64>,
)
    requires
        request.wf(),
        request.window_end < u64::MAX,
        in_start_order(occupied),
        0 <= pos <= occupied.len(),
        request.window_start <= place,
        gap_end <= request.window_end,
        pos < occupied.len() ==> gap_end <= occupied[pos].start,
        forall|i: int| 0 <= i < pos ==> (#[trigger] occupied[i]).end <= place,
        all_free(request, occupied, found),
    ensures
        all_free(request, occupied, gap_places(request, place, gap_end, found)),
    decreases MAX_CANDIDATES + 1 - found.len(),
{
    if capped_sum(place, request.size) <= gap_end {
        assert(is_free(request, occupied, place)) by {
            assert forall|i: int| 0 <= i < occupied.len() implies (#[trigger] occupied[i]).end
                <= place || place + request.size <= occupied[i].start by {
                if i >= pos {
                    assert(occupied[pos].start <= occupied[i].start);
                }
            }
        }
        let more = found.push(place);
        assert(all_free(request, occupied, more));
        if found.len() + 1 <= MAX_CANDIDATES {
            lemma_gap_places_free(
                request,
                occupied,
                pos,
                capped_sum(place, request.page_size),
                gap_end,
                more,
            );
        }
    }
}

proof fn lemma_tail_places_free(
    request: NearRequest,
    occupied: Seq<MappedRange>,
    place: u64,
    found: Seq<u64>,
)
    requires
        request.wf(),
        request.window_end < u64::MAX,
        request.window_start <= place,
        place < request.window_end ==> forall|i: int|
            0 <= i < occupied.len() ==> (#[trigger] occupied[i]).end <= place,
        all_free(request, occupied, found),
    ensures
        all_free(request, occupied, tail_places(request, place, found)),
    decreases MAX_CANDIDATES + 1 - found.len(),
{
    if capped_sum(place, request.size) <= request.window_end && found.len() <= MAX_CANDIDATES {
        assert(is_free(request, occupied, place));
        assert(all_free(request, occupied, found.push(place)));
        lemma_tail_places_free(
            request,
            occupied,
            capped_sum(place, request.page_size),
            found.push(place),
        );
    }
}

proof fn lemma_gaps_places_free(
    request: NearRequest,
    occupied: Seq<MappedRange>,
    pos: int,
    cursor: u64,
    found: Seq<u64>,
)
    requires
        request.wf(),
        request.window_end < u64::MAX,
        in_start_order(occupied),
        0 <= pos <= occupied.len(),
        request.window_start <= cursor,
        cursor < request.window_end,
        forall|i: int| 0 <= i < pos ==> (#[trigger] occupied[i]).end <= cursor,
        all_free(request, occupied, found),
    ensures
        ({
            let (end, places) = gaps_places(request, occupied, pos, cursor, found);
            &&& all_free(request, occupied, places)
            &&& request.window_start <= end
            &&& end < request.window_end ==> forall|i: int|
                0 <= i < occupied.len() ==> (#[trigger] occupied[i]).end <= end
        }),
    decreases occupied.len() - pos,
{
    if pos < occupied.len() {
        let range = occupied[pos];
        if range.end <= cursor {
            lemma_gaps_places_free(request, occupied, pos + 1, cursor, found);
        } else {
            let gap_end = smaller(range.start, request.window_end);
            if range.start > cursor {
                lemma_gap_places_free(request, occupied, pos, cursor, gap_end, found);
            }
            let more = if range.start > cursor {
                gap_places(request, cursor, gap_end, found)
            } else {
                found
            };
            if range.end < request.window_end {
                lemma_gaps_places_free(request, occupied, pos + 1, range.end, more);
            }
        }
    }
}

proof fn lemma_nonzero_free(request: NearRequest, occupied: Seq<MappedRange>, places: Seq<u64>)
    requires
        all_free(request, occupied, places),
    ensures
        all_free(request, occupied, nonzero(places)),
        !nonzero(places).contains(0),
    decreases places.len(),
{
    if places.len() > 0 {
        let front = places.drop_last();
        assert forall|k: int| 0 <= k < front.len() implies is_free(
            request,
            occupied,
            #[trigger] front[k],
        ) by {
            assert(is_free(request, occupied, places[k]));
        }
        lemma_nonzero_free(request, occupied, front);
        assert(is_free(request, occupied, places[places.len() - 1]));
        if places.last() != 0 {
            let all = nonzero(places);
            if all.contains(0) {
                let k = choose|k: int| 0 <= k < all.len() && all[k] == 0;
                assert(nonzero(front)[k] == 0);
            }
        }
    }
}

/// Every place that is proposed lies in the window and overlaps no mapping, unless the
/// window ends with memory itself. Address zero is not proposed.
pub proof fn proposed_places_are_free(request: NearRequest, occupied: Seq<MappedRange>)
    requires
        request.wf(),
        request.window_end < u64::MAX,
        in_start_order(occupied),
    ensures
        all_free(request, occupied, nonzero(all_places(request, occupied))),
        !nonzero(all_places(request, occupied)).contains(0),
{
    lemma_gaps_places_free(request, occupied, 0, request.window_start, Seq::empty());
    let (cursor, found) = gaps_places(request, occupied, 0, request.window_start, Seq::empty());
    lemma_tail_places_free(request, occupied, cursor, found);
    lemma_nonzero_free(request, occupied, all_places(request, occupied));
}

/// What a script asks for besides the size of an allocation.
#[derive(Clone, Copy, Debug, PartialEq, Eq, Structural)]
pub struct AllocOptions {
    pub protection: i32,
    pub near: Option<u64>,
    pub max_distance: u64,
}

/// The options argument as a script passes it.
#[derive(Debug)]
pub enum OptionsArgument {
    /// None, or `undefined` or `null`.
    Unspecified,
    /// Something that is no object.
    Invalid,
    Given(GivenOptions),
}

/// One property of an object that a script passes.
#[derive(Debug)]
pub enum Property<T> {
    /// `undefined` or `null`.
    Absent,
    /// A value of the wrong type.
    Invalid,
    Value(T),
}

/// The properties of the options object. An address that does not convert comes as the
/// error for it.
#[derive(Debug)]
pub struct GivenOptions {
    pub protection: Property<String>,
    pub near: Option<Result<u64, ScriptError>>,
    pub max_distance: Property<u64>,
}

/// What the options argument stands for, or why it is refused.
pub open spec fn alloc_options_of(argument: OptionsArgument) -> Result<
    AllocOptions,
    (ErrorKind, Seq<char>),
> {
    match argument {
        OptionsArgument::Unspecified => Ok(
            AllocOptions { protection: protection_flags(true, true, false), near: None, max_distance: 0 },
        ),
        OptionsArgument::Invalid => Err(
            (ErrorKind::InternalError, "Memory.alloc() options must be an object"@),
        ),
        OptionsArgument::Given(given) => {
            let protection = match given.protection {
                Property::Absent => Some(protection_flags(true, true, false)),
                Property::Invalid => None,
                Property::Value(text) => parsed_protection(text@),
            };
            if protection is None {
                Err(
                    (
                        ErrorKind::InternalError,
                        "Memory.alloc() protection must be a string like \"rwx\""@,
                    ),
                )
            } else if given.near is Some && given.near->0 is Err {
                Err(given.near->0->Err_0@)
            } else if given.max_distance is Invalid {
                Err((ErrorKind::InternalError, "Memory.alloc() maxDistance must be an integer"@))
            } else {
                let max_distance = match given.max_distance {
                    Property::Value(distance) => distance,
                    _ => 0,
                };
                if given.near is Some && max_distance == 0 {
                    Err(
                        (
                            ErrorKind::InternalError,
                            "Memory.alloc() maxDistance is required when near is given"@,
                        ),
                    )
                } else {
                    Ok(
                        AllocOptions {
                            protection: protection->0,
                            near: match given.near {
                                Some(near) => Some(near->Ok_0),
                                None => None,
                            },
                            max_distance,
                        },
                    )
                }
            }
        },
    }
}

/// Reads the options argument.
pub fn parse_alloc_options(argument: &OptionsArgument) -> (result: Result<AllocOptions, ScriptError>)
    ensures
        match (result, alloc_options_of(*argument)) {
            (Ok(options), Ok(expected)) => options == expected,
            (Err(error), Err(expected)) => error@ == expected,
            _ => false,
        },
{
    match argument {
        OptionsArgument::Unspecified => Ok(
            AllocOptions { protection: PROT_READ + PROT_WRITE, near: None, max_distance: 0 },
        ),
        OptionsArgument::Invalid => Err(
            internal_error("Memory.alloc() options must be an object"),
        ),
        OptionsArgument::Given(given) => {
            let protection: Option<i32> = match &given.protection {
                Property::Absent => Some(PROT_READ + PROT_WRITE),
                Property::Invalid => None,
                Property::Value(text) => parse_protection(text.as_str()),
            };
            let protection: i32 = match protection {
                Some(protection) => protection,
                None => {
                    return Err(
                        internal_error("Memory.alloc() protection must be a string like \"rwx\""),
                    );
                },
            };
            let near: Option<u64> = match &given.near {
                None => None,
                Some(Ok(near)) => Some(*near),
                Some(Err(error)) => {
                    return Err(error.again());
                },
            };
            let max_distance: u64 = match &given.max_distance {
                Property::Absent => 0,
                Property::Invalid => {
                    return Err(internal_error("Memory.alloc() maxDistance must be an integer"));
                },
                Property::Value(distance) => *distance,
            };
            if near.is_some() && max_distance == 0 {
                return Err(
                    internal_error("Memory.alloc() maxDistance is required when near is given"),
                );
            }
            Ok(AllocOptions { protection, near, max_distance })
        },
    }
}

/// How memory is allocated.
#[derive(Clone, Copy, Debug, PartialEq, Eq, Structural)]
pub enum AllocPlan {
    /// From the heap, filled with zeros.
    Heap { size: u64 },
    /// Whole pages anywhere.
    Pages { size: u64, protection: i32 },
    /// Whole pages near an address.
    Near { size: u64, protection: i32, near: u64, max_distance: u64 },
}

/// How memory is allocated, or why not: sizes that are no whole pages come from the heap,
/// which is neither executable nor near anything. The size is looked at before the options.
pub open spec fn alloc_plan_of(
    size: Option<i64>,
    options: Result<AllocOptions, (ErrorKind, Seq<char>)>,
    page_size: u64,
) -> Result<AllocPlan, (ErrorKind, Seq<char>)> {
    if size is None || size->0 <= 0 || size->0 > MAX_ALLOCATION {
        Err((ErrorKind::InternalError, "Memory.alloc() invalid size"@))
    } else if options is Err {
        Err(options->Err_0)
    } else {
        let bytes = size->0 as u64;
        let options = options->Ok_0;
        if bytes % page_size != 0 {
            if options.near is Some || options.protection & PROT_EXEC != 0 {
                Err(
                    (
                        ErrorKind::InternalError,
                        "Memory.alloc() size must be a multiple of page size"@,
                    ),
                )
            } else {
                Ok(AllocPlan::Heap { size: bytes })
            }
        } else {
            match options.near {
                Some(near) => Ok(
                    AllocPlan::Near {
                        size: bytes,
                        protection: options.protection,
                        near,
                        max_distance: options.max_distance,
                    },
                ),
                None => Ok(AllocPlan::Pages { size: bytes, protection: options.protection }),
            }
        }
    }
}

/// Options as a contract speaks of them.
pub open spec fn options_view(options: Result<AllocOptions, ScriptError>) -> Result<
    AllocOptions,
    (ErrorKind, Seq<char>),
> {
    match options {
        Ok(options) => Ok(options),
        Err(error) => Err(error@),
    }
}

/// How memory is allocated for a script. Options that were refused come as the error.
pub fn memory_alloc(
    size: Option<i64>,
    options: Result<AllocOptions, ScriptError>,
    page_size: u64,
) -> (result: Result<AllocPlan, ScriptError>)
    requires
        page_size > 0,
    ensures
        match (result, alloc_plan_of(size, options_view(options), page_size)) {
            (Ok(plan), Ok(expected)) => plan == expected,
            (Err(error), Err(expected)) => error@ == expected,
            _ => false,
        },
{
    let bytes: u64 = match size {
        Some(bytes) => {
            if bytes <= 0 || bytes > MAX_ALLOCATION {
                return Err(internal_error("Memory.alloc() invalid size"));
            }
            bytes as u64
        },
        None => {
            return Err(internal_error("Memory.alloc() invalid size"));
        },
    };
    let options: AllocOptions = match options {
        Ok(options) => options,
        Err(error) => {
            return Err(error);
        },
    };
    let page_aligned: bool = bytes % page_size == 0;
    match options.near {
        Some(near) => {
            if !page_aligned {
                return Err(
                    internal_error("Memory.alloc() size must be a multiple of page size"),
                );
            }
            Ok(
                AllocPlan::Near {
                    size: bytes,
                    protection: options.protection,
                    near,
                    max_distance: options.max_distance,
                },
            )
        },
        None => {
            if !page_aligned {
                if options.protection & PROT_EXEC != 0 {
                    return Err(
                        internal_error("Memory.alloc() size must be a multiple of page size"),
                    );
                }
                return Ok(AllocPlan::Heap { size: bytes });
            }
            Ok(AllocPlan::Pages { size: bytes, protection: options.protection })
        },
    }
}

/// A change of protection.
#[derive(Clone, Copy, Debug, PartialEq, Eq, Structural)]
pub struct ProtectPlan {
    pub range: PageRange,
    pub protection: i32,
}

/// What a change of protection comes to, or why it is refused. No bytes need no change.
/// `page_size` is `None` where the system does not tell.
pub open spec fn protect_plan_of(
    address: u64,
    size: Option<i64>,
    protection: Option<Seq<char>>,
    page_size: Option<u64>,
) -> Result<Option<ProtectPlan>, (ErrorKind, Seq<char>)> {
    if size is None || size->0 < 0 || size->0 > MAX_ALLOCATION {
        Err((ErrorKind::TypeError, "Memory.protect: invalid size"@))
    } else if protection is None {
        Err((ErrorKind::TypeError, "Memory.protect: protection must be string (e.g. \"rwx\")"@))
    } else if parsed_protection(protection->0) is None {
        Err(
            (
                ErrorKind::TypeError,
                "Memory.protect: protection must be 3-char string like \"rwx\""@,
            ),
        )
    } else if size->0 == 0 {
        Ok(None)
    } else if page_size is None {
        Err((ErrorKind::InternalError, "Memory.protect: unable to query page size"@))
    } else {
        match covering_pages(address, size->0 as u64, page_size->0) {
            None => Err((ErrorKind::RangeError, "Memory.protect: address range overflow"@)),
            Some(range) => Ok(
                Some(ProtectPlan { range, protection: parsed_protection(protection->0)->0 }),
            ),
        }
    }
}

/// What a change of protection comes to; `address` carries no tag.
pub fn memory_protect(
    address: u64,
    size: Option<i64>,
    protection: Option<&str>,
    page_size: Option<u64>,
) -> (result: Result<Option<ProtectPlan>, ScriptError>)
    requires
        page_size matches Some(page) ==> page > 0,
    ensures
        match (
            result,
            protect_plan_of(
                address,
                size,
                match protection {
                    Some(text) => Some(text@),
                    None => None,
                },
                page_size,
            ),
        ) {
            (Ok(plan), Ok(expected)) => plan == expected,
            (Err(error), Err(expected)) => error@ == expected,
            _ => false,
        },
{
    let bytes: i64 = match size {
        Some(bytes) => bytes,
        None => {
            return Err(type_error("Memory.protect: invalid size"));
        },
    };
    if bytes < 0 || bytes > MAX_ALLOCATION {
        return Err(type_error("Memory.protect: invalid size"));
    }
    let text: &str = match protection {
        Some(text) => text,
        None => {
            return Err(
                type_error("Memory.protect: protection must be string (e.g. \"rwx\")"),
            );
        },
    };
    let flags: i32 = match parse_protection(text) {
        Some(flags) => flags,
        None => {
            return Err(
                type_error("Memory.protect: protection must be 3-char string like \"rwx\""),
            );
        },
    };
    if bytes == 0 {
        return Ok(None);
    }
    let page: u64 = match page_size {
        Some(page) => page,
        None => {
            return Err(internal_error("Memory.protect: unable to query page size"));
        },
    };
    match page_range(address, bytes as u64, page) {
        None => Err(range_error("Memory.protect: address range overflow")),
        Some(range) => Ok(Some(ProtectPlan { range, protection: flags })),
    }
}

/// What became of making pages writable.
#[derive(Clone, Copy, Debug, PartialEq, Eq, Structural)]
pub enum WritableStep {
    /// Ask for this protection.
    Try(i32),
    /// The pages have this protection now.
    Granted(i32),
    Refused,
}

/// How pages are made writable: first keeping what they have, so that a thread that runs
/// there does not fault, and if that is refused without execution. `first` and `second`
/// are the answers so far.
pub fn make_writable(original: i32, first: Option<bool>, second: Option<bool>) -> (step:
    WritableStep)
    ensures
        step == match (first, second) {
            (None, _) => WritableStep::Try(original | PROT_READ | PROT_WRITE),
            (Some(true), _) => WritableStep::Granted(original | PROT_READ | PROT_WRITE),
            (Some(false), None) => WritableStep::Try(PROT_READ | PROT_WRITE),
            (Some(false), Some(true)) => WritableStep::Granted(PROT_READ | PROT_WRITE),
            (Some(false), Some(false)) => WritableStep::Refused,
        },
{
    match first {
        None => WritableStep::Try(original | PROT_READ | PROT_WRITE),
        Some(true) => WritableStep::Granted(original | PROT_READ | PROT_WRITE),
        Some(false) => match second {
            None => WritableStep::Try(PROT_READ | PROT_WRITE),
            Some(true) => WritableStep::Granted(PROT_READ | PROT_WRITE),
            Some(false) => WritableStep::Refused,
        },
    }
}

/// Why a patch is refused before anything is touched. `protection` is what the page has,
/// if it is mapped.
pub fn check_patch(
    size: Option<i64>,
    is_function: bool,
    address: u64,
    page_size: u64,
    protection: Option<i32>,
) -> (result: Result<PageRange, ScriptError>)
    requires
        page_size > 0,
    ensures
        match result {
            Ok(range) => {
                &&& size is Some
                &&& 0 < size->0 <= MAX_ALLOCATION
                &&& is_function
                &&& covering_pages(address, size->0 as u64, page_size) == Some(range)
                &&& protection is Some
            },
            Err(error) => error@ == (
                ErrorKind::InternalError,
                if size is None || size->0 <= 0 || size->0 > MAX_ALLOCATION {
                    "Memory.patchCode() invalid size"@
                } else if !is_function {
                    "Memory.patchCode() apply must be a function"@
                } else if covering_pages(address, size->0 as u64, page_size) is None {
                    "Memory.patchCode() address range overflow"@
                } else {
                    "Memory.patchCode() address is not mapped"@
                },
            ) && (size is None || size->0 <= 0 || size->0 > MAX_ALLOCATION || !is_function
                || covering_pages(address, size->0 as u64, page_size) is None
                || protection is None),
        },
{
    let bytes: i64 = match size {
        Some(bytes) => bytes,
        None => {
            return Err(internal_error("Memory.patchCode() invalid size"));
        },
    };
    if bytes <= 0 || bytes > MAX_ALLOCATION {
        return Err(internal_error("Memory.patchCode() invalid size"));
    }
    if !is_function {
        return Err(internal_error("Memory.patchCode() apply must be a function"));
    }
    match page_range(address, bytes as u64, page_size) {
        None => Err(internal_error("Memory.patchCode() address range overflow")),
        Some(range) => {
            if protection.is_none() {
                return Err(internal_error("Memory.patchCode() address is not mapped"));
            }
            Ok(range)
        },
    }
}

/// What a script sees of a patch once the pages have been put back.
#[derive(Debug)]
pub enum PatchOutcome {
    Done,
    /// The script's own exception is pending.
    ScriptThrew,
    Failed(ScriptError),
}

/// The text for pages that could not be put back.
pub open spec fn not_restored_text(original: i32, granted: i32, start: u64) -> Seq<char> {
    "Memory.patchCode() could not restore protection \""@ + protection_text(original) + "\" at "@
        + prefixed_hex(start as nat) + " (left \""@ + protection_text(granted) + "\")"@
}

/// What follows the script that writes a patch, whether it threw or not.
#[derive(Clone, Copy, Debug, PartialEq, Eq, Structural)]
pub struct PatchEnd {
    /// The pages get this protection back.
    pub range: PageRange,
    pub protection: i32,
    /// The code that has to be fetched from memory again.
    pub flush_start: u64,
    pub flush_size: u64,
}

/// Ends a patch: the pages get their protection back, so that a patch that failed does not
/// leave them writable, and the code is fetched again. Whether the script threw makes no
/// difference.
pub fn patch_applied(range: PageRange, original: i32, address: u64, size: u64) -> (end: PatchEnd)
    ensures
        end == (PatchEnd { range, protection: original, flush_start: address, flush_size: size }),
{
    PatchEnd { range, protection: original, flush_start: address, flush_size: size }
}

/// What a script sees of a patch: its own exception first, then that the pages could not
/// be put back.
pub fn patch_outcome(threw: bool, restored: bool, original: i32, granted: i32, start: u64) -> (outcome:
    PatchOutcome)
    ensures
        threw ==> outcome is ScriptThrew,
        !threw && restored ==> outcome is Done,
        !threw && !restored ==> outcome is Failed && outcome->Failed_0@ == (
            ErrorKind::InternalError,
            not_restored_text(original, granted, start),
        ),
{
    if threw {
        return PatchOutcome::ScriptThrew;
    }
    if restored {
        return PatchOutcome::Done;
    }
    let mut message: String = String::from_str(
        "Memory.patchCode() could not restore protection \"",
    );
    message.append(format_protection(original).as_str());
    message.append("\" at ");
    push_prefixed_hex(&mut message, start);
    message.append(" (left \"");
    message.append(format_protection(granted).as_str());
    message.append("\")");
    PatchOutcome::Failed(ScriptError { kind: ErrorKind::InternalError, message })
}

/// A protection is written with three characters, each its right's letter or a dash, and
/// stands for the sum of one for reading, two for writing and four for execution.
pub proof fn letters_stand_for_their_rights(text: Seq<char>)
    ensures
        parsed_protection(text) is Some <==> {
            &&& text.len() == 3
            &&& text[0] == 'r' || text[0] == '-'
            &&& text[1] == 'w' || text[1] == '-'
            &&& text[2] == 'x' || text[2] == '-'
        },
        parsed_protection(text) matches Some(flags) ==> {
            &&& 0 <= flags < 8
            &&& flags as int % 2 == 1 <==> text[0] == 'r'
            &&& (flags as int / 2) % 2 == 1 <==> text[1] == 'w'
            &&& (flags as int / 4) % 2 == 1 <==> text[2] == 'x'
        },
{
}

/// Flags are shown as three characters: a letter where the lowest, the second or the third
/// bit is set, and a dash where it is not; other bits are not shown.
pub proof fn rights_are_shown_by_their_letters(protection: i32)
    requires
        protection >= 0,
    ensures
        protection_text(protection).len() == 3,
        protection_text(protection)[0] as u32 == (if protection as int % 2 == 1 {
            0x72u32
        } else {
            0x2du32
        }),
        protection_text(protection)[1] as u32 == (if (protection as int / 2) % 2 == 1 {
            0x77u32
        } else {
            0x2du32
        }),
        protection_text(protection)[2] as u32 == (if (protection as int / 4) % 2 == 1 {
            0x78u32
        } else {
            0x2du32
        }),
{
    let p = protection;
    assert((p & 1 != 0 <==> p % 2 == 1) && (p & 2 != 0 <==> (p / 2) % 2 == 1) && (p & 4 != 0 <==> (p
        / 4) % 2 == 1)) by (bit_vector)
        requires
            p >= 0,
    ;
}

/// There are pages around some bytes unless rounding up passes the end of memory.
pub proof fn pages_exist_unless_they_overflow(address: u64, size: u64, page_size: u64)
    requires
        page_size > 0,
    ensures
        covering_pages(address, size, page_size) is None <==> address + size + page_size
            > 0x1_0000_0000_0000_0000,
{
}

/// The window around an address begins at the start of a page, less than a page below the
/// farthest address that is allowed or at the beginning of memory, and ends at the farthest
/// address above or at the end of memory.
pub proof fn windows_reach_as_far_as_allowed(
    size: u64,
    page_size: u64,
    near: u64,
    max_distance: u64,
)
    requires
        page_size > 0,
    ensures
        near_window(size, page_size, near, max_distance) matches Some(window) ==> {
            &&& window.size == size
            &&& window.page_size == page_size
            &&& window.near == near
            &&& window.window_start as int % page_size as int == 0
            &&& near >= max_distance ==> near - max_distance - page_size < window.window_start
                <= near - max_distance
            &&& near < max_distance ==> window.window_start == 0
            &&& near + max_distance < 0x1_0000_0000_0000_0000 ==> window.window_end == near
                + max_distance
            &&& near + max_distance >= 0x1_0000_0000_0000_0000 ==> window.window_end
                == 0xffff_ffff_ffff_ffff
        },
        near_window(size, page_size, near, max_distance) is None ==> max_distance == 0,
{
    let low: int = if near >= max_distance {
        near - max_distance
    } else {
        0
    };
    let p = page_size as int;
    vstd::arithmetic::div_mod::lemma_fundamental_div_mod(low, p);
    vstd::arithmetic::div_mod::lemma_mod_multiples_basic(low / p, p);
    assert((low / p) * p == p * (low / p)) by (nonlinear_arith);
    vstd::arithmetic::div_mod::lemma_mod_bound(low, p);
    assert(p * (low / p) >= 0) by (nonlinear_arith)
        requires
            p > 0,
            low >= 0,
    ;
    vstd::arithmetic::div_mod::lemma_small_mod(0, page_size as nat);
}

proof fn lemma_gap_places_grow(request: NearRequest, place: u64, gap_end: u64, found: Seq<u64>)
    ensures
        gap_places(request, place, gap_end, found).len() >= found.len(),
    decreases MAX_CANDIDATES + 1 - found.len(),
{
    if capped_sum(place, request.size) <= gap_end && found.len() + 1 <= MAX_CANDIDATES {
        lemma_gap_places_grow(
            request,
            capped_sum(place, request.page_size),
            gap_end,
            found.push(place),
        );
    }
}

proof fn lemma_gaps_places_grow(
    request: NearRequest,
    occupied: Seq<MappedRange>,
    pos: int,
    cursor: u64,
    found: Seq<u64>,
)
    ensures
        gaps_places(request, occupied, pos, cursor, found).1.len() >= found.len(),
    decreases occupied.len() - pos,
{
    if 0 <= pos < occupied.len() {
        let range = occupied[pos];
        if range.end <= cursor {
            lemma_gaps_places_grow(request, occupied, pos + 1, cursor, found);
        } else {
            let gap_end = smaller(range.start, request.window_end);
            lemma_gap_places_grow(request, cursor, gap_end, found);
            let more = if range.start > cursor {
                gap_places(request, cursor, gap_end, found)
            } else {
                found
            };
            if range.end < request.window_end {
                lemma_gaps_places_grow(request, occupied, pos + 1, range.end, more);
            }
        }
    }
}

proof fn lemma_tail_places_grow(request: NearRequest, place: u64, found: Seq<u64>)
    ensures
        tail_places(request, place, found).len() >= found.len(),
    decreases MAX_CANDIDATES + 1 - found.len(),
{
    if capped_sum(place, request.size) <= request.window_end && found.len() <= MAX_CANDIDATES {
        lemma_tail_places_grow(
            request,
            capped_sum(place, request.page_size),
            found.push(place),
        );
    }
}

proof fn lemma_no_place_before(
    request: NearRequest,
    occupied: Seq<MappedRange>,
    pos: int,
    cursor: u64,
    place: u64,
)
    requires
        request.wf(),
        0 <= pos <= occupied.len(),
        cursor <= place,
        place + request.size <= request.window_end,
        forall|i: int|
            0 <= i < occupied.len() ==> (#[trigger] occupied[i]).end <= place || place
                + request.size <= occupied[i].start,
        gaps_places(request, occupied, pos, cursor, Seq::empty()).1.len() == 0,
    ensures
        gaps_places(request, occupied, pos, cursor, Seq::empty()).0 <= place,
    decreases occupied.len() - pos,
{
    if pos < occupied.len() {
        let range = occupied[pos];
        if range.end <= cursor {
            lemma_no_place_before(request, occupied, pos + 1, cursor, place);
        } else {
            let gap_end = smaller(range.start, request.window_end);
            let none = Seq::<u64>::empty();
            let more = if range.start > cursor {
                gap_places(request, cursor, gap_end, none)
            } else {
                none
            };
            lemma_gaps_places_grow(request, occupied, pos + 1, range.end, more);
            assert(more.len() == 0);
            assert(more =~= none);
            if range.start > cursor && place + request.size <= range.start {
                assert(capped_sum(cursor, request.size) <= gap_end);
                lemma_gap_places_grow(
                    request,
                    capped_sum(cursor, request.page_size),
                    gap_end,
                    none.push(cursor),
                );
                assert(false);
            }
            assert(range.end <= place);
            if range.end < request.window_end {
                lemma_no_place_before(request, occupied, pos + 1, range.end, place);
            }
        }
    }
}

/// If there is room in the window, a place is proposed: only where every place in the
/// window overlaps a mapping is there none.
pub proof fn room_is_found(request: NearRequest, occupied: Seq<MappedRange>, place: u64)
    requires
        request.wf(),
        request.window_start <= place,
        place + request.size <= request.window_end,
        forall|i: int|
            0 <= i < occupied.len() ==> (#[trigger] occupied[i]).end <= place || place
                + request.size <= occupied[i].start,
    ensures
        all_places(request, occupied).len() > 0,
{
    let (cursor, found) = gaps_places(request, occupied, 0, request.window_start, Seq::empty());
    if found.len() == 0 {
        lemma_no_place_before(request, occupied, 0, request.window_start, place);
        assert(found =~= Seq::<u64>::empty());
        lemma_tail_places_grow(
            request,
            capped_sum(cursor, request.page_size),
            found.push(cursor),
        );
    } else {
        lemma_tail_places_grow(request, cursor, found);
    }
}

/// Candidates come nearest first.
pub proof fn candidates_come_nearest_first(places: Seq<u64>, near: u64, i: int, j: int)
    requires
        0 <= i <= j < places.len(),
    ensures
        ({
            let sorted = stable_sorted(as_candidates(places, near));
            let far_i: int = if sorted[i].address >= near {
                sorted[i].address - near
            } else {
                near - sorted[i].address
            };
            let far_j: int = if sorted[j].address >= near {
                sorted[j].address - near
            } else {
                near - sorted[j].address
            };
            &&& sorted.len() == places.len()
            &&& far_i <= far_j
            &&& places.contains(sorted[i].address)
        }),
{
    let all = as_candidates(places, near);
    let sorted = stable_sorted(all);
    stable_sorted_orders(all);
    broadcast use vstd::seq_lib::group_to_multiset_ensures;

    assert(sorted[i].sort_key() <= sorted[j].sort_key());
    assert(sorted.to_multiset().count(sorted[i]) > 0);
    assert(all.contains(sorted[i]));
    assert(sorted.to_multiset().count(sorted[j]) > 0);
    assert(all.contains(sorted[j]));
    let k = choose|k: int| 0 <= k < all.len() && all[k] == sorted[i];
    assert(places[k] == sorted[i].address);
}

/// The places that are tried are those that were found but for address zero.
pub proof fn only_address_zero_is_left_out(places: Seq<u64>)
    ensures
        nonzero(places) == places.filter(|p: u64| p != 0),
    decreases places.len(),
{
    reveal(Seq::filter);
    if places.len() > 0 {
        only_address_zero_is_left_out(places.drop_last());
    }
}

/// Mappings are put in the order of their starts, and none is lost or added.
pub proof fn mappings_are_ordered_by_start(ranges: Seq<MappedRange>)
    ensures
        ordered_ranges(ranges).len() == ranges.len(),
        in_start_order(ordered_ranges(ranges)),
        forall|i: int|
            0 <= i < ranges.len() ==> ranges.contains(#[trigger] ordered_ranges(ranges)[i]),
        forall|i: int|
            0 <= i < ranges.len() ==> ordered_ranges(ranges).contains(#[trigger] ranges[i]),
{
    broadcast use vstd::seq_lib::group_to_multiset_ensures;

    let ends = Seq::new(ranges.len(), |i: int| ByEnd(ranges[i]));
    let by_end = stable_sorted(ends);
    let starts = Seq::new(by_end.len(), |i: int| ByStart(by_end[i].0));
    let by_start = stable_sorted(starts);
    let ordered = ordered_ranges(ranges);
    stable_sorted_orders(ends);
    stable_sorted_orders(starts);
    assert forall|i: int, j: int|
        #![trigger ordered[i], ordered[j]]
        0 <= i <= j < ordered.len() implies ordered[i].start <= ordered[j].start by {
        assert(by_start[i].sort_key() <= by_start[j].sort_key());
    }
    assert forall|i: int| 0 <= i < ranges.len() implies ranges.contains(#[trigger] ordered[i]) by {
        assert(by_start.to_multiset().count(by_start[i]) > 0);
        assert(starts.contains(by_start[i]));
        let k = choose|k: int| 0 <= k < starts.len() && starts[k] == by_start[i];
        assert(by_end.to_multiset().count(by_end[k]) > 0);
        assert(ends.contains(by_end[k]));
        let n = choose|n: int| 0 <= n < ends.len() && ends[n] == by_end[k];
        assert(ranges[n] == ordered[i]);
    }
    assert forall|i: int| 0 <= i < ranges.len() implies ordered.contains(#[trigger] ranges[i]) by {
        assert(ends.to_multiset().count(ends[i]) > 0);
        assert(by_end.contains(ends[i]));
        let k = choose|k: int| 0 <= k < by_end.len() && by_end[k] == ends[i];
        assert(starts.to_multiset().count(starts[k]) > 0);
        assert(by_start.contains(starts[k]));
        let n = choose|n: int| 0 <= n < by_start.len() && by_start[n] == starts[k];
        assert(ordered[n] == ranges[i]);
    }
}

/// How an allocation is made: a size that is not a positive number up to the largest is
/// refused, whatever the options; one that is no multiple of a page comes from the heap,
/// unless it has to be executable or near an address, which is refused; all others are
/// whole pages, near the address if there is one.
pub proof fn allocations_follow_their_size(
    size: Option<i64>,
    options: AllocOptions,
    page_size: u64,
)
    requires
        page_size > 0,
        0 <= options.protection < 8,
    ensures
        size is None || size->0 <= 0 || size->0 > 0x7fff_ffff ==> alloc_plan_of(
            size,
            Ok(options),
            page_size,
        ) is Err,
        size is Some && 0 < size->0 <= 0x7fff_ffff && size->0 as int % page_size as int != 0 ==> {
            let bare = options.near is None && options.protection < 4;
            let plan = alloc_plan_of(size, Ok(options), page_size);
            &&& plan is Ok <==> bare
            &&& bare ==> plan->Ok_0 == (AllocPlan::Heap { size: size->0 as u64 })
        },
        size is Some && 0 < size->0 <= 0x7fff_ffff && size->0 as int % page_size as int == 0 ==> {
            let plan = alloc_plan_of(size, Ok(options), page_size);
            &&& plan is Ok
            &&& options.near is None ==> plan->Ok_0 == (AllocPlan::Pages {
                size: size->0 as u64,
                protection: options.protection,
            })
            &&& options.near is Some ==> plan->Ok_0 == (AllocPlan::Near {
                size: size->0 as u64,
                protection: options.protection,
                near: options.near->0,
                max_distance: options.max_distance,
            })
        },
{
    let p = options.protection;
    assert(p & 4 != 0 <==> p >= 4) by (bit_vector)
        requires
            0 <= p < 8,
    ;
}

/// What options stand for: read and write access anywhere unless they say otherwise. They
/// are refused if the protection is no protection, if an address or a distance does not
/// convert, or if an address comes without a distance.
pub proof fn options_stand_for_what_they_say(given: GivenOptions)
    ensures
        alloc_options_of(OptionsArgument::Unspecified) == Ok::<
            AllocOptions,
            (ErrorKind, Seq<char>),
        >(AllocOptions { protection: 3, near: None, max_distance: 0 }),
        alloc_options_of(OptionsArgument::Invalid) is Err,
        alloc_options_of(OptionsArgument::Given(given)) is Ok <==> {
            &&& given.protection is Absent || (given.protection is Value && parsed_protection(
                given.protection->Value_0@,
            ) is Some)
            &&& given.near is None || given.near->0 is Ok
            &&& !(given.max_distance is Invalid)
            &&& given.near is Some ==> given.max_distance is Value && given.max_distance->Value_0
                != 0
        },
        alloc_options_of(OptionsArgument::Given(given)) matches Ok(options) ==> {
            &&& given.protection is Absent ==> options.protection == 3
            &&& given.protection is Value ==> Some(options.protection) == parsed_protection(
                given.protection->Value_0@,
            )
            &&& given.near is None <==> options.near is None
            &&& given.near matches Some(near) ==> options.near == Some(near->Ok_0)
            &&& given.max_distance is Value ==> options.max_distance
                == given.max_distance->Value_0
            &&& given.max_distance is Absent ==> options.max_distance == 0
        },
{
}

/// A change of protection needs a size of zero or more, a protection, and, unless there is
/// nothing to change, pages that end within memory; it is for the pages that hold the bytes.
pub proof fn protections_are_changed_page_by_page(
    address: u64,
    size: Option<i64>,
    protection: Option<Seq<char>>,
    page_size: u64,
)
    requires
        page_size > 0,
    ensures
        protect_plan_of(address, size, protection, Some(page_size)) is Ok <==> {
            &&& size is Some && 0 <= size->0 <= 0x7fff_ffff
            &&& protection is Some && parsed_protection(protection->0) is Some
            &&& size->0 == 0 || address + size->0 + page_size <= 0x1_0000_0000_0000_0000
        },
        protect_plan_of(address, size, protection, Some(page_size)) matches Ok(plan) ==> {
            &&& plan is None <==> size->0 == 0
            &&& plan matches Some(change) ==> {
                &&& Some(change.protection) == parsed_protection(protection->0)
                &&& change.range.start <= address < change.range.start + page_size
                &&& address + size->0 <= change.range.start + change.range.length < address
                    + size->0 + page_size
            }
        },
{
    if size is Some && 0 < size->0 <= 0x7fff_ffff && address + size->0 + page_size
        <= 0x1_0000_0000_0000_0000 {
        pages_cover(address, size->0 as u64, page_size);
    }
}

} // verus!
