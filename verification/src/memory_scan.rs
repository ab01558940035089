//! Searching memory for a pattern, chunk by chunk, and the scans that run in the
//! background.

use crate::in_flight::{InFlight, WaitPoll};
use crate::memory_pattern::{denotes_pattern, matches_bytes, pattern_problem, MatchPattern};
use crate::script::{range_error, type_error, ErrorKind, ScriptError};
use vstd::prelude::*;
use vstd::string::*;
use vstd::utf8::encode_utf8;

verus! {

/// Most bytes that one scan looks at.
pub const MAX_SCAN_SIZE: u64 = 0x7fff_ffff;

/// Bytes that are read at once.
pub const SCAN_CHUNK_SIZE: usize = 1024 * 1024;

/// Whether a pattern matches at a position.
pub open spec fn found_at(pattern: MatchPattern, memory: Seq<u8>, pos: int) -> bool {
    &&& 0 <= pos
    &&& pos + pattern.bytes@.len() <= memory.len()
    &&& matches_bytes(
        pattern.bytes@,
        pattern.masks@,
        memory.subrange(pos, (pos + pattern.bytes@.len()) as int),
    )
}

/// How far a search has come: the next position to look at, and where matches were found.
pub struct Progress {
    pub pos: int,
    pub found: Seq<int>,
}

/// A search goes from left to right. A match is passed over as a whole, so that matches
/// never overlap.
pub open spec fn search(pattern: MatchPattern, memory: Seq<u8>, progress: Progress) -> Progress
    decreases memory.len() - progress.pos,
{
    if pattern.bytes@.len() == 0 || progress.pos + pattern.bytes@.len() > memory.len() {
        progress
    } else if found_at(pattern, memory, progress.pos) {
        search(
            pattern,
            memory,
            Progress {
                pos: progress.pos + pattern.bytes@.len(),
                found: progress.found.push(progress.pos),
            },
        )
    } else {
        search(pattern, memory, Progress { pos: progress.pos + 1, ..progress })
    }
}

/// The start of a search.
pub open spec fn search_start() -> Progress {
    Progress { pos: 0, found: Seq::empty() }
}

/// Where a pattern is found in memory.
pub open spec fn matches_in(pattern: MatchPattern, memory: Seq<u8>) -> Seq<int> {
    search(pattern, memory, search_start()).found
}

/// A search in more memory goes on where the search in less of it stopped.
pub proof fn search_continues(
    pattern: MatchPattern,
    memory: Seq<u8>,
    more: Seq<u8>,
    progress: Progress,
)
    requires
        progress.pos >= 0,
    ensures
        search(pattern, memory + more, progress) == search(
            pattern,
            memory + more,
            search(pattern, memory, progress),
        ),
        search(pattern, memory, progress).pos >= progress.pos,
        pattern.bytes@.len() > 0 ==> search(pattern, memory, progress).pos + pattern.bytes@.len()
            > memory.len(),
    decreases memory.len() - progress.pos,
{
    let n = pattern.bytes@.len();
    let all = memory + more;
    if n == 0 || progress.pos + n > memory.len() {
    } else {
        assert(all.subrange(progress.pos, (progress.pos + n) as int) =~= memory.subrange(
            progress.pos,
            (progress.pos + n) as int,
        ));
        if found_at(pattern, memory, progress.pos) {
            search_continues(
                pattern,
                memory,
                more,
                Progress { pos: progress.pos + n, found: progress.found.push(progress.pos) },
            );
        } else {
            search_continues(
                pattern,
                memory,
                more,
                Progress { pos: progress.pos + 1, ..progress },
            );
        }
    }
}

/// What a search has found are matches, in ascending order and without overlap, and no
/// match before the next position was missed that does not overlap one of them.
pub open spec fn sound_progress(pattern: MatchPattern, memory: Seq<u8>, progress: Progress) -> bool {
    let n = pattern.bytes@.len();
    &&& progress.pos >= 0
    &&& forall|k: int|
        0 <= k < progress.found.len() ==> found_at(pattern, memory, #[trigger] progress.found[k])
            && progress.found[k] + n <= progress.pos
    &&& forall|j: int, k: int|
        #![trigger progress.found[j], progress.found[k]]
        0 <= j < k < progress.found.len() ==> progress.found[j] + n <= progress.found[k]
    &&& forall|pos: int|
        0 <= pos < progress.pos && #[trigger] found_at(pattern, memory, pos) ==> exists|k: int|
            0 <= k < progress.found.len() && #[trigger] progress.found[k] <= pos
                < progress.found[k] + n
}

/// The matches that a search reports are matches, ascend and do not overlap, and every
/// match in the memory is reported or overlaps a reported one that begins before it.
pub proof fn search_is_sound_and_complete(
    pattern: MatchPattern,
    memory: Seq<u8>,
    progress: Progress,
)
    requires
        pattern.wf(),
        sound_progress(pattern, memory, progress),
    ensures
        sound_progress(pattern, memory, search(pattern, memory, progress)),
        search(pattern, memory, progress).pos + pattern.bytes@.len() > memory.len(),
    decreases memory.len() - progress.pos,
{
    let n = pattern.bytes@.len();
    if progress.pos + n > memory.len() {
    } else if found_at(pattern, memory, progress.pos) {
        let next = Progress { pos: progress.pos + n, found: progress.found.push(progress.pos) };
        let last = progress.found.len() as int;
        assert forall|pos: int|
            0 <= pos < next.pos && #[trigger] found_at(pattern, memory, pos) implies exists|k: int|
            0 <= k < next.found.len() && #[trigger] next.found[k] <= pos < next.found[k] + n by {
            if pos < progress.pos {
                let k = choose|k: int|
                    0 <= k < progress.found.len() && #[trigger] progress.found[k] <= pos
                        < progress.found[k] + n;
                assert(next.found[k] <= pos < next.found[k] + n);
            } else {
                assert(next.found[last] <= pos < next.found[last] + n);
            }
        }
        search_is_sound_and_complete(pattern, memory, next);
    } else {
        let next = Progress { pos: progress.pos + 1, ..progress };
        assert forall|pos: int|
            0 <= pos < next.pos && #[trigger] found_at(pattern, memory, pos) implies exists|k: int|
            0 <= k < next.found.len() && #[trigger] next.found[k] <= pos < next.found[k] + n by {
            let k = choose|k: int|
                0 <= k < progress.found.len() && #[trigger] progress.found[k] <= pos
                    < progress.found[k] + n;
            assert(next.found[k] <= pos < next.found[k] + n);
        }
        search_is_sound_and_complete(pattern, memory, next);
    }
}

/// What has to be read next.
#[derive(Clone, Copy, Debug, PartialEq, Eq, Structural)]
pub struct ReadRequest {
    pub address: u64,
    pub length: usize,
}

/// A scan of `size` bytes from `address` on. The embedder reads what is asked for and
/// feeds it in; a read that fails ends the scan.
pub struct ScanCursor {
    pub pattern: MatchPattern,
    pub address: u64,
    pub size: usize,
    pub offset: usize,
    pub tail: Vec<u8>,
    pub next_allowed: u64,
    pub matches: Vec<u64>,
    /// What has been read so far.
    pub memory: Ghost<Seq<u8>>,
}

/// Positions as addresses.
pub open spec fn addresses(base: u64, positions: Seq<int>) -> Seq<u64> {
    Seq::new(positions.len(), |i: int| (base + positions[i]) as u64)
}

/// The larger of two numbers.
pub open spec fn larger(left: int, right: int) -> int {
    if left >= right {
        left
    } else {
        right
    }
}

impl ScanCursor {
    /// The state is that of a search in what has been read: the end of it that the next
    /// match may begin in is kept.
    pub open spec fn wf(&self) -> bool {
        let n = self.pattern.bytes@.len();
        let memory = self.memory@;
        let progress = search(self.pattern, memory, search_start());
        &&& self.pattern.wf()
        &&& self.address + self.size <= u64::MAX
        &&& self.offset <= self.size
        &&& memory.len() == self.offset
        &&& self.tail@.len() == if self.offset < n - 1 {
            self.offset as int
        } else {
            n - 1
        }
        &&& self.tail@ == memory.skip(self.offset - self.tail@.len())
        &&& self.address <= self.next_allowed <= self.address + self.offset
        &&& self.matches@ == addresses(self.address, progress.found)
        &&& larger(self.offset - self.tail@.len(), self.next_allowed - self.address)
            == progress.pos
    }

    /// Begins a scan.
    pub fn new(address: u64, size: usize, pattern: MatchPattern) -> (cursor: ScanCursor)
        requires
            pattern.wf(),
            address + size <= u64::MAX,
        ensures
            cursor.wf(),
            cursor.address == address,
            cursor.size == size,
            cursor.offset == 0,
            cursor.pattern == pattern,
            cursor.memory@ == Seq::<u8>::empty(),
    {
        let cursor: ScanCursor = ScanCursor {
            pattern,
            address,
            size,
            offset: 0,
            tail: Vec::new(),
            next_allowed: address,
            matches: Vec::new(),
            memory: Ghost(Seq::empty()),
        };
        assert(cursor.tail@ =~= cursor.memory@.skip(0));
        assert(cursor.matches@ =~= addresses(address, search_start().found));
        cursor
    }

    /// What has to be read next, if anything.
    pub open spec fn request(&self) -> Option<ReadRequest> {
        if self.size < self.pattern.bytes@.len() || self.offset >= self.size {
            None
        } else {
            Some(
                ReadRequest {
                    address: (self.address + self.offset) as u64,
                    length: if self.size - self.offset < SCAN_CHUNK_SIZE {
                        (self.size - self.offset) as usize
                    } else {
                        SCAN_CHUNK_SIZE
                    },
                },
            )
        }
    }

    /// What has to be read next. Nothing is read from a range that is shorter than the
    /// pattern.
    pub fn next_request(&self) -> (request: Option<ReadRequest>)
        requires
            self.wf(),
        ensures
            request == self.request(),
    {
        if self.size < self.pattern.len() || self.offset >= self.size {
            return None;
        }
        let left: usize = self.size - self.offset;
        let length: usize = if left < SCAN_CHUNK_SIZE {
            left
        } else {
            SCAN_CHUNK_SIZE
        };
        Some(ReadRequest { address: self.address + self.offset as u64, length })
    }

    /// Takes in what was read.
    pub fn feed(&mut self, chunk: &[u8])
        requires
            old(self).wf(),
            chunk@.len() <= old(self).size - old(self).offset,
        ensures
            final(self).wf(),
            final(self).address == old(self).address,
            final(self).size == old(self).size,
            final(self).pattern == old(self).pattern,
            final(self).memory@ == old(self).memory@ + chunk@,
            final(self).offset == old(self).offset + chunk@.len(),
    {
        let n: usize = self.pattern.len();
        let ghost before = self.memory@;
        let ghost all = before + chunk@;
        let ghost base = self.offset - self.tail@.len();
        let ghost goal = search(self.pattern, all, search_start());
        proof {
            search_continues(self.pattern, before, chunk@, search_start());
            search_continues(self.pattern, all, Seq::empty(), search_start());
            assert(all + Seq::<u8>::empty() =~= all);
        }
        let tail_length: usize = self.tail.len();
        let combined_base: u64 = self.address + self.offset as u64 - tail_length as u64;
        self.tail.extend_from_slice(chunk);
        assert(self.tail@ =~= all.skip(base));
        let mut index: usize = 0;
        let ghost mut found = search(self.pattern, before, search_start()).found;
        while self.tail.len() >= n && index <= self.tail.len() - n
            invariant
                n == self.pattern.bytes@.len(),
                n >= 1,
                self.pattern.wf(),
                self.pattern == old(self).pattern,
                self.address == old(self).address,
                self.size == old(self).size,
                self.offset == old(self).offset,
                self.address + self.size <= u64::MAX,
                base >= 0,
                combined_base == self.address + base,
                all.len() <= self.size,
                all.len() == base + self.tail@.len(),
                self.tail@ == all.skip(base),
                index <= self.tail@.len(),
                index == 0 || index + n <= self.tail@.len() + 1 || base + index
                    <= self.next_allowed - self.address,
                self.address <= self.next_allowed <= self.address + all.len(),
                self.matches@ == addresses(self.address, found),
                goal == search(
                    self.pattern,
                    all,
                    Progress {
                        pos: larger(base + index, self.next_allowed - self.address),
                        found,
                    },
                ),
                goal == search(self.pattern, all, search_start()),
            decreases self.tail@.len() + n - index,
        {
            let candidate: u64 = combined_base + index as u64;
            let window: &[u8] = vstd::slice::slice_subrange(
                self.tail.as_slice(),
                index,
                index + n,
            );
            let ghost pos = base + index;
            assert(window@ =~= all.subrange(pos, pos + n));
            if candidate >= self.next_allowed && self.pattern.matches(window) {
                assert(found_at(self.pattern, all, pos));
                let ghost earlier = found;
                proof {
                    found = found.push(pos);
                }
                self.matches.push(candidate);
                assert(self.matches@ =~= addresses(self.address, found));
                self.next_allowed = candidate + n as u64;
                index = index + n;
            } else {
                proof {
                    if candidate >= self.next_allowed {
                        assert(!found_at(self.pattern, all, pos));
                    }
                }
                index = index + 1;
            }
        }
        let keep: usize = if n - 1 < self.tail.len() {
            n - 1
        } else {
            self.tail.len()
        };
        let keep_start: usize = self.tail.len() - keep;
        let rest: Vec<u8> = self.tail.split_off(keep_start);
        self.tail = rest;
        self.offset = self.offset + chunk.len();
        self.memory = Ghost(all);
        proof {
            assert(self.tail@ =~= all.skip(self.offset - self.tail@.len()));
            let reached = Progress {
                pos: larger(base + index, self.next_allowed - self.address),
                found,
            };
            assert(goal == reached);
        }
    }

    /// The addresses of the matches in what has been read.
    pub fn into_matches(self) -> (matches: Vec<u64>)
        requires
            self.wf(),
        ensures
            matches@ == addresses(self.address, matches_in(self.pattern, self.memory@)),
    {
        self.matches
    }
}

/// Searches memory that is at hand, as if it were read chunk by chunk from `address` on.
pub fn scan_range(address: u64, memory: &[u8], pattern: MatchPattern) -> (matches: Vec<u64>)
    requires
        pattern.wf(),
        address + memory@.len() <= u64::MAX,
    ensures
        matches@ == addresses(address, matches_in(pattern, memory@)),
{
    let size: usize = memory.len();
    let mut cursor: ScanCursor = ScanCursor::new(address, size, pattern);
    assert(memory@.take(0) =~= Seq::<u8>::empty());
    let mut done: bool = false;
    while !done
        invariant
            cursor.wf(),
            cursor.address == address,
            cursor.size == size,
            cursor.pattern == pattern,
            size == memory@.len(),
            cursor.memory@ == memory@.take(cursor.offset as int),
            done ==> cursor.offset == size || size < pattern.bytes@.len(),
        decreases
                (if done {
                    0int
                } else {
                    1int
                }) + size - cursor.offset,
    {
        match cursor.next_request() {
            None => {
                done = true;
            },
            Some(request) => {
                let start: usize = cursor.offset;
                let chunk: &[u8] = vstd::slice::slice_subrange(
                    memory,
                    start,
                    start + request.length,
                );
                cursor.feed(chunk);
                assert(cursor.memory@ =~= memory@.take(cursor.offset as int));
            },
        }
    }
    proof {
        if cursor.offset == size {
            assert(memory@.take(size as int) =~= memory@);
        }
    }
    cursor.into_matches()
}

/// Why a synchronous scan is refused, in the order of the checks. An argument that does
/// not convert is `None`.
pub open spec fn scan_sync_problem(
    argument_count: usize,
    address: Option<u64>,
    size: Option<i64>,
    pattern: Option<Seq<char>>,
) -> Option<(ErrorKind, Seq<char>)> {
    if argument_count < 3 {
        Some(
            (
                ErrorKind::TypeError,
                "Memory.scanSync(address, size, pattern) requires 3 arguments"@,
            ),
        )
    } else if address is None {
        Some((ErrorKind::TypeError, "Memory.scanSync: address must be a pointer"@))
    } else if size is None || size->0 < 0 || size->0 > MAX_SCAN_SIZE {
        Some((ErrorKind::RangeError, "Memory.scanSync: invalid size"@))
    } else if address->0 + size->0 > u64::MAX {
        Some((ErrorKind::RangeError, "Memory.scanSync: address range overflow"@))
    } else {
        match pattern {
            None => Some((ErrorKind::TypeError, "Memory.scanSync: pattern must be a string"@)),
            Some(text) => match pattern_problem(encode_utf8(text)) {
                Some(message) => Some((ErrorKind::RangeError, message)),
                None => None,
            },
        }
    }
}

/// Text that may be missing, as characters.
pub open spec fn optional_chars(text: Option<&str>) -> Option<Seq<char>> {
    match text {
        Some(text) => Some(text@),
        None => None,
    }
}

/// Checks the arguments of a synchronous scan and begins it.
pub fn memory_scan_sync(
    argument_count: usize,
    address: Option<u64>,
    size: Option<i64>,
    pattern: Option<&str>,
) -> (result: Result<ScanCursor, ScriptError>)
    ensures
        result is Err <==> scan_sync_problem(
            argument_count,
            address,
            size,
            optional_chars(pattern),
        ) is Some,
        result matches Err(error) ==> scan_sync_problem(
            argument_count,
            address,
            size,
            optional_chars(pattern),
        ) == Some(error@),
        result matches Ok(cursor) ==> {
            &&& cursor.wf()
            &&& Some(cursor.address) == address
            &&& cursor.size == size->0
            &&& cursor.offset == 0
            &&& denotes_pattern(pattern->0@, cursor.pattern)
        },
{
    if argument_count < 3 {
        return Err(type_error("Memory.scanSync(address, size, pattern) requires 3 arguments"));
    }
    let address: u64 = match address {
        Some(address) => address,
        None => {
            return Err(type_error("Memory.scanSync: address must be a pointer"));
        },
    };
    let size: i64 = match size {
        Some(size) => size,
        None => {
            return Err(range_error("Memory.scanSync: invalid size"));
        },
    };
    if size < 0 || size as u64 > MAX_SCAN_SIZE {
        return Err(range_error("Memory.scanSync: invalid size"));
    }
    if address.checked_add(size as u64).is_none() {
        return Err(range_error("Memory.scanSync: address range overflow"));
    }
    match pattern {
        None => Err(type_error("Memory.scanSync: pattern must be a string")),
        Some(text) => match MatchPattern::parse(text) {
            Ok(pattern) => Ok(ScanCursor::new(address, size as usize, pattern)),
            Err(message) => Err(range_error(message)),
        },
    }
}

/// A scan that runs in the background.
#[derive(Clone, Copy, Debug, PartialEq, Eq, Structural)]
pub struct ScanJob {
    pub id: u64,
    pub context: u64,
    pub cancelled: bool,
}

/// The scans that run in the background.
#[derive(Debug)]
pub struct ScanJobs {
    pub jobs: Vec<ScanJob>,
    pub next_id: u64,
}

/// The jobs without those that have an id.
pub open spec fn jobs_without(jobs: Seq<ScanJob>, id: u64) -> Seq<ScanJob>
    decreases jobs.len(),
{
    if jobs.len() == 0 {
        Seq::empty()
    } else if jobs.last().id == id {
        jobs_without(jobs.drop_last(), id)
    } else {
        jobs_without(jobs.drop_last(), id).push(jobs.last())
    }
}

impl ScanJobs {
    pub fn new() -> (jobs: ScanJobs)
        ensures
            jobs.jobs@.len() == 0,
            jobs.next_id == 1,
    {
        ScanJobs { jobs: Vec::new(), next_id: 1 }
    }

    /// Adds a scan and gives it an id.
    pub fn register_job(&mut self, context: u64) -> (id: u64)
        ensures
            id == old(self).next_id,
            final(self).next_id == if id == u64::MAX {
                0
            } else {
                (id + 1) as u64
            },
            final(self).jobs@ == old(self).jobs@.push(ScanJob { id, context, cancelled: false }),
    {
        let id: u64 = self.next_id;
        self.next_id = id.wrapping_add(1);
        self.jobs.push(ScanJob { id, context, cancelled: false });
        id
    }

    /// Removes a scan that has ended.
    pub fn unregister_job(&mut self, id: u64)
        ensures
            final(self).next_id == old(self).next_id,
            final(self).jobs@ == jobs_without(old(self).jobs@, id),
    {
        let mut kept: Vec<ScanJob> = Vec::new();
        let mut i: usize = 0;
        assert(self.jobs@.take(0) =~= Seq::<ScanJob>::empty());
        while i < self.jobs.len()
            invariant
                i <= self.jobs@.len(),
                self.jobs@ == old(self).jobs@,
                self.next_id == old(self).next_id,
                kept@ == jobs_without(self.jobs@.take(i as int), id),
            decreases self.jobs@.len() - i,
        {
            assert(self.jobs@.take(i + 1).drop_last() =~= self.jobs@.take(i as int));
            if self.jobs[i].id != id {
                kept.push(self.jobs[i]);
            }
            i = i + 1;
        }
        assert(self.jobs@.take(self.jobs@.len() as int) =~= self.jobs@);
        self.jobs = kept;
    }
}

/// Stops every scan: none of them reports another match.
pub fn cut_memory_scans(jobs: &mut ScanJobs)
    ensures
        final(jobs).next_id == old(jobs).next_id,
        final(jobs).jobs@.len() == old(jobs).jobs@.len(),
        forall|i: int|
            0 <= i < final(jobs).jobs@.len() ==> #[trigger] final(jobs).jobs@[i] == (ScanJob {
                cancelled: true,
                ..old(jobs).jobs@[i]
            }),
{
    let ghost before = jobs.jobs@;
    let mut i: usize = 0;
    while i < jobs.jobs.len()
        invariant
            i <= jobs.jobs@.len(),
            jobs.jobs@.len() == before.len(),
            jobs.next_id == old(jobs).next_id,
            forall|k: int|
                0 <= k < i ==> #[trigger] jobs.jobs@[k] == (ScanJob { cancelled: true, ..before[k] }),
            forall|k: int| i <= k < before.len() ==> #[trigger] jobs.jobs@[k] == before[k],
        decreases jobs.jobs@.len() - i,
    {
        jobs.jobs[i].cancelled = true;
        i = i + 1;
    }
}

/// Whether a scan was stopped.
pub open spec fn is_cut(jobs: Seq<ScanJob>, id: u64) -> bool {
    exists|i: int| 0 <= i < jobs.len() && (#[trigger] jobs[i]).id == id && jobs[i].cancelled
}

/// What a background scan has to read next. One that was stopped reads no more, so that a
/// long scan does not outlive its script.
pub fn next_scan_request(jobs: &ScanJobs, id: u64, cursor: &ScanCursor) -> (request: Option<
    ReadRequest,
>)
    requires
        cursor.wf(),
    ensures
        request == if is_cut(jobs.jobs@, id) {
            None
        } else {
            cursor.request()
        },
{
    let mut i: usize = 0;
    while i < jobs.jobs.len()
        invariant
            i <= jobs.jobs@.len(),
            forall|k: int|
                0 <= k < i ==> !((#[trigger] jobs.jobs@[k]).id == id && jobs.jobs@[k].cancelled),
        decreases jobs.jobs@.len() - i,
    {
        if jobs.jobs[i].id == id && jobs.jobs[i].cancelled {
            assert(jobs.jobs@[i as int].id == id);
            return None;
        }
        i = i + 1;
    }
    cursor.next_request()
}

/// Once the scans have been stopped, every one of them that runs is.
pub proof fn stopped_scans_are_cut(before: Seq<ScanJob>, after: Seq<ScanJob>, id: u64)
    requires
        after.len() == before.len(),
        forall|i: int|
            0 <= i < after.len() ==> #[trigger] after[i] == (ScanJob {
                cancelled: true,
                ..before[i]
            }),
        exists|i: int| 0 <= i < before.len() && (#[trigger] before[i]).id == id,
    ensures
        is_cut(after, id),
{
    let i = choose|i: int| 0 <= i < before.len() && (#[trigger] before[i]).id == id;
    assert(after[i].id == id && after[i].cancelled);
}

/// What to do while waiting for the scans to end after they were stopped.
pub fn wait_for_memory_scans(scans: &InFlight, elapsed: u64, timeout: u64) -> (poll: WaitPoll)
    ensures
        poll == if scans.count == 0 {
            WaitPoll::Idle
        } else if elapsed >= timeout {
            WaitPoll::TimedOut
        } else {
            WaitPoll::Wait { remaining: (timeout - elapsed) as u64 }
        },
{
    scans.poll(elapsed, timeout)
}

/// What a background scan does about a match.
#[derive(Clone, Copy, Debug, PartialEq, Eq, Structural)]
pub enum MatchStep {
    /// The scan ends.
    Stop,
    /// Nobody wants to know.
    Skip,
    /// The script is called.
    Report,
}

/// What a background scan does about a match: it stops if it was cancelled, also while it
/// waited for the script's engine, or if that could not be entered.
pub fn scan_match_step(
    cancelled: bool,
    has_on_match: bool,
    entered: bool,
    cancelled_meanwhile: bool,
) -> (step: MatchStep)
    ensures
        step == if cancelled {
            MatchStep::Stop
        } else if !has_on_match {
            MatchStep::Skip
        } else if !entered || cancelled_meanwhile {
            MatchStep::Stop
        } else {
            MatchStep::Report
        },
{
    if cancelled {
        MatchStep::Stop
    } else if !has_on_match {
        MatchStep::Skip
    } else if !entered || cancelled_meanwhile {
        MatchStep::Stop
    } else {
        MatchStep::Report
    }
}

/// Which callbacks a background scan calls at its end.
#[derive(Clone, Copy, Debug, PartialEq, Eq, Structural)]
pub struct ScanCompletion {
    pub report_error: bool,
    pub report_completion: bool,
}

/// Which callbacks a background scan calls at its end: none if it was cancelled or the
/// script's engine could not be entered. An error does not keep it from completing.
pub fn scan_completion(
    cancelled: bool,
    entered: bool,
    failed: bool,
    has_on_error: bool,
    has_on_complete: bool,
) -> (completion: ScanCompletion)
    ensures
        completion == (ScanCompletion {
            report_error: !cancelled && entered && failed && has_on_error,
            report_completion: !cancelled && entered && has_on_complete,
        }),
{
    let live: bool = !cancelled && entered;
    ScanCompletion {
        report_error: live && failed && has_on_error,
        report_completion: live && has_on_complete,
    }
}

/// What a scan reports are places where the pattern matches, in ascending order and without
/// overlap, and every place where it matches is reported or overlaps a reported place that
/// begins before it. The first match is always reported.
pub proof fn matches_are_reported_from_the_left(pattern: MatchPattern, memory: Seq<u8>, pos: int)
    requires
        pattern.wf(),
    ensures
        forall|k: int|
            0 <= k < matches_in(pattern, memory).len() ==> {
                let place = #[trigger] matches_in(pattern, memory)[k];
                &&& 0 <= place
                &&& place + pattern.bytes@.len() <= memory.len()
                &&& matches_bytes(
                    pattern.bytes@,
                    pattern.masks@,
                    memory.subrange(place, place + pattern.bytes@.len()),
                )
            },
        forall|j: int, k: int|
            #![trigger matches_in(pattern, memory)[j], matches_in(pattern, memory)[k]]
            0 <= j < k < matches_in(pattern, memory).len() ==> matches_in(pattern, memory)[j]
                + pattern.bytes@.len() <= matches_in(pattern, memory)[k],
        0 <= pos && pos + pattern.bytes@.len() <= memory.len() && matches_bytes(
            pattern.bytes@,
            pattern.masks@,
            memory.subrange(pos, pos + pattern.bytes@.len()),
        ) ==> exists|k: int|
            0 <= k < matches_in(pattern, memory).len() && #[trigger] matches_in(pattern, memory)[k]
                <= pos < matches_in(pattern, memory)[k] + pattern.bytes@.len(),
{
    search_is_sound_and_complete(pattern, memory, search_start());
    let last = search(pattern, memory, search_start());
    assert forall|k: int| 0 <= k < matches_in(pattern, memory).len() implies {
        let place = #[trigger] matches_in(pattern, memory)[k];
        &&& 0 <= place
        &&& place + pattern.bytes@.len() <= memory.len()
        &&& matches_bytes(
            pattern.bytes@,
            pattern.masks@,
            memory.subrange(place, place + pattern.bytes@.len()),
        )
    } by {
        assert(found_at(pattern, memory, last.found[k]));
    }
    if 0 <= pos && pos + pattern.bytes@.len() <= memory.len() && matches_bytes(
        pattern.bytes@,
        pattern.masks@,
        memory.subrange(pos, pos + pattern.bytes@.len()),
    ) {
        assert(found_at(pattern, memory, pos));
        let k = choose|k: int|
            0 <= k < last.found.len() && #[trigger] last.found[k] <= pos < last.found[k]
                + pattern.bytes@.len();
        assert(matches_in(pattern, memory)[k] <= pos);
    }
}

/// Matches are reported by their addresses, each as far behind the base as its place is in
/// the memory.
pub proof fn matches_are_addresses(base: u64, positions: Seq<int>, at: int)
    requires
        0 <= at < positions.len(),
        0 <= positions[at] <= u64::MAX - base,
    ensures
        addresses(base, positions).len() == positions.len(),
        addresses(base, positions)[at] - base == positions[at],
{
}

/// A scan asks for what follows what it has, up to a mebibyte at a time and never beyond
/// its range, until nothing is left; a range that is shorter than the pattern is not read.
pub proof fn scans_ask_for_what_follows(cursor: ScanCursor)
    requires
        cursor.wf(),
    ensures
        cursor.request() is Some <==> cursor.size >= cursor.pattern.bytes@.len() && cursor.offset
            < cursor.size,
        cursor.request() matches Some(request) ==> {
            &&& request.address == cursor.address + cursor.offset
            &&& 0 < request.length <= 0x10_0000
            &&& cursor.offset + request.length <= cursor.size
            &&& request.length < 0x10_0000 ==> cursor.offset + request.length == cursor.size
        },
{
}

/// A synchronous scan needs an address, a size, a range that ends within memory and a
/// pattern.
pub proof fn scans_need_a_range_and_a_pattern(
    argument_count: usize,
    address: Option<u64>,
    size: Option<i64>,
    pattern: Option<Seq<char>>,
)
    ensures
        scan_sync_problem(argument_count, address, size, pattern) is None <==> {
            &&& argument_count >= 3
            &&& address is Some
            &&& size is Some && 0 <= size->0 <= 0x7fff_ffff
            &&& address->0 + size->0 <= u64::MAX
            &&& pattern is Some && pattern_problem(encode_utf8(pattern->0)) is None
        },
{
}

/// Taking a job out leaves all others, in their order.
pub proof fn other_jobs_stay(jobs: Seq<ScanJob>, id: u64)
    ensures
        jobs_without(jobs, id) == jobs.filter(|j: ScanJob| j.id != id),
    decreases jobs.len(),
{
    reveal(Seq::filter);
    if jobs.len() > 0 {
        other_jobs_stay(jobs.drop_last(), id);
    }
}

} // verus!
