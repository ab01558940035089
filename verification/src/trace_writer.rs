//! Writing trace bundles: sessions, chunks and their publication.

use crate::text::{numeral, push_numeral};
use vstd::prelude::*;
use vstd::string::*;

verus! {

/// Where a session is written before it is published.
pub open spec fn tmp_path_text(base: Seq<char>, session_id: u64) -> Seq<char> {
    base + "/trace_bundle.pb.s"@ + numeral(session_id as nat, 10) + ".tmp"@
}

/// Where a session is published.
pub open spec fn final_path_text(base: Seq<char>) -> Seq<char> {
    base + "/trace_bundle.pb"@
}

/// Where a session is written before it is published.
pub fn merged_bundle_tmp_path(base: &str, session_id: u64) -> (path: String)
    ensures
        path@ == tmp_path_text(base@, session_id),
{
    let mut path: String = String::from_str(base);
    path.append("/trace_bundle.pb.s");
    push_numeral(&mut path, session_id, 10);
    path.append(".tmp");
    path
}

/// Where a session is published.
pub fn final_trace_path(base: &str) -> (path: String)
    ensures
        path@ == final_path_text(base@),
{
    let mut path: String = String::from_str(base);
    path.append("/trace_bundle.pb");
    path
}

/// Sessions have files of their own.
pub proof fn sessions_have_distinct_files(base: Seq<char>, left: u64, right: u64)
    requires
        tmp_path_text(base, left) == tmp_path_text(base, right),
    ensures
        left == right,
{
    let a = numeral(left as nat, 10);
    let b = numeral(right as nat, 10);
    let front = base + "/trace_bundle.pb.s"@;
    let tail = ".tmp"@;
    let path = tmp_path_text(base, left);
    assert(path.len() == front.len() + a.len() + tail.len());
    assert(path.len() == front.len() + b.len() + tail.len());
    assert(path.subrange(front.len() as int, (front.len() + a.len()) as int) =~= a);
    assert(path.subrange(front.len() as int, (front.len() + b.len()) as int) =~= b);
    crate::text::numeral_reads_back(left as nat, 10);
    crate::text::numeral_reads_back(right as nat, 10);
}

/// A session that is being written.
#[derive(Debug)]
pub struct TraceWriter {
    pub session_id: u64,
    pub base: String,
    pub tmp_path: String,
}

/// Counters of the writer; they wrap round.
#[derive(Clone, Copy, Debug, PartialEq, Eq, Structural)]
pub struct WriterStats {
    pub chunks_submitted: u64,
    pub chunks_dropped: u64,
    pub bytes_dropped: u64,
    pub dynamic_chunks_submitted: u64,
    pub dynamic_chunks_dropped: u64,
    pub dynamic_bytes_dropped: u64,
    pub max_chunk_bytes: u64,
    pub event_count: u64,
    pub raw_bytes: u64,
}

/// Counters at the start of a session.
pub open spec fn zero_stats() -> WriterStats {
    WriterStats {
        chunks_submitted: 0,
        chunks_dropped: 0,
        bytes_dropped: 0,
        dynamic_chunks_submitted: 0,
        dynamic_chunks_dropped: 0,
        dynamic_bytes_dropped: 0,
        max_chunk_bytes: 0,
        event_count: 0,
        raw_bytes: 0,
    }
}

/// The sum of two counters, which wraps round.
pub open spec fn wrapped_sum(left: u64, right: u64) -> u64 {
    if left + right > u64::MAX {
        (left + right - 0x1_0000_0000_0000_0000) as u64
    } else {
        (left + right) as u64
    }
}

/// What became of a chunk.
#[derive(Clone, Copy, Debug, PartialEq, Eq, Structural)]
pub enum ChunkOutcome {
    /// It could not be transcoded.
    TranscodeFailed,
    /// No session was being written.
    WriterMissing,
    /// It could not be written.
    WriteFailed,
    Written,
}

/// The counters after a chunk of `length` bytes. An empty chunk does not count.
pub open spec fn after_chunk(
    stats: WriterStats,
    length: u64,
    dynamic: bool,
    outcome: ChunkOutcome,
) -> WriterStats {
    if length == 0 {
        stats
    } else {
        let stats = WriterStats {
            max_chunk_bytes: if length > stats.max_chunk_bytes {
                length
            } else {
                stats.max_chunk_bytes
            },
            ..stats
        };
        if outcome == ChunkOutcome::Written {
            if dynamic {
                WriterStats {
                    dynamic_chunks_submitted: wrapped_sum(stats.dynamic_chunks_submitted, 1),
                    ..stats
                }
            } else {
                WriterStats { chunks_submitted: wrapped_sum(stats.chunks_submitted, 1), ..stats }
            }
        } else if dynamic {
            WriterStats {
                dynamic_chunks_dropped: wrapped_sum(stats.dynamic_chunks_dropped, 1),
                dynamic_bytes_dropped: wrapped_sum(stats.dynamic_bytes_dropped, length),
                ..stats
            }
        } else {
            WriterStats {
                chunks_dropped: wrapped_sum(stats.chunks_dropped, 1),
                bytes_dropped: wrapped_sum(stats.bytes_dropped, length),
                ..stats
            }
        }
    }
}

impl WriterStats {
    pub fn new() -> (stats: WriterStats)
        ensures
            stats == zero_stats(),
    {
        WriterStats {
            chunks_submitted: 0,
            chunks_dropped: 0,
            bytes_dropped: 0,
            dynamic_chunks_submitted: 0,
            dynamic_chunks_dropped: 0,
            dynamic_bytes_dropped: 0,
            max_chunk_bytes: 0,
            event_count: 0,
            raw_bytes: 0,
        }
    }

    /// Counts a chunk.
    pub fn submit_chunk_inner(&mut self, length: u64, dynamic: bool, outcome: ChunkOutcome)
        ensures
            *final(self) == after_chunk(*old(self), length, dynamic, outcome),
    {
        if length == 0 {
            return;
        }
        if length > self.max_chunk_bytes {
            self.max_chunk_bytes = length;
        }
        let written: bool = matches!(outcome, ChunkOutcome::Written);
        if written {
            if dynamic {
                self.dynamic_chunks_submitted = self.dynamic_chunks_submitted.wrapping_add(1);
            } else {
                self.chunks_submitted = self.chunks_submitted.wrapping_add(1);
            }
        } else if dynamic {
            self.dynamic_chunks_dropped = self.dynamic_chunks_dropped.wrapping_add(1);
            self.dynamic_bytes_dropped = self.dynamic_bytes_dropped.wrapping_add(length);
        } else {
            self.chunks_dropped = self.chunks_dropped.wrapping_add(1);
            self.bytes_dropped = self.bytes_dropped.wrapping_add(length);
        }
    }

    /// Counts an event.
    pub fn count_event(&mut self, raw_length: u64)
        ensures
            *final(self) == (WriterStats {
                event_count: wrapped_sum(old(self).event_count, 1),
                raw_bytes: wrapped_sum(old(self).raw_bytes, raw_length),
                ..*old(self)
            }),
    {
        self.event_count = self.event_count.wrapping_add(1);
        self.raw_bytes = self.raw_bytes.wrapping_add(raw_length);
    }
}

/// A chunk on its way to the file.
#[derive(Debug)]
pub struct Submission {
    pub payload: Vec<u8>,
    /// Whether it holds code that was not in a module.
    pub dynamic: bool,
}

/// The events of one thread that wait to fill a chunk.
#[derive(Debug)]
pub struct ChunkBuffer {
    pub bytes: Vec<u8>,
    pub chunk_size: usize,
}

/// The payloads of a row of submissions, one behind the other.
pub open spec fn payload_bytes(submissions: Seq<Submission>) -> Seq<u8>
    decreases submissions.len(),
{
    if submissions.len() == 0 {
        Seq::empty()
    } else {
        payload_bytes(submissions.drop_last()) + submissions.last().payload@
    }
}

/// What sending an event yields.
pub open spec fn sent(
    before: Seq<u8>,
    chunk_size: nat,
    event: Seq<u8>,
    dynamic: bool,
    after: Seq<u8>,
    submissions: Seq<Submission>,
) -> bool {
    if event.len() > chunk_size {
        // Too long for any chunk: it goes out by itself at once.
        &&& after == before
        &&& submissions.len() == 1
        &&& submissions[0].payload@ == event
        &&& submissions[0].dynamic == dynamic
    } else {
        let full = before.len() + event.len() > chunk_size;
        let kept = if full {
            Seq::empty()
        } else {
            before
        };
        &&& after == if dynamic {
            kept
        } else {
            kept + event
        }
        &&& submissions.len() == (if full {
            1nat
        } else {
            0nat
        }) + (if dynamic {
            1nat
        } else {
            0nat
        })
        &&& full ==> submissions[0].payload@ == before && !submissions[0].dynamic
        &&& dynamic ==> submissions.last().payload@ == event && submissions.last().dynamic
    }
}

impl ChunkBuffer {
    /// What waits fits in a chunk.
    pub open spec fn wf(&self) -> bool {
        self.bytes@.len() <= self.chunk_size
    }

    pub fn new(chunk_size: usize) -> (buffer: ChunkBuffer)
        ensures
            buffer.wf(),
            buffer.bytes@.len() == 0,
            buffer.chunk_size == chunk_size,
    {
        ChunkBuffer { bytes: Vec::new(), chunk_size }
    }

    fn take_payload(&mut self) -> (payload: Vec<u8>)
        ensures
            payload@ == old(self).bytes@,
            final(self).bytes@ == Seq::<u8>::empty(),
            final(self).chunk_size == old(self).chunk_size,
    {
        let mut payload: Vec<u8> = Vec::new();
        core::mem::swap(&mut self.bytes, &mut payload);
        payload
    }

    /// Hands out what waits, if anything does.
    pub fn flush_thread_local_chunk(&mut self) -> (payload: Option<Vec<u8>>)
        ensures
            final(self).wf(),
            final(self).chunk_size == old(self).chunk_size,
            final(self).bytes@.len() == 0,
            payload is Some <==> old(self).bytes@.len() > 0,
            payload matches Some(bytes) ==> bytes@ == old(self).bytes@,
    {
        if self.bytes.len() == 0 {
            None
        } else {
            Some(self.take_payload())
        }
    }

    /// Takes an event, given by its bytes, and hands out the chunks that are complete.
    pub fn trace_send(&mut self, event: Vec<u8>, dynamic: bool) -> (submissions: Vec<Submission>)
        requires
            old(self).wf(),
        ensures
            final(self).wf(),
            final(self).chunk_size == old(self).chunk_size,
            sent(
                old(self).bytes@,
                old(self).chunk_size as nat,
                event@,
                dynamic,
                final(self).bytes@,
                submissions@,
            ),
    {
        let mut submissions: Vec<Submission> = Vec::new();
        let raw_length: usize = event.len();
        if raw_length > self.chunk_size {
            submissions.push(Submission { payload: event, dynamic });
            return submissions;
        }
        if self.bytes.len() > self.chunk_size - raw_length {
            let payload: Vec<u8> = self.take_payload();
            submissions.push(Submission { payload, dynamic: false });
        }
        if dynamic {
            submissions.push(Submission { payload: event, dynamic: true });
        } else {
            let mut event: Vec<u8> = event;
            self.bytes.append(&mut event);
        }
        submissions
    }
}

/// An ordinary event that fits in a chunk is neither lost nor moved: what was handed out
/// and what waits, one behind the other, is what waited before and the event.
pub proof fn sending_keeps_the_order(
    before: Seq<u8>,
    chunk_size: nat,
    event: Seq<u8>,
    after: Seq<u8>,
    submissions: Seq<Submission>,
)
    requires
        event.len() <= chunk_size,
        sent(before, chunk_size, event, false, after, submissions),
    ensures
        payload_bytes(submissions) + after == before + event,
{
    if before.len() + event.len() > chunk_size {
        assert(submissions.drop_last() =~= Seq::<Submission>::empty());
        assert(payload_bytes(submissions.drop_last()) =~= Seq::<u8>::empty());
        assert(payload_bytes(submissions) =~= before);
        assert(after =~= event);
    } else {
        assert(payload_bytes(submissions) =~= Seq::<u8>::empty());
        assert(payload_bytes(submissions) + after =~= after);
    }
}

/// How a finished session is published.
#[derive(Clone, Copy, Debug, PartialEq, Eq, Structural)]
pub enum PublishStep {
    /// A later session has been published: remove the file.
    Discard,
    /// Put the file in the place of the published one.
    Rename,
}

/// The sessions of the writer.
#[derive(Debug)]
pub struct TraceSessions {
    pub writer: Option<TraceWriter>,
    /// How many sessions have been started.
    pub started: u64,
    /// The latest session that has been published.
    pub published: u64,
    pub stats: WriterStats,
}

impl TraceSessions {
    /// No session that exists is later than the last one that was started.
    pub open spec fn wf(&self) -> bool {
        &&& self.writer matches Some(writer) ==> writer.session_id <= self.started
        &&& self.published <= self.started
    }

    pub fn new() -> (sessions: TraceSessions)
        ensures
            sessions.wf(),
            sessions.writer is None,
            sessions.started == 0,
            sessions.published == 0,
            sessions.stats == zero_stats(),
    {
        TraceSessions { writer: None, started: 0, published: 0, stats: WriterStats::new() }
    }

    /// Begins a session: the result is its id. The embedder opens its file and reports
    /// that with [`TraceSessions::opened`].
    pub fn start_trace_writer(&mut self) -> (result: Result<u64, String>)
        requires
            old(self).wf(),
            old(self).started < u64::MAX,
        ensures
            final(self).wf(),
            final(self).writer == old(self).writer,
            final(self).published == old(self).published,
            old(self).writer is Some ==> {
                &&& result matches Err(message)
                &&& message@ == "trace session already active"@
                &&& *final(self) == *old(self)
            },
            old(self).writer is None ==> {
                &&& result == Ok::<u64, String>((old(self).started + 1) as u64)
                &&& final(self).started == old(self).started + 1
                &&& final(self).stats == zero_stats()
            },
    {
        if self.writer.is_some() {
            return Err(String::from_str("trace session already active"));
        }
        self.started = self.started + 1;
        self.stats = WriterStats::new();
        Ok(self.started)
    }

    /// Takes in that the file of a session has been opened.
    pub fn opened(&mut self, base: &str, session_id: u64)
        requires
            old(self).wf(),
            session_id <= old(self).started,
        ensures
            final(self).wf(),
            final(self).started == old(self).started,
            final(self).published == old(self).published,
            final(self).stats == old(self).stats,
            final(self).writer matches Some(writer) && writer.session_id == session_id
                && writer.base@ == base@ && writer.tmp_path@ == tmp_path_text(base@, session_id),
    {
        self.writer = Some(
            TraceWriter {
                session_id,
                base: String::from_str(base),
                tmp_path: merged_bundle_tmp_path(base, session_id),
            },
        );
    }

    /// Ends the session that is being written, if there is one.
    pub fn finalize_trace_session(&mut self) -> (writer: Option<TraceWriter>)
        requires
            old(self).wf(),
        ensures
            final(self).wf(),
            writer == old(self).writer,
            final(self).writer is None,
            final(self).started == old(self).started,
            final(self).published == old(self).published,
            final(self).stats == old(self).stats,
    {
        self.writer.take()
    }

    /// How a finished session is published.
    pub fn publish_bundle(&self, session_id: u64) -> (step: PublishStep)
        ensures
            step == if session_id < self.published {
                PublishStep::Discard
            } else {
                PublishStep::Rename
            },
    {
        if session_id < self.published {
            PublishStep::Discard
        } else {
            PublishStep::Rename
        }
    }

    /// Takes in that a session has been put in place. The published session never becomes
    /// an earlier one.
    pub fn published(&mut self, session_id: u64)
        requires
            old(self).wf(),
            old(self).published <= session_id <= old(self).started,
        ensures
            final(self).wf(),
            final(self).published == session_id,
            final(self).published >= old(self).published,
            final(self).writer == old(self).writer,
            final(self).started == old(self).started,
            final(self).stats == old(self).stats,
    {
        self.published = session_id;
    }
}

/// A chunk is counted once: as submitted if it was written, else as dropped with its bytes,
/// and apart for dynamic code. The largest chunk is remembered; an empty one does not count.
pub proof fn chunks_are_counted_once(
    stats: WriterStats,
    length: u64,
    dynamic: bool,
    outcome: ChunkOutcome,
)
    requires
        stats.chunks_submitted < u64::MAX,
        stats.chunks_dropped < u64::MAX,
        stats.dynamic_chunks_submitted < u64::MAX,
        stats.dynamic_chunks_dropped < u64::MAX,
        stats.bytes_dropped + length <= u64::MAX,
        stats.dynamic_bytes_dropped + length <= u64::MAX,
    ensures
        ({
            let after = after_chunk(stats, length, dynamic, outcome);
            let counts = length > 0;
            let written = outcome is Written;
            &&& after.chunks_submitted - stats.chunks_submitted == if counts && written && !dynamic {
                1int
            } else {
                0
            }
            &&& after.dynamic_chunks_submitted - stats.dynamic_chunks_submitted == if counts
                && written && dynamic {
                1int
            } else {
                0
            }
            &&& after.chunks_dropped - stats.chunks_dropped == if counts && !written && !dynamic {
                1int
            } else {
                0
            }
            &&& after.dynamic_chunks_dropped - stats.dynamic_chunks_dropped == if counts && !written
                && dynamic {
                1int
            } else {
                0
            }
            &&& after.bytes_dropped - stats.bytes_dropped == if !written && !dynamic {
                length as int
            } else {
                0
            }
            &&& after.dynamic_bytes_dropped - stats.dynamic_bytes_dropped == if !written && dynamic {
                length as int
            } else {
                0
            }
            &&& after.max_chunk_bytes >= stats.max_chunk_bytes && after.max_chunk_bytes >= length
            &&& after.max_chunk_bytes == stats.max_chunk_bytes || after.max_chunk_bytes == length
            &&& after.event_count == stats.event_count && after.raw_bytes == stats.raw_bytes
        }),
{
}

/// Counters wrap around at two to the sixty-fourth.
pub proof fn counters_wrap_around(left: u64, right: u64)
    ensures
        left + right < 0x1_0000_0000_0000_0000 ==> wrapped_sum(left, right) == left + right,
        left + right >= 0x1_0000_0000_0000_0000 ==> wrapped_sum(left, right) == left + right
            - 0x1_0000_0000_0000_0000,
{
}

/// No event is lost or doubled: what is submitted and what waits afterwards are what waited
/// before and the event. An event of dynamic code, and one that is too long for a chunk,
/// goes out by itself.
pub proof fn events_are_sent_or_wait(
    before: Seq<u8>,
    chunk_size: nat,
    event: Seq<u8>,
    dynamic: bool,
    after: Seq<u8>,
    submissions: Seq<Submission>,
)
    requires
        before.len() <= chunk_size,
        sent(before, chunk_size, event, dynamic, after, submissions),
    ensures
        payload_bytes(submissions).len() + after.len() == before.len() + event.len(),
        dynamic || event.len() > chunk_size ==> submissions.len() > 0 && submissions.last().payload@
            == event && submissions.last().dynamic == dynamic,
        !dynamic && event.len() <= chunk_size ==> after.len() >= event.len() && after.skip(
            after.len() - event.len(),
        ) == event,
        after.len() <= chunk_size,
        before.len() + event.len() <= chunk_size && !dynamic ==> submissions.len() == 0 && after
            == before + event,
{
    reveal_with_fuel(payload_bytes, 3);
    if submissions.len() > 0 {
        assert(submissions.drop_last().len() == submissions.len() - 1);
        if submissions.len() == 2 {
            assert(submissions.drop_last()[0] == submissions[0]);
            assert(submissions.drop_last().last() == submissions[0]);
        }
    }
    if !dynamic && event.len() <= chunk_size {
        assert(after.skip(after.len() - event.len()) =~= event);
    }
}

/// A session is written next to where it is published, under its own number.
pub proof fn sessions_are_written_under_their_number(base: Seq<char>, session_id: u64) -> (number:
    Seq<char>)
    ensures
        final_path_text(base) == base + "/trace_bundle.pb"@,
        tmp_path_text(base, session_id) == base + "/trace_bundle.pb"@ + ".s"@ + number + ".tmp"@,
        crate::text::spells(number, session_id as nat, 10, 1),
{
    reveal_strlit("/trace_bundle.pb");
    reveal_strlit("/trace_bundle.pb.s");
    reveal_strlit(".s");
    crate::text::numerals_spell_their_values(session_id as nat, 10, 1);
    assert("/trace_bundle.pb"@ + ".s"@ =~= "/trace_bundle.pb.s"@);
    assert(base + "/trace_bundle.pb"@ + ".s"@ =~= base + ("/trace_bundle.pb"@ + ".s"@));
    numeral(session_id as nat, 10)
}

} // verus!
