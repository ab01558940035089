//! Stalker events, their fixed-size records and the bounded queue of one thread.

use crate::bytes::{
    casts_keep_the_low_bits, le_bytes, le_bytes_read_back, le_value, lemma_byte_ranges, lemma_le_bytes_len, push_le,
};
use vstd::prelude::*;

verus! {

/// Size of one encoded event.
pub const EVENT_RECORD_SIZE: usize = 32;

/// The bits of an event mask that name an event.
pub const VALID_EVENT_MASK: u32 = 0x1f;

pub const EVENT_NOTHING: u32 = 0;

pub const EVENT_CALL: u32 = 1;

pub const EVENT_RET: u32 = 2;

pub const EVENT_EXEC: u32 = 4;

pub const EVENT_BLOCK: u32 = 8;

pub const EVENT_COMPILE: u32 = 16;

/// Nanoseconds in one millisecond.
pub const NANOS_PER_MILLI: u64 = 1_000_000;

/// The latest time at which a periodic drain can still be re-armed.
pub const LATEST_NOW: u64 = 0xfff0_0000_0000_0000;

/// An address of the instrumented process.
#[derive(Clone, Copy, Debug, PartialEq, Eq, Hash, Structural)]
pub struct NativePointer(pub u64);

/// A set of event kinds.
#[derive(Clone, Copy, Debug, PartialEq, Eq, Hash, Structural)]
pub struct EventMask(u32);

impl EventMask {
    /// The bits of the mask.
    pub closed spec fn view(&self) -> u32 {
        self.0
    }

    /// A mask has no bits but those that name an event.
    #[verifier::type_invariant]
    spec fn only_known_bits(self) -> bool {
        self.0 <= VALID_EVENT_MASK
    }

    /// The mask with the given bits; bits that name no event are dropped.
    pub closed spec fn of(bits: u32) -> EventMask {
        EventMask(bits & VALID_EVENT_MASK)
    }

    /// The mask with the given bits; bits that name no event are dropped.
    pub fn from_bits(bits: u32) -> (mask: EventMask)
        ensures
            mask == EventMask::of(bits),
            mask@ == bits & VALID_EVENT_MASK,
            mask@ <= VALID_EVENT_MASK,
            bits <= VALID_EVENT_MASK ==> mask@ == bits,
    {
        proof {
            unknown_bits_are_dropped(bits);
            assert(bits <= 0x1f ==> bits & 0x1f == bits) by (bit_vector);
        }
        EventMask(bits & VALID_EVENT_MASK)
    }

    /// The bits of the mask.
    pub fn bits(self) -> (bits: u32)
        ensures
            bits == self@,
            bits <= VALID_EVENT_MASK,
            EventMask::of(bits) == self,
    {
        proof {
            use_type_invariant(&self);
            masks_are_made_of_their_bits(self, self);
        }
        self.0
    }
}

/// A mask depends on the known bits alone: the others are dropped, and a mask that is made
/// from the bits of another one is that mask.
pub proof fn unknown_bits_are_dropped(bits: u32)
    ensures
        EventMask::of(bits)@ == bits & VALID_EVENT_MASK,
        EventMask::of(bits)@ <= VALID_EVENT_MASK,
        EventMask::of(bits & VALID_EVENT_MASK) == EventMask::of(bits),
        EventMask::of(EventMask::of(bits)@) == EventMask::of(bits),
{
    assert(bits & 0x1f <= 0x1f) by (bit_vector);
    assert((bits & 0x1f) & 0x1f == bits & 0x1f) by (bit_vector);
}

/// Masks with the same bits are the same mask.
pub proof fn masks_with_equal_bits_are_equal(left: EventMask, right: EventMask)
    requires
        left@ == right@,
    ensures
        left == right,
{
}

/// A mask is the one that is made from its bits, and the union of two masks has the bits of
/// both.
pub proof fn masks_are_made_of_their_bits(left: EventMask, right: EventMask)
    requires
        left@ <= VALID_EVENT_MASK,
        right@ <= VALID_EVENT_MASK,
    ensures
        EventMask::of(left@) == left,
        EventMask::of(left@ | right@)@ == left@ | right@,
        left@ | right@ <= VALID_EVENT_MASK,
{
    let a = left@;
    let b = right@;
    assert(a <= 0x1f ==> a & 0x1f == a) by (bit_vector);
    assert(a <= 0x1f && b <= 0x1f ==> (a | b) & 0x1f == (a | b) && (a | b) <= 0x1f)
        by (bit_vector);
}

impl core::ops::BitOr for EventMask {
    type Output = EventMask;

    /// The union of two masks.
    fn bitor(self, rhs: EventMask) -> (mask: EventMask)
        ensures
            mask@ == self@ | rhs@,
            mask@ <= VALID_EVENT_MASK,
    {
        proof {
            use_type_invariant(&self);
            use_type_invariant(&rhs);
            masks_are_made_of_their_bits(self, rhs);
        }
        EventMask::from_bits(self.bits() | rhs.bits())
    }
}

impl vstd::std_specs::ops::BitOrSpecImpl for EventMask {
    open spec fn obeys_bitor_spec() -> bool {
        true
    }

    open spec fn bitor_req(self, rhs: EventMask) -> bool {
        true
    }

    open spec fn bitor_spec(self, rhs: EventMask) -> EventMask {
        EventMask::of(self@ | rhs@)
    }
}

/// One event of a followed thread.
#[derive(Clone, Copy, Debug, PartialEq, Eq, Hash, Structural)]
pub enum Event {
    Call { location: NativePointer, target: NativePointer, depth: i32 },
    Ret { location: NativePointer, target: NativePointer, depth: i32 },
    Exec { location: NativePointer },
    Block { start: NativePointer, end: NativePointer },
    Compile { start: NativePointer, end: NativePointer },
}

/// The fields of an event as the tracing engine reports them: `first` is the
/// location or the start, `second` the target or the end.
#[derive(Clone, Copy, Debug, PartialEq, Eq, Structural)]
pub struct RawEvent {
    pub kind: u32,
    pub first: u64,
    pub second: u64,
    pub depth: i32,
}

/// Whether a kind names exactly one event.
pub open spec fn is_event_kind(kind: u32) -> bool {
    kind == EVENT_CALL || kind == EVENT_RET || kind == EVENT_EXEC || kind == EVENT_BLOCK || kind
        == EVENT_COMPILE
}

/// The fields of an event; those that it does not have are zero.
pub open spec fn event_fields(event: Event) -> RawEvent {
    match event {
        Event::Call { location, target, depth } => RawEvent {
            kind: EVENT_CALL,
            first: location.0,
            second: target.0,
            depth,
        },
        Event::Ret { location, target, depth } => RawEvent {
            kind: EVENT_RET,
            first: location.0,
            second: target.0,
            depth,
        },
        Event::Exec { location } => RawEvent {
            kind: EVENT_EXEC,
            first: location.0,
            second: 0,
            depth: 0,
        },
        Event::Block { start, end } => RawEvent {
            kind: EVENT_BLOCK,
            first: start.0,
            second: end.0,
            depth: 0,
        },
        Event::Compile { start, end } => RawEvent {
            kind: EVENT_COMPILE,
            first: start.0,
            second: end.0,
            depth: 0,
        },
    }
}

impl Event {
    /// The event that the tracing engine reported. It reports no other kinds than
    /// the five.
    pub fn from_raw(raw: RawEvent) -> (event: Event)
        requires
            is_event_kind(raw.kind),
        ensures
            event_fields(event).kind == raw.kind,
            event_fields(event).first == raw.first,
            raw.kind != EVENT_EXEC ==> event_fields(event).second == raw.second,
            raw.kind == EVENT_CALL || raw.kind == EVENT_RET ==> event_fields(event).depth
                == raw.depth,
    {
        let first: NativePointer = NativePointer(raw.first);
        let second: NativePointer = NativePointer(raw.second);
        if raw.kind == EVENT_CALL {
            Event::Call { location: first, target: second, depth: raw.depth }
        } else if raw.kind == EVENT_RET {
            Event::Ret { location: first, target: second, depth: raw.depth }
        } else if raw.kind == EVENT_EXEC {
            Event::Exec { location: first }
        } else if raw.kind == EVENT_BLOCK {
            Event::Block { start: first, end: second }
        } else {
            Event::Compile { start: first, end: second }
        }
    }
}

/// The record of an event: kind, padding, two addresses, depth, padding, each low
/// byte first.
pub open spec fn encoded_event(event: Event) -> Seq<u8> {
    let fields = event_fields(event);
    le_bytes(fields.kind as nat, 4) + le_bytes(0, 4) + le_bytes(fields.first as nat, 8) + le_bytes(
        fields.second as nat,
        8,
    ) + le_bytes(fields.depth as u32 as nat, 4) + le_bytes(0, 4)
}

/// Every record has the same size.
pub proof fn encoded_event_has_record_size(event: Event)
    ensures
        encoded_event(event).len() == EVENT_RECORD_SIZE,
{
    let fields = event_fields(event);
    lemma_le_bytes_len(fields.kind as nat, 4);
    lemma_le_bytes_len(0, 4);
    lemma_le_bytes_len(fields.first as nat, 8);
    lemma_le_bytes_len(fields.second as nat, 8);
    lemma_le_bytes_len(fields.depth as u32 as nat, 4);
}

/// The record of an event determines the event.
pub proof fn encoded_event_is_injective(left: Event, right: Event)
    requires
        encoded_event(left) == encoded_event(right),
    ensures
        left == right,
{
    let a = event_fields(left);
    let b = event_fields(right);
    let record = encoded_event(left);
    lemma_byte_ranges();
    le_bytes_read_back(a.kind as nat, 4);
    le_bytes_read_back(b.kind as nat, 4);
    le_bytes_read_back(0, 4);
    le_bytes_read_back(a.first as nat, 8);
    le_bytes_read_back(b.first as nat, 8);
    le_bytes_read_back(a.second as nat, 8);
    le_bytes_read_back(b.second as nat, 8);
    le_bytes_read_back(a.depth as u32 as nat, 4);
    le_bytes_read_back(b.depth as u32 as nat, 4);
    assert(record.subrange(0, 4) =~= le_bytes(a.kind as nat, 4));
    assert(record.subrange(0, 4) =~= le_bytes(b.kind as nat, 4));
    assert(record.subrange(8, 16) =~= le_bytes(a.first as nat, 8));
    assert(record.subrange(8, 16) =~= le_bytes(b.first as nat, 8));
    assert(record.subrange(16, 24) =~= le_bytes(a.second as nat, 8));
    assert(record.subrange(16, 24) =~= le_bytes(b.second as nat, 8));
    assert(record.subrange(24, 28) =~= le_bytes(a.depth as u32 as nat, 4));
    assert(record.subrange(24, 28) =~= le_bytes(b.depth as u32 as nat, 4));
    let x = a.depth;
    let y = b.depth;
    assert(x as u32 == y as u32 ==> x == y) by (bit_vector);
}

/// A record holds its event's fields at fixed places, each low byte first: the kind in
/// the bytes from 0 to 4, the location or the start in those from 8 to 16, the target or
/// the end in those from 16 to 24, and the depth in those from 24 to 28. Fields that an
/// event does not have, and the places between, are zero.
pub proof fn records_hold_their_fields(event: Event)
    ensures
        encoded_event(event).len() == 32,
        event matches Event::Call { location, target, depth } ==> {
            &&& le_value(encoded_event(event).subrange(0, 4)) == 1
            &&& le_value(encoded_event(event).subrange(8, 16)) == location.0
            &&& le_value(encoded_event(event).subrange(16, 24)) == target.0
            &&& le_value(encoded_event(event).subrange(24, 28)) == depth as int % 0x1_0000_0000
        },
        event matches Event::Ret { location, target, depth } ==> {
            &&& le_value(encoded_event(event).subrange(0, 4)) == 2
            &&& le_value(encoded_event(event).subrange(8, 16)) == location.0
            &&& le_value(encoded_event(event).subrange(16, 24)) == target.0
            &&& le_value(encoded_event(event).subrange(24, 28)) == depth as int % 0x1_0000_0000
        },
        event matches Event::Exec { location } ==> {
            &&& le_value(encoded_event(event).subrange(0, 4)) == 4
            &&& le_value(encoded_event(event).subrange(8, 16)) == location.0
            &&& le_value(encoded_event(event).subrange(16, 24)) == 0
            &&& le_value(encoded_event(event).subrange(24, 28)) == 0
        },
        event matches Event::Block { start, end } ==> {
            &&& le_value(encoded_event(event).subrange(0, 4)) == 8
            &&& le_value(encoded_event(event).subrange(8, 16)) == start.0
            &&& le_value(encoded_event(event).subrange(16, 24)) == end.0
            &&& le_value(encoded_event(event).subrange(24, 28)) == 0
        },
        event matches Event::Compile { start, end } ==> {
            &&& le_value(encoded_event(event).subrange(0, 4)) == 16
            &&& le_value(encoded_event(event).subrange(8, 16)) == start.0
            &&& le_value(encoded_event(event).subrange(16, 24)) == end.0
            &&& le_value(encoded_event(event).subrange(24, 28)) == 0
        },
        forall|i: int|
            4 <= i < 8 || 28 <= i < 32 ==> #[trigger] encoded_event(event)[i] == 0,
{
    let fields = event_fields(event);
    let record = encoded_event(event);
    lemma_byte_ranges();
    casts_keep_the_low_bits(0, fields.depth as i64);
    encoded_event_has_record_size(event);
    le_bytes_read_back(fields.kind as nat, 4);
    le_bytes_read_back(0, 4);
    le_bytes_read_back(fields.first as nat, 8);
    le_bytes_read_back(fields.second as nat, 8);
    le_bytes_read_back(fields.depth as u32 as nat, 4);
    assert(record.subrange(0, 4) =~= le_bytes(fields.kind as nat, 4));
    assert(record.subrange(8, 16) =~= le_bytes(fields.first as nat, 8));
    assert(record.subrange(16, 24) =~= le_bytes(fields.second as nat, 8));
    assert(record.subrange(24, 28) =~= le_bytes(fields.depth as u32 as nat, 4));
    reveal_with_fuel(le_bytes, 5);
    assert(le_bytes(0, 4) =~= seq![0u8, 0u8, 0u8, 0u8]);
    assert forall|i: int| 4 <= i < 8 || 28 <= i < 32 implies #[trigger] record[i] == 0 by {
        let at: int = if i < 8 {
            i - 4
        } else {
            i - 28
        };
        assert(record[i] == le_bytes(0, 4)[at]);
    }
}

/// Appends the record of an event.
pub fn encode_event(event: &Event, output: &mut Vec<u8>)
    ensures
        final(output)@ == old(output)@ + encoded_event(*event),
{
    let fields: RawEvent = match *event {
        Event::Call { location, target, depth } => RawEvent {
            kind: EVENT_CALL,
            first: location.0,
            second: target.0,
            depth,
        },
        Event::Ret { location, target, depth } => RawEvent {
            kind: EVENT_RET,
            first: location.0,
            second: target.0,
            depth,
        },
        Event::Exec { location } => RawEvent {
            kind: EVENT_EXEC,
            first: location.0,
            second: 0,
            depth: 0,
        },
        Event::Block { start, end } => RawEvent {
            kind: EVENT_BLOCK,
            first: start.0,
            second: end.0,
            depth: 0,
        },
        Event::Compile { start, end } => RawEvent {
            kind: EVENT_COMPILE,
            first: start.0,
            second: end.0,
            depth: 0,
        },
    };
    push_le(output, fields.kind as u64, 4);
    push_le(output, 0, 4);
    push_le(output, fields.first, 8);
    push_le(output, fields.second, 8);
    push_le(output, fields.depth as u32 as u64, 4);
    push_le(output, 0, 4);
    assert(output@ =~= old(output)@ + encoded_event(*event));
}

/// The events of one thread that were drained together.
#[derive(Debug)]
pub struct StalkerEventBatch {
    pub thread_id: u64,
    pub data: Vec<u8>,
}

/// What a queue holds: the records, how many bytes of them fit, and how many
/// events were discarded because it was full.
#[verifier::ext_equal]
pub struct QueueView {
    pub records: Seq<u8>,
    pub byte_limit: nat,
    pub dropped: nat,
}

/// A queue after one more event: it is stored if there is room for a record, and
/// counted as dropped otherwise.
pub open spec fn pushed(queue: QueueView, event: Event) -> QueueView {
    if queue.records.len() + EVENT_RECORD_SIZE <= queue.byte_limit {
        QueueView { records: queue.records + encoded_event(event), ..queue }
    } else if queue.dropped < u64::MAX {
        QueueView { dropped: queue.dropped + 1, ..queue }
    } else {
        queue
    }
}

/// A queue after a row of events.
pub open spec fn pushed_all(queue: QueueView, events: Seq<Event>) -> QueueView
    decreases events.len(),
{
    if events.len() == 0 {
        queue
    } else {
        pushed(pushed_all(queue, events.drop_last()), events.last())
    }
}

/// The records of a row of events.
pub open spec fn encoded_events(events: Seq<Event>) -> Seq<u8>
    decreases events.len(),
{
    if events.len() == 0 {
        Seq::empty()
    } else {
        encoded_events(events.drop_last()) + encoded_event(events.last())
    }
}

/// The records of `n` events fill `n` times the record size.
pub proof fn encoded_events_len(events: Seq<Event>)
    ensures
        encoded_events(events).len() == events.len() * EVENT_RECORD_SIZE,
    decreases events.len(),
{
    if events.len() > 0 {
        encoded_events_len(events.drop_last());
        encoded_event_has_record_size(events.last());
    }
}

/// A queue for `capacity` events that starts empty keeps the first `capacity`
/// events that are pushed and counts the others as dropped, however many come.
pub proof fn queue_keeps_the_first_events(capacity: nat, events: Seq<Event>)
    requires
        events.len() <= u64::MAX,
    ensures
        ({
            let kept = if events.len() <= capacity {
                events.len()
            } else {
                capacity
            };
            pushed_all(
                QueueView {
                    records: Seq::empty(),
                    byte_limit: capacity * EVENT_RECORD_SIZE as nat,
                    dropped: 0,
                },
                events,
            ) == QueueView {
                records: encoded_events(events.take(kept as int)),
                byte_limit: capacity * EVENT_RECORD_SIZE as nat,
                dropped: (events.len() - kept) as nat,
            }
        }),
    decreases events.len(),
{
    if events.len() == 0 {
        assert(events.take(0) =~= Seq::<Event>::empty());
    } else {
        let front = events.drop_last();
        queue_keeps_the_first_events(capacity, front);
        if events.len() <= capacity {
            assert(front.take(front.len() as int) =~= front);
            assert(events.take(events.len() as int) =~= events);
            encoded_events_len(front);
        } else {
            if front.len() <= capacity {
                assert(front.take(front.len() as int) =~= front);
                assert(front =~= events.take(capacity as int));
                encoded_events_len(front);
            } else {
                assert(front.take(capacity as int) =~= events.take(capacity as int));
                encoded_events_len(front.take(capacity as int));
            }
        }
    }
}

/// A bounded queue of event records. It never grows: a thread that outruns the
/// drain loses events, not the heap.
#[derive(Debug)]
pub struct EventQueue {
    pub current: Vec<u8>,
    pub byte_limit: usize,
    /// Events discarded because the queue was full. It only grows, so a full queue
    /// can be told from an idle one after a drain.
    pub dropped: u64,
}

impl EventQueue {
    pub open spec fn view(&self) -> QueueView {
        QueueView {
            records: self.current@,
            byte_limit: self.byte_limit as nat,
            dropped: self.dropped as nat,
        }
    }

    /// Whole records only, and no more of them than fit.
    pub open spec fn wf(&self) -> bool {
        &&& self.current@.len() % EVENT_RECORD_SIZE as nat == 0
        &&& self.current@.len() <= self.byte_limit
    }

    /// An empty queue for `capacity` events.
    pub fn with_capacity(capacity: usize) -> (queue: EventQueue)
        ensures
            queue.wf(),
            queue.current@ == Seq::<u8>::empty(),
            queue.dropped == 0,
            queue.byte_limit == record_bytes(capacity),
    {
        let byte_limit: usize = byte_capacity(capacity);
        EventQueue { current: Vec::with_capacity(byte_limit), byte_limit, dropped: 0 }
    }

    /// Stores one event if there is room, and counts it as dropped otherwise.
    pub fn push(&mut self, event: &Event)
        requires
            old(self).wf(),
        ensures
            final(self).wf(),
            final(self)@ == pushed(old(self)@, *event),
    {
        proof {
            encoded_event_has_record_size(*event);
        }
        if self.byte_limit - self.current.len() >= EVENT_RECORD_SIZE {
            encode_event(event, &mut self.current);
        } else {
            self.dropped = self.dropped.saturating_add(1);
        }
    }

    /// Takes the stored records out, as one batch if there are any, and goes on with
    /// `replacement`.
    pub fn drain(&mut self, thread_id: u64, replacement: Vec<u8>) -> (batches: Vec<
        StalkerEventBatch,
    >)
        requires
            old(self).wf(),
            replacement@.len() == 0,
        ensures
            final(self).wf(),
            final(self).current@ == replacement@,
            final(self).byte_limit == old(self).byte_limit,
            final(self).dropped == old(self).dropped,
            drained(thread_id, old(self).current@, batches@),
    {
        let mut data: Vec<u8> = replacement;
        core::mem::swap(&mut self.current, &mut data);
        let mut batches: Vec<StalkerEventBatch> = Vec::new();
        if data.len() != 0 {
            batches.push(StalkerEventBatch { thread_id, data });
        }
        batches
    }
}

/// Whether `batches` is what draining `records` of one thread yields: nothing for
/// an empty queue, one batch with all records otherwise.
pub open spec fn drained(thread_id: u64, records: Seq<u8>, batches: Seq<StalkerEventBatch>) -> bool {
    if records.len() == 0 {
        batches.len() == 0
    } else {
        &&& batches.len() == 1
        &&& batches[0].thread_id == thread_id
        &&& batches[0].data@ == records
    }
}

/// The bytes that `capacity` records take, as far as they can be counted.
pub open spec fn record_bytes(capacity: usize) -> usize {
    if capacity * EVENT_RECORD_SIZE <= usize::MAX {
        (capacity * EVENT_RECORD_SIZE) as usize
    } else {
        usize::MAX
    }
}

fn byte_capacity(capacity: usize) -> (bytes: usize)
    ensures
        bytes == record_bytes(capacity),
{
    match capacity.checked_mul(EVENT_RECORD_SIZE) {
        Some(bytes) => bytes,
        None => usize::MAX,
    }
}

/// A consumer of the events of one thread.
pub trait EventSink {
    /// Whether the sink is attached to a thread and may be called.
    spec fn attached(&self) -> bool;

    fn query_mask(&mut self) -> EventMask
        requires
            old(self).attached(),
    ;

    fn start(&mut self)
        requires
            old(self).attached(),
    ;

    fn process(&mut self, event: &Event)
        requires
            old(self).attached(),
    ;

    fn flush(&mut self)
        requires
            old(self).attached(),
    ;

    fn stop(&mut self)
        requires
            old(self).attached(),
    ;
}

/// The sink of a thread that is followed without a sink. It is never attached.
#[derive(Clone, Copy, Debug, PartialEq, Eq, Structural)]
pub struct NoneEventSink;

impl EventSink for NoneEventSink {
    open spec fn attached(&self) -> bool {
        false
    }

    fn query_mask(&mut self) -> EventMask {
        EventMask::from_bits(EVENT_NOTHING)
    }

    fn start(&mut self) {
    }

    fn process(&mut self, event: &Event) {
    }

    fn flush(&mut self) {
    }

    fn stop(&mut self) {
    }
}

/// How a thread is to be followed.
#[derive(Clone, Copy, Debug, PartialEq, Eq, Structural)]
pub struct StalkerFollowConfig {
    pub thread_id: u64,
    pub event_mask: u32,
    pub queue_capacity: u32,
    /// Milliseconds between periodic drains; zero for none.
    pub queue_drain_interval: u32,
    pub transform: bool,
    pub context: u64,
    pub native_event_callback: u64,
    pub native_event_data: u64,
    pub defer_current_thread: bool,
}

/// The state of one trace's queue.
#[derive(Clone, Copy, Debug, PartialEq, Eq, Structural)]
pub struct StalkerTraceStatistics {
    pub thread_id: u64,
    pub queue_capacity: u64,
    pub queued_events: u64,
    pub dropped_events: u64,
}

/// The queue of one followed thread and when it is drained. Times are nanoseconds
/// on one clock.
#[derive(Debug)]
pub struct TraceBuffer {
    pub thread_id: u64,
    pub event_mask: EventMask,
    pub capacity: usize,
    pub drain_interval: Option<u64>,
    pub next_drain: Option<u64>,
    pub queue: EventQueue,
}

/// The nanoseconds between drains for an interval in milliseconds.
pub open spec fn interval_nanos(millis: u32) -> Option<u64> {
    if millis == 0 {
        None
    } else {
        Some((millis * NANOS_PER_MILLI) as u64)
    }
}

impl TraceBuffer {
    /// A trace is re-armed exactly if it is drained periodically, and the interval
    /// is one that was given in milliseconds.
    pub open spec fn wf(&self) -> bool {
        &&& self.queue.wf()
        &&& self.drain_interval is Some <==> self.next_drain is Some
        &&& self.drain_interval matches Some(interval) ==> interval <= u32::MAX * NANOS_PER_MILLI
        &&& self.event_mask@ <= VALID_EVENT_MASK
    }

    /// Whether only the queue differs.
    pub open spec fn same_trace(&self, other: &TraceBuffer) -> bool {
        &&& self.thread_id == other.thread_id
        &&& self.event_mask == other.event_mask
        &&& self.capacity == other.capacity
        &&& self.drain_interval == other.drain_interval
    }

    /// An empty buffer; the first periodic drain is due one interval after `now`.
    pub fn new_at(config: StalkerFollowConfig, now: u64) -> (buffer: TraceBuffer)
        requires
            now <= LATEST_NOW,
        ensures
            buffer.wf(),
            buffer.thread_id == config.thread_id,
            buffer.event_mask@ == config.event_mask & VALID_EVENT_MASK,
            buffer.capacity == config.queue_capacity as usize,
            buffer.drain_interval == interval_nanos(config.queue_drain_interval),
            buffer.next_drain == match interval_nanos(config.queue_drain_interval) {
                Some(interval) => Some((now + interval) as u64),
                None => None,
            },
            buffer.queue.current@ == Seq::<u8>::empty(),
            buffer.queue.dropped == 0,
            buffer.queue.byte_limit == record_bytes(config.queue_capacity as usize),
    {
        let capacity: usize = config.queue_capacity as usize;
        let drain_interval: Option<u64> = if config.queue_drain_interval != 0 {
            Some(config.queue_drain_interval as u64 * NANOS_PER_MILLI)
        } else {
            None
        };
        let next_drain: Option<u64> = match drain_interval {
            Some(interval) => Some(now + interval),
            None => None,
        };
        TraceBuffer {
            thread_id: config.thread_id,
            event_mask: EventMask::from_bits(config.event_mask),
            capacity,
            drain_interval,
            next_drain,
            queue: EventQueue::with_capacity(capacity),
        }
    }

    /// Takes all records out.
    pub fn drain(&mut self) -> (batches: Vec<StalkerEventBatch>)
        requires
            old(self).wf(),
        ensures
            final(self).wf(),
            final(self).same_trace(old(self)),
            final(self).next_drain == old(self).next_drain,
            final(self).queue.current@ == Seq::<u8>::empty(),
            final(self).queue.byte_limit == old(self).queue.byte_limit,
            final(self).queue.dropped == old(self).queue.dropped,
            drained(old(self).thread_id, old(self).queue.current@, batches@),
    {
        let replacement: Vec<u8> = Vec::with_capacity(byte_capacity(self.capacity));
        self.queue.drain(self.thread_id, replacement)
    }

    /// How long until the next periodic drain is due, if there is one.
    pub fn time_until_drain(&self, now: u64) -> (remaining: Option<u64>)
        ensures
            remaining == match self.next_drain {
                None => None,
                Some(deadline) => Some(
                    if deadline > now {
                        (deadline - now) as u64
                    } else {
                        0u64
                    },
                ),
            },
    {
        match self.next_drain {
            None => None,
            Some(deadline) => Some(deadline.saturating_sub(now)),
        }
    }

    /// The state of the queue.
    pub fn statistics(&self) -> (statistics: StalkerTraceStatistics)
        ensures
            statistics.thread_id == self.thread_id,
            statistics.queue_capacity == self.capacity,
            statistics.queued_events == self.queue.current@.len() / EVENT_RECORD_SIZE as nat,
            statistics.dropped_events == self.queue.dropped,
    {
        StalkerTraceStatistics {
            thread_id: self.thread_id,
            queue_capacity: self.capacity as u64,
            queued_events: (self.queue.current.len() / EVENT_RECORD_SIZE) as u64,
            dropped_events: self.queue.dropped,
        }
    }

    /// Whether a periodic drain is due.
    pub open spec fn is_due(&self, now: u64) -> bool {
        self.drain_interval is Some && self.next_drain is Some && self.next_drain->0 <= now
    }

    /// Drains if that is due, and sets the next drain one interval after `now`.
    pub fn drain_if_due(&mut self, now: u64) -> (batches: Vec<StalkerEventBatch>)
        requires
            old(self).wf(),
            now <= LATEST_NOW,
        ensures
            final(self).wf(),
            final(self).same_trace(old(self)),
            final(self).queue.dropped == old(self).queue.dropped,
            final(self).queue.byte_limit == old(self).queue.byte_limit,
            !old(self).is_due(now) ==> *final(self) == *old(self) && batches@.len() == 0,
            old(self).is_due(now) ==> {
                &&& final(self).next_drain == Some((now + old(self).drain_interval->0) as u64)
                &&& final(self).queue.current@ == Seq::<u8>::empty()
                &&& drained(old(self).thread_id, old(self).queue.current@, batches@)
            },
    {
        match self.drain_interval {
            None => Vec::new(),
            Some(interval) => match self.next_drain {
                None => Vec::new(),
                Some(deadline) => {
                    if deadline > now {
                        return Vec::new();
                    }
                    self.next_drain = Some(now + interval);
                    self.drain()
                },
            },
        }
    }
}

/// The sink of a followed thread: it fills the thread's buffer.
#[derive(Debug)]
pub struct TraceSink {
    pub buffer: TraceBuffer,
}

impl EventSink for TraceSink {
    open spec fn attached(&self) -> bool {
        self.buffer.wf()
    }

    fn query_mask(&mut self) -> (mask: EventMask)
        ensures
            mask == old(self).buffer.event_mask,
            *final(self) == *old(self),
    {
        self.buffer.event_mask
    }

    fn start(&mut self)
        ensures
            *final(self) == *old(self),
    {
    }

    fn process(&mut self, event: &Event)
        ensures
            final(self).attached(),
            final(self).buffer.same_trace(&old(self).buffer),
            final(self).buffer.next_drain == old(self).buffer.next_drain,
            final(self).buffer.queue@ == pushed(old(self).buffer.queue@, *event),
    {
        self.buffer.queue.push(event);
    }

    fn flush(&mut self)
        ensures
            *final(self) == *old(self),
    {
    }

    fn stop(&mut self)
        ensures
            *final(self) == *old(self),
    {
    }
}

/// An interval is given in milliseconds and kept in nanoseconds; zero stands for none. The
/// bytes of a queue are 32 for each event of its capacity, as far as they can be counted.
pub proof fn intervals_and_capacities_are_counted(millis: u32, capacity: usize)
    ensures
        interval_nanos(millis) is None <==> millis == 0,
        millis > 0 ==> interval_nanos(millis)->0 == 1_000_000 * millis,
        32 * capacity <= usize::MAX ==> record_bytes(capacity) == 32 * capacity,
        32 * capacity > usize::MAX ==> record_bytes(capacity) == usize::MAX,
{
}

/// The mask of all events has the bits of the five kinds, and no others.
pub proof fn masks_have_the_kinds_of_events(kind: u32)
    ensures
        is_event_kind(kind) <==> kind == 1 || kind == 2 || kind == 4 || kind == 8 || kind == 16,
        VALID_EVENT_MASK == 1 + 2 + 4 + 8 + 16,
        is_event_kind(kind) ==> EventMask::of(kind)@ == kind,
{
    assert(kind <= 0x1f ==> kind & 0x1f == kind) by (bit_vector);
}

/// Draining a queue yields its records as one batch of its thread, and nothing if it is
/// empty.
pub proof fn drains_yield_one_batch(
    thread_id: u64,
    records: Seq<u8>,
    batches: Seq<StalkerEventBatch>,
)
    requires
        drained(thread_id, records, batches),
    ensures
        records.len() == 0 ==> batches.len() == 0,
        records.len() > 0 ==> batches.len() == 1 && batches[0].thread_id == thread_id
            && batches[0].data@ == records,
{
}

} // verus!
