//! What scripts are told of the process: its modules, ranges of memory and threads.

use crate::modules::ModuleDetails;
use crate::script::{internal_error, type_error, ErrorKind, ScriptError};
use crate::sorting::{stable_sort, stable_sorted, SortKey};
use crate::text::{
    begins_with, chars_of, digits_are_read_as_usual, has_front, is_trimmed, line_views, lines,
    lines_of, numbers_are_read_back, numeral, numeral_reads_back, optional_text, parse_u64,
    parsed_u64, same_text, text_of, trim, trimmed, trimming_is_unique,
};
use vstd::prelude::*;
use vstd::slice::slice_subrange;
use vstd::string::*;

verus! {

/// A range of memory as scripts see it.
#[derive(Debug, PartialEq, Eq)]
pub struct ProcessRangeRecord {
    pub base: u64,
    pub size: u64,
    pub protection: String,
    pub path: Option<String>,
}

/// What a contract says of a range of memory.
pub ghost struct RangeView {
    pub base: u64,
    pub size: u64,
    pub protection: Seq<char>,
    pub path: Option<Seq<char>>,
}

impl ProcessRangeRecord {
    pub open spec fn view(&self) -> RangeView {
        RangeView {
            base: self.base,
            size: self.size,
            protection: self.protection@,
            path: optional_text(self.path),
        }
    }
}

/// A line of the process's memory map.
#[derive(Debug)]
pub struct MapEntry {
    pub start: u64,
    pub end: u64,
    pub perms: String,
    pub path: Option<String>,
    /// Whether the permissions pass the filter that a script gave; so without a filter.
    pub wanted: bool,
}

/// How many bytes a character takes in UTF-8.
pub open spec fn utf8_width(c: char) -> nat {
    if (c as u32) < 0x80 {
        1
    } else if (c as u32) < 0x800 {
        2
    } else if (c as u32) < 0x1_0000 {
        3
    } else {
        4
    }
}

/// How many bytes a text takes in UTF-8.
pub open spec fn utf8_size(text: Seq<char>) -> nat
    decreases text.len(),
{
    if text.len() == 0 {
        0
    } else {
        utf8_size(text.drop_last()) + utf8_width(text.last())
    }
}

/// Whether the front of `count` characters takes three bytes.
pub open spec fn three_bytes(perms: Seq<char>, count: int) -> bool {
    0 <= count <= perms.len() && utf8_size(perms.take(count)) == 3
}

/// The first three bytes of the permissions, if there are as many.
pub open spec fn map_protection(perms: Seq<char>) -> Option<Seq<char>> {
    if utf8_size(perms) < 3 {
        None
    } else {
        Some(perms.take(choose|count: int| three_bytes(perms, count)))
    }
}

/// Whether no character lies across the end of the third byte.
pub open spec fn splits_at_three(perms: Seq<char>) -> bool {
    utf8_size(perms) < 3 || exists|count: int| three_bytes(perms, count)
}

proof fn lemma_utf8_size_grows(text: Seq<char>, left: int, right: int)
    requires
        0 <= left <= right <= text.len(),
    ensures
        utf8_size(text.take(left)) + (right - left) <= utf8_size(text.take(right)),
    decreases right - left,
{
    if left < right {
        lemma_utf8_size_grows(text, left, right - 1);
        assert(text.take(right).drop_last() =~= text.take(right - 1));
    }
}

/// The first three bytes of the permissions: reading, writing and execution.
pub fn normalize_map_protection(perms: &str) -> (protection: Option<String>)
    requires
        splits_at_three(perms@),
    ensures
        optional_text(protection) == map_protection(perms@),
{
    let chars: Vec<char> = chars_of(perms);
    let mut size: usize = 0;
    let mut count: usize = 0;
    assert(perms@.take(0) =~= seq![]);
    while count < chars.len() && size < 3
        invariant
            count <= chars@.len(),
            chars@ == perms@,
            size == utf8_size(perms@.take(count as int)),
            size <= 6,
            count > 0 ==> utf8_size(perms@.take(count - 1)) < 3,
        decreases chars@.len() - count,
    {
        let code: u32 = chars[count] as u32;
        let width: usize = if code < 0x80 {
            1
        } else if code < 0x800 {
            2
        } else if code < 0x1_0000 {
            3
        } else {
            4
        };
        assert(perms@.take(count + 1).drop_last() =~= perms@.take(count as int));
        size = size + width;
        count = count + 1;
    }
    assert(perms@.take(perms@.len() as int) =~= perms@);
    if size < 3 {
        return None;
    }
    proof {
        lemma_utf8_size_grows(perms@, count as int, perms@.len() as int);
        let right = choose|c: int| three_bytes(perms@, c);
        assert(three_bytes(perms@, right));
        if right < count {
            lemma_utf8_size_grows(perms@, right, count - 1);
        }
        if right > count {
            lemma_utf8_size_grows(perms@, count as int, right);
        }
    }
    let front: &[char] = slice_subrange(chars.as_slice(), 0, count);
    let text: String = text_of(front);
    assert(text@ =~= perms@.take(count as int));
    Some(text)
}

/// The range of a line of the map, if it has one.
pub open spec fn range_of(entry: MapEntry) -> Option<RangeView> {
    match map_protection(entry.perms@) {
        Some(protection) => Some(
            RangeView {
                base: entry.start,
                size: if entry.start <= entry.end {
                    (entry.end - entry.start) as u64
                } else {
                    0
                },
                protection,
                path: optional_text(entry.path),
            },
        ),
        None => None,
    }
}

/// Whether a range goes on where another one ends, with the same protection and file.
pub open spec fn continues(last: RangeView, next: RangeView) -> bool {
    &&& last.base + last.size == next.base
    &&& last.protection == next.protection
    &&& last.path == next.path
}

/// The ranges that a script wants; those that continue one another are one range if it asks
/// for that.
pub open spec fn process_ranges(entries: Seq<MapEntry>, coalesce: bool) -> Seq<RangeView>
    decreases entries.len(),
{
    if entries.len() == 0 {
        seq![]
    } else {
        let front = process_ranges(entries.drop_last(), coalesce);
        let entry = entries.last();
        match range_of(entry) {
            Some(next) => if !entry.wanted {
                front
            } else if coalesce && front.len() > 0 && continues(front.last(), next) {
                front.drop_last().push(
                    RangeView {
                        size: (front.last().size + next.size) as u64,
                        ..front.last()
                    },
                )
            } else {
                front.push(next)
            },
            None => front,
        }
    }
}

/// Ranges by their views.
pub open spec fn range_views(ranges: Seq<ProcessRangeRecord>) -> Seq<RangeView> {
    Seq::new(ranges.len(), |i: int| ranges[i]@)
}

/// Whether the permissions of every line can be cut behind their third byte.
pub open spec fn splittable(entries: Seq<MapEntry>) -> bool {
    forall|i: int| 0 <= i < entries.len() ==> splits_at_three((#[trigger] entries[i]).perms@)
}

fn same_optional(left: &Option<String>, right: &Option<String>) -> (same: bool)
    ensures
        same == (optional_text(*left) == optional_text(*right)),
{
    match (left, right) {
        (Some(left), Some(right)) => same_text(left.as_str(), right.as_str()),
        (None, None) => true,
        _ => false,
    }
}

fn copy_optional(text: &Option<String>) -> (copy: Option<String>)
    ensures
        copy == *text,
{
    match text {
        Some(text) => Some(text.clone()),
        None => None,
    }
}

fn record_of(entry: &MapEntry) -> (record: Option<ProcessRangeRecord>)
    requires
        splits_at_three(entry.perms@),
    ensures
        record is Some <==> range_of(*entry) is Some,
        record matches Some(r) ==> Some(r@) == range_of(*entry),
{
    match normalize_map_protection(entry.perms.as_str()) {
        Some(protection) => Some(
            ProcessRangeRecord {
                base: entry.start,
                size: entry.end.saturating_sub(entry.start),
                protection,
                path: copy_optional(&entry.path),
            },
        ),
        None => None,
    }
}

/// The ranges that a script wants, from the process's memory map.
pub fn collect_process_ranges(entries: &Vec<MapEntry>, coalesce: bool) -> (ranges: Vec<
    ProcessRangeRecord,
>)
    requires
        splittable(entries@),
    ensures
        range_views(ranges@) == process_ranges(entries@, coalesce),
{
    let mut ranges: Vec<ProcessRangeRecord> = Vec::new();
    let mut i: usize = 0;
    assert(entries@.take(0) =~= seq![]);
    assert(range_views(ranges@) =~= seq![]);
    while i < entries.len()
        invariant
            i <= entries@.len(),
            splittable(entries@),
            range_views(ranges@) == process_ranges(entries@.take(i as int), coalesce),
            forall|k: int|
                0 <= k < ranges@.len() ==> (#[trigger] ranges@[k]).base + ranges@[k].size
                    <= u64::MAX,
        decreases entries@.len() - i,
    {
        assert(entries@.take(i + 1).drop_last() =~= entries@.take(i as int));
        let ghost front = range_views(ranges@);
        let ghost before = ranges@;
        assert(splits_at_three(entries@[i as int].perms@));
        match record_of(&entries[i]) {
            Some(record) => {
                if entries[i].wanted {
                    let count: usize = ranges.len();
                    if coalesce && count > 0 {
                        let last: usize = count - 1;
                        assert(front.last() == ranges@[last as int]@);
                        if ranges[last].base + ranges[last].size == record.base && same_text(
                            ranges[last].protection.as_str(),
                            record.protection.as_str(),
                        ) && same_optional(&ranges[last].path, &record.path) {
                            let size: u64 = ranges[last].size + record.size;
                            ranges[last].size = size;
                            assert(range_views(ranges@) =~= front.drop_last().push(
                                RangeView { size, ..front.last() },
                            ));
                        } else {
                            ranges.push(record);
                            assert(range_views(ranges@) =~= front.push(record@));
                        }
                    } else {
                        ranges.push(record);
                        assert(range_views(ranges@) =~= front.push(record@));
                    }
                }
            },
            None => {},
        }
        i = i + 1;
    }
    assert(entries@.take(entries@.len() as int) =~= entries@);
    ranges
}

/// Whether a line of the map holds an address.
pub open spec fn entry_holds(entry: MapEntry, address: int) -> bool {
    entry.start <= address < entry.end
}

/// Whether one of the ranges holds an address.
pub open spec fn ranges_hold(ranges: Seq<RangeView>, address: int) -> bool {
    exists|i: int|
        0 <= i < ranges.len() && (#[trigger] ranges[i]).base <= address < ranges[i].base
            + ranges[i].size
}

/// Whether one of the wanted lines holds an address.
pub open spec fn entries_hold(entries: Seq<MapEntry>, address: int) -> bool {
    exists|i: int|
        0 <= i < entries.len() && (#[trigger] entries[i]).wanted && range_of(entries[i]) is Some
            && entry_holds(entries[i], address)
}

/// The ranges cover the same memory as the lines that a script wants, whether they are
/// joined or not.
pub proof fn ranges_cover_the_wanted_memory(entries: Seq<MapEntry>, coalesce: bool, address: int)
    ensures
        ranges_hold(process_ranges(entries, coalesce), address) <==> entries_hold(
            entries,
            address,
        ),
        forall|i: int|
            0 <= i < process_ranges(entries, coalesce).len() ==> (#[trigger] process_ranges(
                entries,
                coalesce,
            )[i]).base + process_ranges(entries, coalesce)[i].size <= u64::MAX,
    decreases entries.len(),
{
    if entries.len() > 0 {
        let before = entries.drop_last();
        let front = process_ranges(before, coalesce);
        let entry = entries.last();
        let ranges = process_ranges(entries, coalesce);
        ranges_cover_the_wanted_memory(before, coalesce, address);
        if entries_hold(before, address) {
            let i = choose|i: int|
                0 <= i < before.len() && (#[trigger] before[i]).wanted && range_of(before[i])
                    is Some && entry_holds(before[i], address);
            assert(entries[i].wanted && range_of(entries[i]) is Some && entry_holds(
                entries[i],
                address,
            ));
        }
        if entries_hold(entries, address) {
            let i = choose|i: int|
                0 <= i < entries.len() && (#[trigger] entries[i]).wanted && range_of(entries[i])
                    is Some && entry_holds(entries[i], address);
            if i < before.len() {
                assert(before[i].wanted && range_of(before[i]) is Some && entry_holds(
                    before[i],
                    address,
                ));
            }
        }
        let last_holds = entry.wanted && range_of(entry) is Some && entry_holds(entry, address);
        if last_holds {
            assert(entries[entries.len() - 1].wanted && entry_holds(
                entries[entries.len() - 1],
                address,
            ));
        }
        assert(entries_hold(entries, address) <==> entries_hold(before, address) || last_holds);
        assert(ranges_hold(ranges, address) <==> ranges_hold(front, address) || last_holds) by {
            if entry.wanted && range_of(entry) is Some {
                let next = range_of(entry)->0;
                let end = front.len() - 1;
                if coalesce && front.len() > 0 && continues(front.last(), next) {
                    let joined = RangeView {
                        size: (front.last().size + next.size) as u64,
                        ..front.last()
                    };
                    assert(ranges == front.drop_last().push(joined));
                    assert(ranges[end] == joined);
                    assert(front[end].base + front[end].size <= u64::MAX);
                    if ranges_hold(ranges, address) {
                        let i = choose|i: int|
                            0 <= i < ranges.len() && (#[trigger] ranges[i]).base <= address
                                < ranges[i].base + ranges[i].size;
                        if i < end {
                            assert(front[i] == ranges[i]);
                        } else if address < front[end].base + front[end].size {
                            assert(front[end].base <= address);
                        }
                    }
                    if ranges_hold(front, address) {
                        let i = choose|i: int|
                            0 <= i < front.len() && (#[trigger] front[i]).base <= address
                                < front[i].base + front[i].size;
                        if i < end {
                            assert(front[i] == ranges[i]);
                        }
                        assert(ranges[i].base <= address < ranges[i].base + ranges[i].size);
                    }
                    if last_holds {
                        assert(ranges[end].base <= address < ranges[end].base + ranges[end].size);
                    }
                } else {
                    assert(ranges == front.push(next));
                    assert(ranges[front.len() as int] == next);
                    if ranges_hold(ranges, address) {
                        let i = choose|i: int|
                            0 <= i < ranges.len() && (#[trigger] ranges[i]).base <= address
                                < ranges[i].base + ranges[i].size;
                        if i < front.len() {
                            assert(front[i] == ranges[i]);
                        }
                    }
                    if ranges_hold(front, address) {
                        let i = choose|i: int|
                            0 <= i < front.len() && (#[trigger] front[i]).base <= address
                                < front[i].base + front[i].size;
                        assert(front[i] == ranges[i]);
                    }
                }
            }
        }
        assert forall|i: int| 0 <= i < ranges.len() implies (#[trigger] ranges[i]).base
            + ranges[i].size <= u64::MAX by {
            if i < front.len() {
                assert(front[i].base + front[i].size <= u64::MAX);
            }
        }
    }
}

/// Every address of a reported range lies in a wanted line of the map that has the
/// protection and the path of the range.
pub proof fn ranges_lie_in_lines_like_them(
    entries: Seq<MapEntry>,
    coalesce: bool,
    at: int,
    address: int,
)
    requires
        0 <= at < process_ranges(entries, coalesce).len(),
        process_ranges(entries, coalesce)[at].base <= address,
        address < process_ranges(entries, coalesce)[at].base + process_ranges(
            entries,
            coalesce,
        )[at].size,
    ensures
        exists|k: int|
            {
                &&& 0 <= k < entries.len()
                &&& (#[trigger] entries[k]).wanted
                &&& entries[k].start <= address < entries[k].end
                &&& map_protection(entries[k].perms@) == Some(
                    process_ranges(entries, coalesce)[at].protection,
                )
                &&& entries[k].path is Some <==> process_ranges(entries, coalesce)[at].path is Some
                &&& entries[k].path is Some ==> entries[k].path->0@ == process_ranges(
                    entries,
                    coalesce,
                )[at].path->0
            },
    decreases entries.len(),
{
    let before = entries.drop_last();
    let front = process_ranges(before, coalesce);
    let entry = entries.last();
    let ranges = process_ranges(entries, coalesce);
    ranges_cover_the_wanted_memory(before, coalesce, address);
    assert(entries[entries.len() - 1] == entry);
    if at < front.len() && front[at].base <= address < front[at].base + front[at].size {
        ranges_lie_in_lines_like_them(before, coalesce, at, address);
        let k = choose|k: int|
            {
                &&& 0 <= k < before.len()
                &&& (#[trigger] before[k]).wanted
                &&& before[k].start <= address < before[k].end
                &&& map_protection(before[k].perms@) == Some(front[at].protection)
                &&& before[k].path is Some <==> front[at].path is Some
                &&& before[k].path is Some ==> before[k].path->0@ == front[at].path->0
            };
        assert(entries[k] == before[k]);
    } else {
        let next = range_of(entry)->0;
        if at < front.len() {
            assert(front[at].base + front[at].size <= u64::MAX);
        }
        assert(entry.start <= address < entry.end);
    }
}

/// Every address of a wanted line of the map, if the line has permissions, lies in a
/// reported range with the protection and the path of that line.
pub proof fn lines_lie_in_ranges_like_them(
    entries: Seq<MapEntry>,
    coalesce: bool,
    at: int,
    address: int,
)
    requires
        0 <= at < entries.len(),
        entries[at].wanted,
        entries[at].start <= address < entries[at].end,
        map_protection(entries[at].perms@) is Some,
    ensures
        exists|k: int|
            {
                &&& 0 <= k < process_ranges(entries, coalesce).len()
                &&& (#[trigger] process_ranges(entries, coalesce)[k]).base <= address
                &&& address < process_ranges(entries, coalesce)[k].base + process_ranges(
                    entries,
                    coalesce,
                )[k].size
                &&& map_protection(entries[at].perms@) == Some(
                    process_ranges(entries, coalesce)[k].protection,
                )
                &&& entries[at].path is Some <==> process_ranges(entries, coalesce)[k].path is Some
                &&& entries[at].path is Some ==> entries[at].path->0@ == process_ranges(
                    entries,
                    coalesce,
                )[k].path->0
            },
    decreases entries.len(),
{
    let before = entries.drop_last();
    let front = process_ranges(before, coalesce);
    let entry = entries.last();
    let ranges = process_ranges(entries, coalesce);
    ranges_cover_the_wanted_memory(before, coalesce, address);
    let end = front.len() - 1;
    if at < before.len() {
        assert(before[at] == entries[at]);
        lines_lie_in_ranges_like_them(before, coalesce, at, address);
        let k = choose|k: int|
            {
                &&& 0 <= k < front.len()
                &&& (#[trigger] front[k]).base <= address
                &&& address < front[k].base + front[k].size
                &&& map_protection(before[at].perms@) == Some(front[k].protection)
                &&& before[at].path is Some <==> front[k].path is Some
                &&& before[at].path is Some ==> before[at].path->0@ == front[k].path->0
            };
        assert(front[end].base + front[end].size <= u64::MAX);
        assert(k < end ==> ranges[k] == front[k]);
        assert(ranges[k].base == front[k].base && ranges[k].size >= front[k].size
            && ranges[k].protection == front[k].protection && ranges[k].path == front[k].path);
    } else {
        let next = range_of(entry)->0;
        if coalesce && front.len() > 0 && continues(front.last(), next) {
            assert(front[end].base + front[end].size <= u64::MAX);
            assert(ranges[end].base <= address);
        } else {
            assert(ranges[end + 1] == next);
        }
    }
}

/// Without joining there is one range for each wanted line that has permissions, in their
/// order, from the line's start to its end.
pub proof fn ranges_are_lines_unless_joined(entries: Seq<MapEntry>, at: int)
    requires
        0 <= at < entries.filter(|e: MapEntry| e.wanted && map_protection(e.perms@) is Some).len(),
    ensures
        process_ranges(entries, false).len() == entries.filter(
            |e: MapEntry| e.wanted && map_protection(e.perms@) is Some,
        ).len(),
        ({
            let range = process_ranges(entries, false)[at];
            let entry = entries.filter(
                |e: MapEntry| e.wanted && map_protection(e.perms@) is Some,
            )[at];
            &&& range.base == entry.start
            &&& entry.start <= entry.end ==> range.base + range.size == entry.end
            &&& entry.start > entry.end ==> range.size == 0
            &&& map_protection(entry.perms@) == Some(range.protection)
            &&& entry.path is Some <==> range.path is Some
            &&& entry.path is Some ==> entry.path->0@ == range.path->0
        }),
    decreases entries.len(),
{
    reveal(Seq::filter);
    let keep = |e: MapEntry| e.wanted && map_protection(e.perms@) is Some;
    lemma_one_range_per_line(entries);
    lemma_one_range_per_line(entries.drop_last());
    assert(entries.len() > 0);
    if at < entries.drop_last().filter(keep).len() {
        ranges_are_lines_unless_joined(entries.drop_last(), at);
    }
}

proof fn lemma_one_range_per_line(entries: Seq<MapEntry>)
    ensures
        process_ranges(entries, false).len() == entries.filter(
            |e: MapEntry| e.wanted && map_protection(e.perms@) is Some,
        ).len(),
    decreases entries.len(),
{
    reveal(Seq::filter);
    if entries.len() > 0 {
        lemma_one_range_per_line(entries.drop_last());
    }
}

/// Joining leaves no two neighbours that could be one: where a range begins at the end of
/// the one before it, they differ in their protection or their path.
pub proof fn joined_ranges_differ(entries: Seq<MapEntry>, at: int)
    requires
        0 < at < process_ranges(entries, true).len(),
        process_ranges(entries, true)[at - 1].base + process_ranges(entries, true)[at - 1].size
            == process_ranges(entries, true)[at].base,
    ensures
        process_ranges(entries, true)[at - 1].protection != process_ranges(
            entries,
            true,
        )[at].protection || process_ranges(entries, true)[at - 1].path != process_ranges(
            entries,
            true,
        )[at].path,
    decreases entries.len(),
{
    let front = process_ranges(entries.drop_last(), true);
    if at < front.len() {
        joined_ranges_differ(entries.drop_last(), at);
    }
}

/// The protection of a line is its first three letters; permissions that are shorter give
/// none.
pub proof fn protection_is_three_letters(perms: Seq<char>)
    requires
        forall|i: int| 0 <= i < perms.len() && i < 3 ==> (#[trigger] perms[i]) as u32 <= 0x7f,
    ensures
        splits_at_three(perms),
        perms.len() < 3 ==> map_protection(perms) is None,
        perms.len() >= 3 ==> map_protection(perms) == Some(seq![perms[0], perms[1], perms[2]]),
{
    reveal_with_fuel(utf8_size, 4);
    if perms.len() >= 3 {
        let front = perms.take(3);
        assert(front.drop_last() =~= perms.take(2));
        assert(perms.take(2).drop_last() =~= perms.take(1));
        assert(perms.take(1).drop_last() =~= perms.take(0));
        assert(three_bytes(perms, 3));
        let other = choose|count: int| three_bytes(perms, count);
        assert(three_bytes(perms, other));
        if other < 3 {
            lemma_utf8_size_grows(perms, other, 3);
        } else {
            lemma_utf8_size_grows(perms, 3, other);
        }
        lemma_utf8_size_grows(perms, 3, perms.len() as int);
        assert(perms.take(perms.len() as int) =~= perms);
        assert(front =~= seq![perms[0], perms[1], perms[2]]);
    } else {
        if perms.len() > 0 {
            assert(perms.last() == perms[perms.len() - 1]);
            assert(perms.drop_last().len() > 0 ==> perms.drop_last().last() == perms[perms.len()
                - 2]);
        }
    }
}

/// Where the first line of the map is that holds an address.
pub open spec fn first_holding(entries: Seq<MapEntry>, address: u64) -> int
    decreases entries.len(),
{
    if entries.len() == 0 || entry_holds(entries[0], address as int) {
        0
    } else {
        1 + first_holding(entries.drop_first(), address)
    }
}

/// The range that holds an address: that of the first line that does.
pub open spec fn range_at(entries: Seq<MapEntry>, address: u64) -> Option<RangeView> {
    let at = first_holding(entries, address);
    if at < entries.len() {
        range_of(entries[at])
    } else {
        None
    }
}

proof fn lemma_first_holding(entries: Seq<MapEntry>, address: u64, at: int)
    requires
        0 <= at <= entries.len(),
        forall|i: int| 0 <= i < at ==> !entry_holds(#[trigger] entries[i], address as int),
        at == entries.len() || entry_holds(entries[at], address as int),
    ensures
        first_holding(entries, address) == at,
    decreases entries.len(),
{
    if at > 0 {
        let rest = entries.drop_first();
        assert forall|i: int| 0 <= i < at - 1 implies !entry_holds(
            #[trigger] rest[i],
            address as int,
        ) by {
            assert(rest[i] == entries[i + 1]);
        }
        assert(!entry_holds(entries[0], address as int));
        lemma_first_holding(rest, address, at - 1);
    }
}

/// The range that holds an address.
pub fn find_process_range_by_address(entries: &Vec<MapEntry>, address: u64) -> (range: Option<
    ProcessRangeRecord,
>)
    requires
        splittable(entries@),
    ensures
        range is Some <==> range_at(entries@, address) is Some,
        range matches Some(r) ==> Some(r@) == range_at(entries@, address),
{
    let mut i: usize = 0;
    while i < entries.len()
        invariant
            i <= entries@.len(),
            splittable(entries@),
            forall|k: int| 0 <= k < i ==> !entry_holds(#[trigger] entries@[k], address as int),
        decreases entries@.len() - i,
    {
        if entries[i].start <= address && address < entries[i].end {
            proof {
                lemma_first_holding(entries@, address, i as int);
                assert(splits_at_three(entries@[i as int].perms@));
            }
            return record_of(&entries[i]);
        }
        i = i + 1;
    }
    proof {
        lemma_first_holding(entries@, address, entries@.len() as int);
    }
    None
}

/// What a script passes to choose ranges.
#[derive(Debug)]
pub enum RangeArgument {
    /// Nothing, null or undefined.
    Absent,
    /// A string, if it can be read.
    Text(Option<String>),
    Object { protection: ProtectionProperty, coalesce: Option<bool> },
    /// Any other value.
    Other,
}

/// The protection that an object names.
#[derive(Debug)]
pub enum ProtectionProperty {
    /// Null or undefined.
    Absent,
    Text(String),
    /// A value that does not convert to a string.
    Unreadable,
}

/// Which ranges a script wants.
#[derive(Debug)]
pub struct RangeOptions {
    pub protection: Option<String>,
    pub coalesce: bool,
}

/// What is wrong with the choice of ranges.
pub open spec fn range_options_problem(argument: RangeArgument) -> Option<Seq<char>> {
    match argument {
        RangeArgument::Other => Some(
            "Process.enumerateRanges(protection | { protection, coalesce }) expected a string or object"@,
        ),
        RangeArgument::Object { protection: ProtectionProperty::Unreadable, .. } => Some(
            "Process.enumerateRanges: protection must be a string"@,
        ),
        _ => None,
    }
}

/// Which ranges a script wants.
pub fn parse_process_range_options(argument: RangeArgument) -> (result: Result<
    RangeOptions,
    ScriptError,
>)
    ensures
        result is Err <==> range_options_problem(argument) is Some,
        result matches Err(error) ==> error@.0 == ErrorKind::TypeError && Some(error@.1)
            == range_options_problem(argument),
        result matches Ok(options) ==> match argument {
            RangeArgument::Text(text) => options.protection == text && !options.coalesce,
            RangeArgument::Object { protection, coalesce } => {
                &&& options.protection == match protection {
                    ProtectionProperty::Text(text) => Some(text),
                    _ => None,
                }
                &&& options.coalesce == (coalesce == Some(true))
            },
            _ => options.protection is None && !options.coalesce,
        },
{
    match argument {
        RangeArgument::Absent => Ok(RangeOptions { protection: None, coalesce: false }),
        RangeArgument::Text(text) => Ok(RangeOptions { protection: text, coalesce: false }),
        RangeArgument::Other => Err(
            type_error(
                "Process.enumerateRanges(protection | { protection, coalesce }) expected a string or object",
            ),
        ),
        RangeArgument::Object { protection, coalesce } => {
            let protection: Option<String> = match protection {
                ProtectionProperty::Absent => None,
                ProtectionProperty::Text(text) => Some(text),
                ProtectionProperty::Unreadable => {
                    return Err(
                        type_error("Process.enumerateRanges: protection must be a string"),
                    );
                },
            };
            let coalesce: bool = match coalesce {
                Some(value) => value,
                None => false,
            };
            Ok(RangeOptions { protection, coalesce })
        },
    }
}

/// What follows the given words in the first line that begins with them.
pub open spec fn first_line_after(list: Seq<Seq<char>>, words: Seq<char>) -> Option<Seq<char>>
    decreases list.len(),
{
    if list.len() == 0 {
        None
    } else if has_front(list[0], words) {
        Some(list[0].skip(words.len() as int))
    } else {
        first_line_after(list.drop_first(), words)
    }
}

/// The number of the process that traces this one, as a line of its status gives it; zero
/// if there is none.
pub open spec fn tracer_of(line: Seq<char>) -> nat {
    if has_front(line, "TracerPid:"@) {
        match parsed_u64(trimmed(line.skip("TracerPid:"@.len() as int)), 10) {
            Some(pid) => if pid <= u32::MAX {
                pid
            } else {
                0
            },
            None => 0,
        }
    } else {
        0
    }
}

/// Whether a status names a process that traces this one.
pub open spec fn names_tracer(status: Seq<char>) -> bool {
    exists|i: int| 0 <= i < lines(status).len() && tracer_of(#[trigger] lines(status)[i]) != 0
}

/// Whether the status of the process, if it can be read, names one that traces it.
pub fn is_debugger_attached(status: Option<&str>) -> (attached: bool)
    ensures
        attached == match given_text(status) {
            Some(text) => names_tracer(text),
            None => false,
        },
{
    let text: &str = match status {
        Some(text) => text,
        None => {
            return false;
        },
    };
    let chars: Vec<char> = chars_of(text);
    let list: Vec<Vec<char>> = lines_of(chars.as_slice());
    let mut i: usize = 0;
    while i < list.len()
        invariant
            i <= list@.len(),
            line_views(list@) == lines(text@),
            status == Some(text),
            forall|k: int| 0 <= k < i ==> tracer_of(#[trigger] lines(text@)[k]) == 0,
        decreases list@.len() - i,
    {
        let line: &Vec<char> = &list[i];
        assert(lines(text@)[i as int] == line@);
        if begins_with(line.as_slice(), "TracerPid:") {
            proof {
                reveal_strlit("TracerPid:");
            }
            let rest: &[char] = slice_subrange(line.as_slice(), 10, line.len());
            assert(rest@ =~= line@.skip(10));
            let inner: Vec<char> = trim(rest);
            match parse_u64(inner.as_slice(), 10) {
                Some(pid) => {
                    if pid != 0 && pid <= 0xffff_ffff {
                        assert(tracer_of(lines(text@)[i as int]) != 0);
                        assert(names_tracer(text@));
                        return true;
                    }
                },
                None => {},
            }
        }
        i = i + 1;
    }
    false
}

/// The word for what a thread is doing, from the letter that the kernel gives.
pub open spec fn state_letter_word(text: Seq<char>) -> Seq<char> {
    if text.len() == 0 {
        "unknown"@
    } else if text[0] == 'R' {
        "running"@
    } else if text[0] == 'T' || text[0] == 't' {
        "stopped"@
    } else if text[0] == 'S' || text[0] == 'I' {
        "waiting"@
    } else if text[0] == 'D' {
        "uninterruptible"@
    } else if text[0] == 'Z' || text[0] == 'X' || text[0] == 'x' || text[0] == 'K' || text[0]
        == 'W' || text[0] == 'P' {
        "halted"@
    } else {
        "unknown"@
    }
}

fn state_letter_name(text: &Vec<char>) -> (word: &'static str)
    ensures
        word@ == state_letter_word(text@),
{
    if text.len() == 0 {
        return "unknown";
    }
    let letter: char = text[0];
    if letter == 'R' {
        "running"
    } else if letter == 'T' || letter == 't' {
        "stopped"
    } else if letter == 'S' || letter == 'I' {
        "waiting"
    } else if letter == 'D' {
        "uninterruptible"
    } else if letter == 'Z' || letter == 'X' || letter == 'x' || letter == 'K' || letter == 'W'
        || letter == 'P' {
        "halted"
    } else {
        "unknown"
    }
}

/// The word for what a thread is doing, from its status.
pub open spec fn thread_state_text(status: Option<Seq<char>>) -> Seq<char> {
    match status {
        Some(text) => match first_line_after(lines(text), "State:"@) {
            Some(rest) => state_letter_word(trimmed(rest)),
            None => "unknown"@,
        },
        None => "unknown"@,
    }
}

/// What a contract says of a text that may be missing.
pub open spec fn given_text(text: Option<&str>) -> Option<Seq<char>> {
    match text {
        Some(text) => Some(text@),
        None => None,
    }
}

/// The word for what a thread is doing, from its status, if that can be read.
pub fn process_thread_state(status: Option<&str>) -> (word: &'static str)
    ensures
        word@ == thread_state_text(given_text(status)),
{
    let text: &str = match status {
        Some(text) => text,
        None => {
            return "unknown";
        },
    };
    let chars: Vec<char> = chars_of(text);
    let list: Vec<Vec<char>> = lines_of(chars.as_slice());
    let ghost all = lines(text@);
    let mut i: usize = 0;
    assert(all.skip(0) =~= all);
    while i < list.len()
        invariant
            i <= list@.len(),
            all == lines(text@),
            line_views(list@) == all,
            status == Some(text),
            first_line_after(all, "State:"@) == first_line_after(all.skip(i as int), "State:"@),
        decreases list@.len() - i,
    {
        let line: &Vec<char> = &list[i];
        assert(all.skip(i as int)[0] == line@);
        if begins_with(line.as_slice(), "State:") {
            proof {
                reveal_strlit("State:");
            }
            let rest: &[char] = slice_subrange(line.as_slice(), 6, line.len());
            assert(rest@ =~= line@.skip(6));
            let inner: Vec<char> = trim(rest);
            return state_letter_name(&inner);
        }
        assert(all.skip(i as int).drop_first() =~= all.skip(i + 1));
        i = i + 1;
    }
    assert(all.skip(i as int) =~= seq![]);
    "unknown"
}

/// A text without the line feeds at its end.
pub open spec fn without_line_feeds(text: Seq<char>) -> Seq<char>
    decreases text.len(),
{
    if text.len() > 0 && text.last() == '\n' {
        without_line_feeds(text.drop_last())
    } else {
        text
    }
}

/// The name of a thread, from what the kernel says, if it can be read and is not empty.
pub fn process_thread_name(comm: Option<&str>) -> (name: Option<String>)
    ensures
        optional_text(name) == match comm {
            Some(text) => if without_line_feeds(text@).len() == 0 {
                None
            } else {
                Some(without_line_feeds(text@))
            },
            None => None,
        },
{
    let text: &str = match comm {
        Some(text) => text,
        None => {
            return None;
        },
    };
    let chars: Vec<char> = chars_of(text);
    let mut end: usize = chars.len();
    assert(text@.take(end as int) =~= text@);
    while end > 0 && chars[end - 1] == '\n'
        invariant
            end <= chars@.len(),
            chars@ == text@,
            without_line_feeds(text@) == without_line_feeds(text@.take(end as int)),
        decreases end,
    {
        assert(text@.take(end as int).drop_last() =~= text@.take(end - 1));
        end = end - 1;
    }
    if end == 0 {
        return None;
    }
    let name: String = text_of(slice_subrange(chars.as_slice(), 0, end));
    assert(name@ =~= text@.take(end as int));
    Some(name)
}

/// The number of a thread that a name in the list of threads gives, if it is one.
pub open spec fn thread_number(name: Seq<char>) -> Option<i32> {
    if name.len() > 0 && name[0] == '-' {
        let digits = name.drop_first();
        match parsed_u64(digits, 10) {
            Some(value) => if digits[0] != '+' && value <= 0x8000_0000 {
                Some((-(value as int)) as i32)
            } else {
                None
            },
            None => None,
        }
    } else {
        match parsed_u64(name, 10) {
            Some(value) => if value <= i32::MAX {
                Some(value as i32)
            } else {
                None
            },
            None => None,
        }
    }
}

/// Reads the number of a thread.
pub fn parse_thread_number(name: &str) -> (tid: Option<i32>)
    ensures
        tid == thread_number(name@),
{
    let chars: Vec<char> = chars_of(name);
    if chars.len() > 0 && chars[0] == '-' {
        let digits: &[char] = slice_subrange(chars.as_slice(), 1, chars.len());
        assert(digits@ =~= name@.drop_first());
        match parse_u64(digits, 10) {
            Some(value) => {
                if digits[0] != '+' && value <= 0x8000_0000 {
                    Some((-(value as i64)) as i32)
                } else {
                    None
                }
            },
            None => None,
        }
    } else {
        match parse_u64(chars.as_slice(), 10) {
            Some(value) => {
                if value <= 0x7fff_ffff {
                    Some(value as i32)
                } else {
                    None
                }
            },
            None => None,
        }
    }
}

/// What the kernel says of a thread: the name under which it is listed, its name and its
/// status, if they can be read.
#[derive(Debug)]
pub struct ListedThread {
    pub entry: String,
    pub comm: Option<String>,
    pub status: Option<String>,
}

/// A thread as scripts see it.
#[derive(Debug, PartialEq, Eq)]
pub struct ProcessThread {
    pub tid: i32,
    pub name: Option<String>,
    pub state: &'static str,
}

impl SortKey for ProcessThread {
    open spec fn sort_key(&self) -> u64 {
        (self.tid + 0x8000_0000) as u64
    }

    fn key(&self) -> (key: u64) {
        (self.tid as i64 + 0x8000_0000i64) as u64
    }
}

/// Whether a thread is what the kernel says of it.
pub open spec fn thread_matches(thread: ProcessThread, listed: ListedThread) -> bool {
    &&& thread_number(listed.entry@) == Some(thread.tid)
    &&& optional_text(thread.name) == match listed.comm {
        Some(text) => if without_line_feeds(text@).len() == 0 {
            None
        } else {
            Some(without_line_feeds(text@))
        },
        None => None,
    }
    &&& thread.state@ == thread_state_text(optional_text(listed.status))
}

/// The listed names that are numbers of threads.
pub open spec fn numbered(listed: Seq<ListedThread>) -> Seq<ListedThread>
    decreases listed.len(),
{
    if listed.len() == 0 {
        seq![]
    } else if thread_number(listed.last().entry@) is Some {
        numbered(listed.drop_last()).push(listed.last())
    } else {
        numbered(listed.drop_last())
    }
}

/// Whether the threads are those that the kernel lists, in its order.
pub open spec fn threads_match(threads: Seq<ProcessThread>, listed: Seq<ListedThread>) -> bool {
    &&& threads.len() == numbered(listed).len()
    &&& forall|i: int|
        0 <= i < threads.len() ==> thread_matches(#[trigger] threads[i], numbered(listed)[i])
}

fn optional_str(text: &Option<String>) -> (view: Option<&str>)
    ensures
        given_text(view) == optional_text(*text),
{
    match text {
        Some(text) => Some(text.as_str()),
        None => None,
    }
}

/// The threads of the process, in the order of their numbers.
pub fn process_threads(listed: &Vec<ListedThread>) -> (threads: Vec<ProcessThread>)
    ensures
        exists|list: Seq<ProcessThread>|
            threads_match(list, listed@) && threads@ == #[trigger] stable_sorted(list),
{
    let mut list: Vec<ProcessThread> = Vec::new();
    let mut i: usize = 0;
    assert(listed@.take(0) =~= seq![]);
    while i < listed.len()
        invariant
            i <= listed@.len(),
            threads_match(list@, listed@.take(i as int)),
        decreases listed@.len() - i,
    {
        assert(listed@.take(i + 1).drop_last() =~= listed@.take(i as int));
        match parse_thread_number(listed[i].entry.as_str()) {
            Some(tid) => {
                let name: Option<String> = process_thread_name(optional_str(&listed[i].comm));
                let state: &'static str = process_thread_state(optional_str(&listed[i].status));
                let ghost before = list@;
                list.push(ProcessThread { tid, name, state });
                assert(thread_matches(list@[before.len() as int], listed@[i as int]));
                assert forall|k: int| 0 <= k < list@.len() implies thread_matches(
                    #[trigger] list@[k],
                    numbered(listed@.take(i + 1))[k],
                ) by {
                    if k < before.len() {
                        assert(thread_matches(before[k], numbered(listed@.take(i as int))[k]));
                    }
                }
            },
            None => {},
        }
        i = i + 1;
    }
    assert(listed@.take(listed@.len() as int) =~= listed@);
    stable_sort(list)
}

/// The size of a page, where the system may not know.
pub fn process_page_size(answer: i64) -> (size: i64)
    ensures
        size == if answer > 0 {
            answer as int
        } else {
            4096
        },
{
    if answer > 0 {
        answer
    } else {
        4096
    }
}

/// What follows the last slash of a path.
pub open spec fn file_name(path: Seq<char>) -> Seq<char>
    decreases path.len(),
{
    if path.len() == 0 || path.last() == '/' {
        seq![]
    } else {
        file_name(path.drop_last()).push(path.last())
    }
}

fn file_name_of(path: &str) -> (name: String)
    ensures
        name@ == file_name(path@),
{
    let chars: Vec<char> = chars_of(path);
    let mut start: usize = chars.len();
    assert(path@.take(start as int) =~= path@);
    assert(path@.skip(start as int) =~= seq![]);
    assert(file_name(path@) =~= file_name(path@.take(start as int)) + path@.skip(start as int));
    while start > 0 && chars[start - 1] != '/'
        invariant
            start <= chars@.len(),
            chars@ == path@,
            file_name(path@) == file_name(path@.take(start as int)) + path@.skip(start as int),
        decreases start,
    {
        assert(path@.take(start as int).drop_last() =~= path@.take(start - 1));
        assert(path@.skip(start - 1) =~= seq![path@[start - 1]] + path@.skip(start as int));
        assert(file_name(path@.take(start as int)) + path@.skip(start as int) =~= file_name(
            path@.take(start - 1),
        ) + path@.skip(start - 1));
        start = start - 1;
    }
    let name: String = text_of(slice_subrange(chars.as_slice(), start, chars.len()));
    assert(name@ =~= path@.skip(start as int));
    assert(file_name(path@.take(start as int)) =~= seq![]);
    assert(name@ =~= file_name(path@));
    name
}

/// Where the first module with the path is, or the number of modules.
pub open spec fn first_with_path(modules: Seq<ModuleDetails>, path: Seq<char>) -> int
    decreases modules.len(),
{
    if modules.len() == 0 || modules[0].path@ == path {
        0
    } else {
        1 + first_with_path(modules.drop_first(), path)
    }
}

/// Where the first module with the name is, or the number of modules.
pub open spec fn first_with_name(modules: Seq<ModuleDetails>, name: Seq<char>) -> int
    decreases modules.len(),
{
    if modules.len() == 0 || modules[0].name@ == name {
        0
    } else {
        1 + first_with_name(modules.drop_first(), name)
    }
}

/// Where the first of the modules with the lowest address is.
pub open spec fn is_lowest(modules: Seq<ModuleDetails>, at: int) -> bool {
    &&& 0 <= at < modules.len()
    &&& forall|i: int| 0 <= i < modules.len() ==> modules[at].base <= (#[trigger] modules[i]).base
    &&& forall|i: int| 0 <= i < at ==> modules[at].base < (#[trigger] modules[i]).base
}

/// Whether the module at a place is the program itself: the one with its path, or else with
/// its file name, or else the one with the lowest address.
pub open spec fn is_main_module(
    modules: Seq<ModuleDetails>,
    program: Option<Seq<char>>,
    at: int,
) -> bool {
    if program is Some && first_with_path(modules, program->0) < modules.len() {
        at == first_with_path(modules, program->0)
    } else if program is Some && first_with_name(modules, file_name(program->0))
        < modules.len() {
        at == first_with_name(modules, file_name(program->0))
    } else {
        is_lowest(modules, at)
    }
}

proof fn lemma_first_with_path(modules: Seq<ModuleDetails>, path: Seq<char>, at: int)
    requires
        0 <= at <= modules.len(),
        forall|i: int| 0 <= i < at ==> (#[trigger] modules[i]).path@ != path,
        at == modules.len() || modules[at].path@ == path,
    ensures
        first_with_path(modules, path) == at,
    decreases modules.len(),
{
    if at > 0 {
        let rest = modules.drop_first();
        assert(modules[0].path@ != path);
        assert forall|i: int| 0 <= i < at - 1 implies (#[trigger] rest[i]).path@ != path by {
            assert(rest[i] == modules[i + 1]);
        }
        lemma_first_with_path(rest, path, at - 1);
    }
}

proof fn lemma_first_with_name(modules: Seq<ModuleDetails>, name: Seq<char>, at: int)
    requires
        0 <= at <= modules.len(),
        forall|i: int| 0 <= i < at ==> (#[trigger] modules[i]).name@ != name,
        at == modules.len() || modules[at].name@ == name,
    ensures
        first_with_name(modules, name) == at,
    decreases modules.len(),
{
    if at > 0 {
        let rest = modules.drop_first();
        assert(modules[0].name@ != name);
        assert forall|i: int| 0 <= i < at - 1 implies (#[trigger] rest[i]).name@ != name by {
            assert(rest[i] == modules[i + 1]);
        }
        lemma_first_with_name(rest, name, at - 1);
    }
}

/// Where the module of the program itself is, if there are modules. The program's path may
/// not be known.
pub fn process_main_module(modules: &Vec<ModuleDetails>, program: Option<&str>) -> (at: Option<usize>)
    ensures
        at is Some <==> modules@.len() > 0,
        at matches Some(i) ==> i < modules@.len() && is_main_module(
            modules@,
            given_text(program),
            i as int,
        ),
{
    if modules.len() == 0 {
        return None;
    }
    match program {
        Some(path) => {
            let mut i: usize = 0;
            while i < modules.len()
                invariant
                    i <= modules@.len(),
                    given_text(program) == Some(path@),
                    forall|k: int| 0 <= k < i ==> (#[trigger] modules@[k]).path@ != path@,
                decreases modules@.len() - i,
            {
                if same_text(modules[i].path.as_str(), path) {
                    proof {
                        lemma_first_with_path(modules@, path@, i as int);
                    }
                    return Some(i);
                }
                i = i + 1;
            }
            proof {
                lemma_first_with_path(modules@, path@, modules@.len() as int);
            }
            let name: String = file_name_of(path);
            let mut j: usize = 0;
            while j < modules.len()
                invariant
                    j <= modules@.len(),
                    given_text(program) == Some(path@),
                    name@ == file_name(path@),
                    first_with_path(modules@, path@) == modules@.len(),
                    forall|k: int| 0 <= k < j ==> (#[trigger] modules@[k]).name@ != name@,
                decreases modules@.len() - j,
            {
                if same_text(modules[j].name.as_str(), name.as_str()) {
                    proof {
                        lemma_first_with_name(modules@, name@, j as int);
                    }
                    return Some(j);
                }
                j = j + 1;
            }
            proof {
                lemma_first_with_name(modules@, name@, modules@.len() as int);
            }
        },
        None => {},
    }
    let mut lowest: usize = 0;
    let mut i: usize = 1;
    while i < modules.len()
        invariant
            lowest < i <= modules@.len(),
            forall|k: int|
                0 <= k < i ==> modules@[lowest as int].base <= (#[trigger] modules@[k]).base,
            forall|k: int|
                0 <= k < lowest ==> modules@[lowest as int].base < (#[trigger] modules@[k]).base,
        decreases modules@.len() - i,
    {
        if modules[i].base < modules[lowest].base {
            lowest = i;
        }
        i = i + 1;
    }
    Some(lowest)
}

/// A module and whether its path answers to the name that a script looks for.
#[derive(Debug)]
pub struct LookedUpModule {
    pub details: ModuleDetails,
    pub path_matches: bool,
}

/// Whether a module answers to a name.
pub open spec fn answers_to(module: LookedUpModule, name: Seq<char>) -> bool {
    module.path_matches || module.details.name@ == name
}

/// Where the first module is that answers to a name.
pub fn process_find_module_by_name(modules: &Vec<LookedUpModule>, name: &str) -> (at: Option<usize>)
    ensures
        at matches Some(i) ==> {
            &&& i < modules@.len()
            &&& answers_to(modules@[i as int], name@)
            &&& forall|k: int| 0 <= k < i ==> !answers_to(#[trigger] modules@[k], name@)
        },
        at is None ==> forall|k: int|
            0 <= k < modules@.len() ==> !answers_to(#[trigger] modules@[k], name@),
{
    let mut i: usize = 0;
    while i < modules.len()
        invariant
            i <= modules@.len(),
            forall|k: int| 0 <= k < i ==> !answers_to(#[trigger] modules@[k], name@),
        decreases modules@.len() - i,
    {
        if modules[i].path_matches || same_text(modules[i].details.name.as_str(), name) {
            return Some(i);
        }
        i = i + 1;
    }
    None
}

/// What scripts may look for and not find.
#[derive(Clone, Copy, Debug, PartialEq, Eq, Structural)]
pub enum Lookup {
    ModuleByName,
    ModuleByAddress,
    RangeByAddress,
}

/// The message for something that a script has to find and does not.
pub open spec fn missing_message(lookup: Lookup) -> Seq<char> {
    match lookup {
        Lookup::ModuleByName => "Process.getModuleByName: module not found"@,
        Lookup::ModuleByAddress => "Process.getModuleByAddress: module not found"@,
        Lookup::RangeByAddress => "Process.getRangeByAddress: range not found"@,
    }
}

/// That something was found that a script has to find.
pub fn required<T>(found: Option<T>, lookup: Lookup) -> (result: Result<T, ScriptError>)
    ensures
        result is Ok <==> found is Some,
        result matches Ok(value) ==> found == Some(value),
        result matches Err(error) ==> error@ == (
            ErrorKind::InternalError,
            missing_message(lookup),
        ),
{
    match found {
        Some(value) => Ok(value),
        None => Err(
            match lookup {
                Lookup::ModuleByName => internal_error("Process.getModuleByName: module not found"),
                Lookup::ModuleByAddress => internal_error(
                    "Process.getModuleByAddress: module not found",
                ),
                Lookup::RangeByAddress => internal_error("Process.getRangeByAddress: range not found"),
            },
        ),
    }
}

/// The message for a look-up without its argument.
pub open spec fn argument_message(lookup: Lookup) -> Seq<char> {
    match lookup {
        Lookup::ModuleByName => "Process.findModuleByName(name) requires 1 argument"@,
        Lookup::ModuleByAddress => "Process.findModuleByAddress(address) requires 1 argument"@,
        Lookup::RangeByAddress => "Process.findRangeByAddress(address) requires 1 argument"@,
    }
}

/// Checks the arguments of a look-up. What does not convert comes as the error for it.
pub fn lookup_argument<T>(argument_count: usize, argument: Result<T, ScriptError>, lookup: Lookup) -> (result:
    Result<T, ScriptError>)
    ensures
        argument_count >= 1 ==> result == argument,
        argument_count < 1 ==> result is Err && result->Err_0@ == (
            ErrorKind::TypeError,
            argument_message(lookup),
        ),
{
    if argument_count < 1 {
        return Err(
            match lookup {
                Lookup::ModuleByName => type_error(
                    "Process.findModuleByName(name) requires 1 argument",
                ),
                Lookup::ModuleByAddress => type_error(
                    "Process.findModuleByAddress(address) requires 1 argument",
                ),
                Lookup::RangeByAddress => type_error(
                    "Process.findRangeByAddress(address) requires 1 argument",
                ),
            },
        );
    }
    argument
}

/// The range that holds an address is that of the first line that holds it, whatever a
/// script wants: from the line's start to its end, with its protection and path. Where no
/// line holds it there is none.
pub proof fn addresses_are_found_in_the_first_line(
    entries: Seq<MapEntry>,
    address: u64,
    at: int,
)
    requires
        0 <= at <= entries.len(),
        forall|i: int|
            0 <= i < at ==> !((#[trigger] entries[i]).start <= address < entries[i].end),
        at < entries.len() ==> entries[at].start <= address < entries[at].end,
    ensures
        at == entries.len() ==> range_at(entries, address) is None,
        at < entries.len() ==> (range_at(entries, address) is Some <==> map_protection(
            entries[at].perms@,
        ) is Some),
        at < entries.len() && range_at(entries, address) is Some ==> {
            let range = range_at(entries, address)->0;
            &&& range.base == entries[at].start
            &&& range.base + range.size == entries[at].end
            &&& map_protection(entries[at].perms@) == Some(range.protection)
            &&& entries[at].path is Some <==> range.path is Some
            &&& entries[at].path is Some ==> entries[at].path->0@ == range.path->0
        },
{
    assert forall|i: int| 0 <= i < at implies !entry_holds(#[trigger] entries[i], address as int) by {
        assert(!(entries[i].start <= address < entries[i].end));
    }
    lemma_first_holding(entries, address, at);
}

/// A line that begins with `TracerPid:` names the tracer by its number, with white space
/// around it; other lines name none.
pub proof fn tracers_are_named_by_number(line: Seq<char>, rest: Seq<char>, pid: u32)
    ensures
        is_trimmed(rest, numeral(pid as nat, 10)) ==> tracer_of("TracerPid:"@ + rest) == pid,
        is_trimmed(rest, ""@) ==> tracer_of("TracerPid:"@ + rest) == 0,
        !has_front(line, "TracerPid:"@) ==> tracer_of(line) == 0,
{
    let front = "TracerPid:"@;
    assert((front + rest).take(front.len() as int) =~= front);
    assert((front + rest).skip(front.len() as int) =~= rest);
    numbers_are_read_back(pid as u64, 0, 10);
    if is_trimmed(rest, numeral(pid as nat, 10)) {
        trimming_is_unique(rest, numeral(pid as nat, 10));
    }
    if is_trimmed(rest, ""@) {
        reveal_strlit("");
        trimming_is_unique(rest, ""@);
    }
}

/// The word for the state of a thread is that of the first letter behind `State:`.
pub proof fn states_go_by_their_letters(text: Seq<char>)
    ensures
        text.len() == 0 ==> state_letter_word(text) == "unknown"@,
        text.len() > 0 && text[0] == 'R' ==> state_letter_word(text) == "running"@,
        text.len() > 0 && (text[0] == 'S' || text[0] == 'I') ==> state_letter_word(text)
            == "waiting"@,
        text.len() > 0 && text[0] == 'D' ==> state_letter_word(text) == "uninterruptible"@,
        text.len() > 0 && (text[0] == 'T' || text[0] == 't') ==> state_letter_word(text)
            == "stopped"@,
        text.len() > 0 && (text[0] == 'Z' || text[0] == 'X' || text[0] == 'x' || text[0] == 'K'
            || text[0] == 'W' || text[0] == 'P') ==> state_letter_word(text) == "halted"@,
        text.len() > 0 && text[0] != 'R' && text[0] != 'S' && text[0] != 'I' && text[0] != 'D'
            && text[0] != 'T' && text[0] != 't' && text[0] != 'Z' && text[0] != 'X' && text[0]
            != 'x' && text[0] != 'K' && text[0] != 'W' && text[0] != 'P' ==> state_letter_word(text)
            == "unknown"@,
{
}

/// The state of a thread is told by the first line that begins with `State:`.
pub proof fn the_first_state_line_tells(
    before: Seq<Seq<char>>,
    rest: Seq<char>,
    after: Seq<Seq<char>>,
    status: Seq<char>,
)
    requires
        forall|i: int| 0 <= i < before.len() ==> !has_front(#[trigger] before[i], "State:"@),
        lines(status) == before + seq!["State:"@ + rest] + after,
    ensures
        thread_state_text(Some(status)) == state_letter_word(trimmed(rest)),
        thread_state_text(None) == "unknown"@,
{
    lemma_first_line_after(before, "State:"@, rest, after);
}

proof fn lemma_first_line_after(
    before: Seq<Seq<char>>,
    words: Seq<char>,
    rest: Seq<char>,
    after: Seq<Seq<char>>,
)
    requires
        forall|i: int| 0 <= i < before.len() ==> !has_front(#[trigger] before[i], words),
    ensures
        first_line_after(before + seq![words + rest] + after, words) == Some(rest),
    decreases before.len(),
{
    let all = before + seq![words + rest] + after;
    if before.len() == 0 {
        assert(all[0] == words + rest);
        assert((words + rest).take(words.len() as int) =~= words);
        assert((words + rest).skip(words.len() as int) =~= rest);
    } else {
        let next = before.drop_first();
        assert(all[0] == before[0]);
        assert forall|i: int| 0 <= i < next.len() implies !has_front(#[trigger] next[i], words) by {
            assert(next[i] == before[i + 1]);
        }
        lemma_first_line_after(next, words, rest, after);
        assert(all.drop_first() =~= next + seq![words + rest] + after);
    }
}

/// The line feeds at the end of a name are taken away, and nothing else.
pub proof fn names_lose_their_line_feeds(name: Seq<char>, feeds: Seq<char>)
    requires
        name.len() > 0 ==> name.last() != '\n',
        forall|i: int| 0 <= i < feeds.len() ==> #[trigger] feeds[i] == '\n',
    ensures
        without_line_feeds(name + feeds) == name,
    decreases feeds.len(),
{
    if feeds.len() == 0 {
        assert(name + feeds =~= name);
    } else {
        assert((name + feeds).last() == feeds[feeds.len() - 1]);
        assert((name + feeds).drop_last() =~= name + feeds.drop_last());
        names_lose_their_line_feeds(name, feeds.drop_last());
    }
}

/// The number of a thread is read in base ten, with an optional sign, if it has thirty-two
/// bits.
pub proof fn thread_numbers_are_decimal(value: u64, name: Seq<char>)
    ensures
        value <= 0x7fff_ffff ==> thread_number(numeral(value as nat, 10)) == Some(value as i32),
        value > 0x7fff_ffff ==> thread_number(numeral(value as nat, 10)) is None,
        value <= 0x8000_0000 ==> thread_number("-"@ + numeral(value as nat, 10)) == Some(
            (0 - value) as i32,
        ),
        value > 0x8000_0000 ==> thread_number("-"@ + numeral(value as nat, 10)) is None,
        parsed_u64(name, 10) is None && (name.len() == 0 || name[0] != '-') ==> thread_number(
            name,
        ) is None,
        thread_number("-"@) is None,
{
    reveal_strlit("-");
    let digits = numeral(value as nat, 10);
    numbers_are_read_back(value, 0, 10);
    numeral_reads_back(value as nat, 10);
    digits_are_read_as_usual(digits[0]);
    assert(crate::text::digit_value(digits[0]) is Some);
    assert(("-"@ + digits).drop_first() =~= digits);
    assert("-"@.drop_first() =~= seq![]);
}

/// The name of a file is what follows the last slash of its path.
pub proof fn file_names_follow_the_last_slash(front: Seq<char>, name: Seq<char>)
    requires
        forall|i: int| 0 <= i < name.len() ==> #[trigger] name[i] != '/',
    ensures
        file_name(front + "/"@ + name) == name,
        file_name(name) == name,
    decreases name.len(),
{
    reveal_strlit("/");
    let path = front + "/"@ + name;
    if name.len() == 0 {
        assert(path.last() == '/');
    } else {
        let rest = name.drop_last();
        assert forall|i: int| 0 <= i < rest.len() implies #[trigger] rest[i] != '/' by {
            assert(rest[i] == name[i]);
        }
        file_names_follow_the_last_slash(front, rest);
        assert(path.last() == name[name.len() - 1]);
        assert(path.drop_last() =~= front + "/"@ + rest);
        assert(rest.push(name.last()) =~= name);
    }
}

/// The program itself is the first module with its path; without one the first with its
/// file name; without one the module with the lowest address.
pub proof fn the_program_is_found_by_its_path(
    modules: Seq<ModuleDetails>,
    program: Seq<char>,
    at: int,
)
    requires
        0 <= at < modules.len(),
    ensures
        modules[at].path@ == program && (forall|i: int|
            0 <= i < at ==> (#[trigger] modules[i]).path@ != program) ==> is_main_module(
            modules,
            Some(program),
            at,
        ),
        (forall|i: int| 0 <= i < modules.len() ==> (#[trigger] modules[i]).path@ != program)
            && modules[at].name@ == file_name(program) && (forall|i: int|
            0 <= i < at ==> (#[trigger] modules[i]).name@ != file_name(program))
            ==> is_main_module(modules, Some(program), at),
        (forall|i: int|
            0 <= i < modules.len() ==> (#[trigger] modules[i]).path@ != program && modules[i].name@
                != file_name(program)) && (forall|i: int|
            0 <= i < modules.len() && i != at ==> modules[at].base < (
            #[trigger] modules[i]).base) ==> is_main_module(modules, Some(program), at)
            && is_main_module(modules, None, at),
        is_main_module(modules, Some(program), at) && (exists|i: int|
            0 <= i < modules.len() && (#[trigger] modules[i]).path@ == program)
            ==> modules[at].path@ == program,
{
    lemma_first_path(modules, program);
    lemma_first_name(modules, file_name(program));
}

proof fn lemma_first_path(modules: Seq<ModuleDetails>, path: Seq<char>)
    ensures
        ({
            let at = first_with_path(modules, path);
            &&& 0 <= at <= modules.len()
            &&& at < modules.len() ==> modules[at].path@ == path
            &&& forall|i: int| 0 <= i < at ==> (#[trigger] modules[i]).path@ != path
        }),
    decreases modules.len(),
{
    if modules.len() > 0 && modules[0].path@ != path {
        let rest = modules.drop_first();
        lemma_first_path(rest, path);
        let at = first_with_path(modules, path);
        assert forall|i: int| 0 <= i < at implies (#[trigger] modules[i]).path@ != path by {
            if i > 0 {
                assert(rest[i - 1] == modules[i]);
            }
        }
    }
}

proof fn lemma_first_name(modules: Seq<ModuleDetails>, name: Seq<char>)
    ensures
        ({
            let at = first_with_name(modules, name);
            &&& 0 <= at <= modules.len()
            &&& at < modules.len() ==> modules[at].name@ == name
            &&& forall|i: int| 0 <= i < at ==> (#[trigger] modules[i]).name@ != name
        }),
    decreases modules.len(),
{
    if modules.len() > 0 && modules[0].name@ != name {
        let rest = modules.drop_first();
        lemma_first_name(rest, name);
        let at = first_with_name(modules, name);
        assert forall|i: int| 0 <= i < at implies (#[trigger] modules[i]).name@ != name by {
            if i > 0 {
                assert(rest[i - 1] == modules[i]);
            }
        }
    }
}

/// The threads that are listed are those whose names are numbers.
pub proof fn only_numbers_are_threads(listed: Seq<ListedThread>)
    ensures
        numbered(listed) == listed.filter(|t: ListedThread| thread_number(t.entry@) is Some),
    decreases listed.len(),
{
    reveal(Seq::filter);
    if listed.len() > 0 {
        only_numbers_are_threads(listed.drop_last());
    }
}

/// A process is traced if a line of its status names a tracer other than zero.
pub proof fn one_tracer_line_is_enough(status: Seq<char>, at: int, rest: Seq<char>, pid: u32)
    requires
        0 <= at < lines(status).len(),
        lines(status)[at] == "TracerPid:"@ + rest,
        is_trimmed(rest, numeral(pid as nat, 10)),
        pid != 0,
    ensures
        names_tracer(status),
{
    tracers_are_named_by_number(lines(status)[at], rest, pid);
    assert(tracer_of(lines(status)[at]) != 0);
}

/// A thread of the process has the number of its directory, the name that the kernel gives
/// it unless that is empty, and the state of its status.
pub proof fn threads_are_what_the_kernel_lists(thread: ProcessThread, listed: ListedThread)
    requires
        thread_matches(thread, listed),
    ensures
        thread_number(listed.entry@) == Some(thread.tid),
        listed.comm is None ==> thread.name is None,
        listed.comm matches Some(text) ==> {
            &&& thread.name is Some <==> without_line_feeds(text@).len() > 0
            &&& thread.name matches Some(name) ==> name@ == without_line_feeds(text@)
        },
        listed.status matches Some(status) ==> thread.state@ == thread_state_text(Some(status@)),
        listed.status is None ==> thread.state@ == "unknown"@,
{
}

/// What is no number of thirty-two bits names no tracer.
pub proof fn other_texts_name_no_tracer(rest: Seq<char>)
    ensures
        parsed_u64(trimmed(rest), 10) is None ==> tracer_of("TracerPid:"@ + rest) == 0,
        parsed_u64(trimmed(rest), 10) matches Some(pid) ==> (pid > 0xffff_ffff ==> tracer_of(
            "TracerPid:"@ + rest,
        ) == 0),
{
    let front = "TracerPid:"@;
    assert((front + rest).take(front.len() as int) =~= front);
    assert((front + rest).skip(front.len() as int) =~= rest);
}

/// Threads are ordered by their numbers, and those below zero come first. A module answers to
/// its name, or to its path.
pub proof fn threads_are_ordered_by_number(
    left: ProcessThread,
    right: ProcessThread,
    module: LookedUpModule,
    name: Seq<char>,
)
    ensures
        left.sort_key() <= right.sort_key() <==> left.tid <= right.tid,
        answers_to(module, name) <==> module.details.name@ == name || module.path_matches,
{
}

} // verus!
