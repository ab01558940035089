//! Looking for pointers in memory.

use crate::bytes::{le_value, read_le};
use crate::memory_scan::ReadRequest;
use crate::script::{internal_error, ErrorKind, ScriptError};
use crate::text::{prefixed_hex, push_prefixed_hex};
use std::collections::HashSet;
use vstd::prelude::*;
use vstd::slice::slice_subrange;
use vstd::string::*;

verus! {

broadcast use vstd::std_specs::hash::group_hash_axioms;

/// Size of a pointer.
pub const POINTER_SIZE: usize = 8;

/// Bytes that are read at once. Where they cannot be read they are read again page by page,
/// so that one unreadable page only costs that page.
pub const SCAN_CHUNK: usize = 64 * 1024;

/// Largest range that a script may give.
pub const MAX_RANGE: i64 = 0x7fff_ffff;

/// A range of memory.
#[derive(Clone, Copy, Debug, PartialEq, Eq, Structural)]
pub struct Range {
    pub base: u64,
    pub size: usize,
}

/// A pointer that was found, and where.
#[derive(Clone, Copy, Debug, PartialEq, Eq, Structural)]
pub struct PointerMatch {
    pub address: u64,
    pub value: u64,
}

/// The word at a position of some bytes.
pub open spec fn word_at(bytes: Seq<u8>, index: int) -> u64 {
    le_value(bytes.subrange(8 * index, 8 * index + 8)) as u64
}

/// The first `count` words of some bytes at an address whose masked value is wanted.
pub open spec fn wanted_words(
    address: u64,
    bytes: Seq<u8>,
    count: nat,
    values: Set<u64>,
    mask: u64,
) -> Seq<PointerMatch>
    decreases count,
{
    if count == 0 {
        Seq::empty()
    } else {
        let index = (count - 1) as nat;
        let front = wanted_words(address, bytes, index, values, mask);
        let word = word_at(bytes, index as int);
        if values.contains(word & mask) {
            front.push(PointerMatch { address: (address + 8 * index) as u64, value: word })
        } else {
            front
        }
    }
}

/// Whether an address lies on a page that can be read; pages are numbered from address
/// zero.
pub open spec fn on_readable_page(
    address: int,
    page_size: int,
    readable: spec_fn(int) -> bool,
) -> bool {
    readable(address / page_size)
}

/// Whether some bytes lie on pages that can be read, all of them.
pub open spec fn can_be_read(
    start: int,
    length: int,
    page_size: int,
    readable: spec_fn(int) -> bool,
) -> bool {
    forall|address: int|
        start <= address < start + length ==> #[trigger] on_readable_page(
            address,
            page_size,
            readable,
        )
}

/// The first `count` words of a range that can be read and whose masked value is wanted,
/// in the order of their addresses.
pub open spec fn readable_wanted_words(
    base: u64,
    memory: Seq<u8>,
    count: nat,
    page_size: int,
    readable: spec_fn(int) -> bool,
    values: Set<u64>,
    mask: u64,
) -> Seq<PointerMatch>
    decreases count,
{
    if count == 0 {
        Seq::empty()
    } else {
        let index = (count - 1) as nat;
        let front = readable_wanted_words(base, memory, index, page_size, readable, values, mask);
        let word = word_at(memory, index as int);
        if can_be_read(base + 8 * index, 8, page_size, readable) && values.contains(word & mask) {
            front.push(PointerMatch { address: (base + 8 * index) as u64, value: word })
        } else {
            front
        }
    }
}

/// How much of a range is looked at. Of one that passes the end of memory, that is as many
/// whole reads as end before it.
pub open spec fn reachable(base: u64, size: usize) -> int {
    if base + size <= u64::MAX {
        size as int
    } else {
        SCAN_CHUNK * ((u64::MAX - base) / SCAN_CHUNK as int)
    }
}

/// A search for pointers in a range. What cannot be read is passed over.
#[derive(Debug)]
pub struct PointerSearch {
    pub base: u64,
    pub size: usize,
    pub page_size: u64,
    pub offset: usize,
    /// Up to here the search goes page by page, because a longer read has failed.
    pub careful_until: usize,
    pub mask: u64,
    pub matches: Vec<PointerMatch>,
}

impl PointerSearch {
    /// The search looks at whole words only, each a multiple of the word size from the
    /// base.
    pub open spec fn wf(&self) -> bool {
        &&& self.base + self.size <= u64::MAX
        &&& self.page_size > 0
        &&& self.offset % 8 == 0
        &&& self.offset <= self.size
        &&& self.careful_until <= self.size
    }

    /// Begins a search; `base` carries no tag.
    pub fn new(base: u64, size: usize, page_size: u64, mask: u64) -> (search: PointerSearch)
        requires
            page_size > 0,
        ensures
            search.wf(),
            search.base == base,
            search.size == reachable(base, size),
            search.page_size == page_size,
            search.offset == 0,
            search.careful_until == 0,
            search.mask == mask,
            search.matches@ == Seq::<PointerMatch>::empty(),
    {
        let room: u64 = u64::MAX - base;
        let size: usize = if size as u64 <= room {
            size
        } else {
            (room / SCAN_CHUNK as u64 * SCAN_CHUNK as u64) as usize
        };
        PointerSearch {
            base,
            size,
            page_size,
            offset: 0,
            careful_until: 0,
            mask,
            matches: Vec::new(),
        }
    }

    /// Whether nothing but the place and the matches differs.
    pub open spec fn same_range(&self, other: &PointerSearch) -> bool {
        &&& self.base == other.base
        &&& self.size == other.size
        &&& self.page_size == other.page_size
        &&& self.mask == other.mask
    }

    /// The bytes of the whole words that are left.
    pub open spec fn left(&self) -> nat {
        (8 * ((self.size - self.offset) / 8)) as nat
    }

    /// The bytes of the whole words up to the end of the page, or of the one word that
    /// lies across it.
    pub open spec fn page_piece(&self) -> nat {
        let room = self.page_size - (self.base + self.offset) % self.page_size as int;
        if room < 8 {
            8
        } else {
            (8 * (room / 8)) as nat
        }
    }

    /// The length of the next read.
    pub open spec fn next_length(&self) -> nat {
        let most = if self.offset < self.careful_until {
            self.page_piece()
        } else {
            SCAN_CHUNK as nat
        };
        if self.left() < most {
            self.left()
        } else {
            most
        }
    }

    /// What has to be read next, as long as a whole word is left.
    pub fn next_request(&self) -> (request: Option<ReadRequest>)
        requires
            self.wf(),
        ensures
            request == if self.offset + POINTER_SIZE <= self.size {
                Some(
                    ReadRequest {
                        address: (self.base + self.offset) as u64,
                        length: self.next_length() as usize,
                    },
                )
            } else {
                None
            },
            self.offset + POINTER_SIZE <= self.size ==> {
                &&& 8 <= self.next_length() <= self.size - self.offset
                &&& self.next_length() % 8 == 0
            },
    {
        if self.size - self.offset < POINTER_SIZE {
            return None;
        }
        let left: usize = (self.size - self.offset) / 8 * 8;
        let address: u64 = self.base + self.offset as u64;
        let most: u64 = if self.offset < self.careful_until {
            let room: u64 = self.page_size - address % self.page_size;
            if room < 8 {
                8
            } else {
                room / 8 * 8
            }
        } else {
            SCAN_CHUNK as u64
        };
        let length: usize = if (left as u64) < most {
            left
        } else {
            most as usize
        };
        Some(ReadRequest { address, length })
    }

    /// Takes in that the memory could not be read. A longer read is made again page by
    /// page; what lies on one page, or is one word, is passed over. A range of a module
    /// holds guard pages.
    pub fn skip(&mut self)
        requires
            old(self).wf(),
            old(self).offset + POINTER_SIZE <= old(self).size,
        ensures
            final(self).wf(),
            final(self).same_range(old(self)),
            final(self).matches@ == old(self).matches@,
            if old(self).offset < old(self).careful_until {
                &&& final(self).offset == old(self).offset + old(self).next_length()
                &&& final(self).careful_until == old(self).careful_until
            } else {
                &&& final(self).offset == old(self).offset
                &&& final(self).careful_until == old(self).offset + old(self).next_length()
            },
    {
        match self.next_request() {
            Some(request) => {
                if self.offset < self.careful_until {
                    self.offset = self.offset + request.length;
                } else {
                    self.careful_until = self.offset + request.length;
                }
            },
            None => {},
        }
    }

    /// Looks at the words of what was read.
    pub fn feed(&mut self, chunk: &[u8], values: &HashSet<u64>)
        requires
            old(self).wf(),
            old(self).offset + POINTER_SIZE <= old(self).size,
            chunk@.len() == old(self).next_length(),
        ensures
            final(self).wf(),
            final(self).same_range(old(self)),
            final(self).careful_until == old(self).careful_until,
            final(self).offset == old(self).offset + old(self).next_length(),
            final(self).matches@ == old(self).matches@ + wanted_words(
                (old(self).base + old(self).offset) as u64,
                chunk@,
                chunk@.len() / 8,
                values@,
                old(self).mask,
            ),
    {
        let words: usize = chunk.len() / 8;
        let start: u64 = self.base + self.offset as u64;
        let ghost earlier = self.matches@;
        let mut index: usize = 0;
        assert(chunk@.len() % 8 == 0);
        assert(earlier + wanted_words(start, chunk@, 0, values@, self.mask) =~= earlier);
        while index < words
            invariant
                index <= words,
                words == chunk@.len() / 8,
                chunk@.len() <= usize::MAX,
                start == self.base + self.offset,
                start + chunk@.len() <= u64::MAX,
                self.same_range(old(self)),
                self.offset == old(self).offset,
                self.careful_until == old(self).careful_until,
                self.matches@ == earlier + wanted_words(
                    start,
                    chunk@,
                    index as nat,
                    values@,
                    self.mask,
                ),
            decreases words - index,
        {
            let word: u64 = read_le(chunk, 8 * index, 8);
            assert(word == word_at(chunk@, index as int));
            if values.contains(&(word & self.mask)) {
                self.matches.push(
                    PointerMatch { address: start + 8 * index as u64, value: word },
                );
            }
            index = index + 1;
            assert(self.matches@ =~= earlier + wanted_words(
                start,
                chunk@,
                index as nat,
                values@,
                self.mask,
            ));
        }
        self.offset = self.offset + 8 * words;
    }

    /// Whether the matches are exactly the wanted words up to here that can be read.
    pub open spec fn is_exact(
        &self,
        memory: Seq<u8>,
        readable: spec_fn(int) -> bool,
        values: Set<u64>,
    ) -> bool {
        self.matches@ == readable_wanted_words(
            self.base,
            memory,
            (self.offset / 8) as nat,
            self.page_size as int,
            readable,
            values,
            self.mask,
        )
    }
}

proof fn lemma_read_words(
    base: u64,
    memory: Seq<u8>,
    count: nat,
    more: nat,
    page_size: int,
    readable: spec_fn(int) -> bool,
    values: Set<u64>,
    mask: u64,
)
    requires
        8 * (count + more) <= memory.len(),
        base + memory.len() <= u64::MAX,
        can_be_read(base + 8 * count, 8 * more as int, page_size, readable),
    ensures
        readable_wanted_words(base, memory, count + more, page_size, readable, values, mask)
            == readable_wanted_words(base, memory, count, page_size, readable, values, mask)
            + wanted_words(
            (base + 8 * count) as u64,
            memory.subrange(8 * count as int, (8 * (count + more)) as int),
            more,
            values,
            mask,
        ),
    decreases more,
{
    let start = (base + 8 * count) as u64;
    let front = readable_wanted_words(base, memory, count, page_size, readable, values, mask);
    let chunk = memory.subrange(8 * count as int, (8 * (count + more)) as int);
    if more == 0 {
        assert(front + wanted_words(start, chunk, 0, values, mask) =~= front);
    } else {
        let fewer = (more - 1) as nat;
        let index = (count + fewer) as nat;
        let shorter = memory.subrange(8 * count as int, (8 * (count + fewer)) as int);
        assert forall|address: int|
            base + 8 * count <= address < base + 8 * count + 8 * fewer implies #[trigger]
        on_readable_page(address, page_size, readable) by {}
        lemma_read_words(base, memory, count, fewer, page_size, readable, values, mask);
        assert(chunk.take(shorter.len() as int) =~= shorter);
        lemma_same_words(start, shorter, chunk, fewer, values, mask);
        assert(chunk.subrange(8 * fewer as int, (8 * fewer + 8) as int) =~= memory.subrange(
            8 * index as int,
            (8 * index + 8) as int,
        ));
        assert(word_at(chunk, fewer as int) == word_at(memory, index as int));
        assert forall|address: int|
            base + 8 * index <= address < base + 8 * index + 8 implies #[trigger]
        on_readable_page(address, page_size, readable) by {}
        assert(can_be_read(base + 8 * index, 8, page_size, readable));
        assert(readable_wanted_words(base, memory, count + more, page_size, readable, values, mask)
            =~= front + wanted_words(start, chunk, more, values, mask));
    }
}

proof fn lemma_same_words(
    address: u64,
    shorter: Seq<u8>,
    longer: Seq<u8>,
    count: nat,
    values: Set<u64>,
    mask: u64,
)
    requires
        8 * count <= shorter.len() <= longer.len(),
        longer.take(shorter.len() as int) == shorter,
    ensures
        wanted_words(address, shorter, count, values, mask) == wanted_words(
            address,
            longer,
            count,
            values,
            mask,
        ),
    decreases count,
{
    if count > 0 {
        let index = (count - 1) as nat;
        lemma_same_words(address, shorter, longer, index, values, mask);
        assert(shorter.subrange(8 * index as int, (8 * index + 8) as int) =~= longer.subrange(
            8 * index as int,
            (8 * index + 8) as int,
        ));
    }
}

proof fn lemma_unread_words(
    base: u64,
    memory: Seq<u8>,
    count: nat,
    more: nat,
    page_size: int,
    readable: spec_fn(int) -> bool,
    values: Set<u64>,
    mask: u64,
)
    requires
        forall|index: int|
            count <= index < count + more ==> !can_be_read(
                #[trigger] (base + 8 * index),
                8,
                page_size,
                readable,
            ),
    ensures
        readable_wanted_words(base, memory, count + more, page_size, readable, values, mask)
            == readable_wanted_words(base, memory, count, page_size, readable, values, mask),
    decreases more,
{
    if more > 0 {
        let fewer = (more - 1) as nat;
        lemma_unread_words(base, memory, count, fewer, page_size, readable, values, mask);
        let index = count + fewer;
        assert(!can_be_read(base + 8 * index, 8, page_size, readable));
    }
}

proof fn lemma_one_page(start: int, length: int, page_size: int, address: int)
    requires
        page_size > 0,
        0 <= start <= address < start + length,
        start % page_size + length <= page_size,
    ensures
        address / page_size == start / page_size,
{
    vstd::arithmetic::div_mod::lemma_fundamental_div_mod(start, page_size);
    vstd::arithmetic::div_mod::lemma_mod_bound(start, page_size);
    vstd::arithmetic::mul::lemma_mul_is_commutative(page_size, start / page_size);
    vstd::arithmetic::div_mod::lemma_fundamental_div_mod_converse(
        address,
        page_size,
        start / page_size,
        start % page_size + (address - start),
    );
}

/// A read that succeeds keeps the search exact, and so does one that fails: only words
/// that lie on an unreadable page, in whole or in part, are passed over. When no word is
/// left the matches are those of the whole range.
pub proof fn one_unreadable_page_costs_that_page(
    before: PointerSearch,
    after: PointerSearch,
    memory: Seq<u8>,
    readable: spec_fn(int) -> bool,
    values: Set<u64>,
)
    requires
        before.wf(),
        before.offset + POINTER_SIZE <= before.size,
        memory.len() == before.size,
        before.is_exact(memory, readable, values),
        after.same_range(&before),
        if can_be_read(
            before.base + before.offset,
            before.next_length() as int,
            before.page_size as int,
            readable,
        ) {
            let chunk = memory.subrange(
                before.offset as int,
                before.offset + before.next_length(),
            );
            &&& after.offset == before.offset + before.next_length()
            &&& after.matches@ == before.matches@ + wanted_words(
                (before.base + before.offset) as u64,
                chunk,
                chunk.len() / 8,
                values,
                before.mask,
            )
        } else {
            &&& after.matches@ == before.matches@
            &&& after.offset == before.offset + if before.offset < before.careful_until {
                before.next_length()
            } else {
                0
            }
        },
    ensures
        after.is_exact(memory, readable, values),
{
    let start = before.base + before.offset;
    let length = before.next_length() as int;
    let page = before.page_size as int;
    let count = (before.offset / 8) as nat;
    let more = (length / 8) as nat;
    assert(length % 8 == 0 && 8 <= length <= before.size - before.offset);
    if can_be_read(start, length, page, readable) {
        lemma_read_words(before.base, memory, count, more, page, readable, values, before.mask);
        assert(memory.subrange(8 * count as int, (8 * (count + more)) as int) =~= memory.subrange(
            before.offset as int,
            before.offset + length,
        ));
    } else if before.offset < before.careful_until {
        let missing = choose|address: int|
            start <= address < start + length && !#[trigger] on_readable_page(
                address,
                page,
                readable,
            );
        assert forall|index: int| count <= index < count + more implies !can_be_read(
            #[trigger] (before.base + 8 * index),
            8,
            page,
            readable,
        ) by {
            let word = before.base + 8 * index;
            if length == 8 {
                assert(word <= missing < word + 8);
                assert(!on_readable_page(missing, page, readable));
            } else {
                assert(start % page + length <= page);
                lemma_one_page(start, length, page, missing);
                lemma_one_page(start, length, page, word);
                assert(!on_readable_page(word, page, readable));
            }
        }
        lemma_unread_words(before.base, memory, count, more, page, readable, values, before.mask);
    }
}

/// Which pages a list says can be read, the first being the one with the given number.
pub open spec fn listed_pages(first: int, pages: Seq<bool>) -> spec_fn(int) -> bool {
    |page: int| 0 <= page - first < pages.len() && pages[page - first]
}

fn pages_can_be_read(address: u64, length: usize, page_size: u64, first: u64, pages: &Vec<bool>) -> (can:
    bool)
    requires
        page_size > 0,
        length > 0,
        address + length <= u64::MAX,
        first <= address as int / page_size as int,
    ensures
        can == can_be_read(
            address as int,
            length as int,
            page_size as int,
            listed_pages(first as int, pages@),
        ),
{
    let ghost readable = listed_pages(first as int, pages@);
    let ghost size = page_size as int;
    let mut page: u64 = address / page_size;
    let last: u64 = (address + (length as u64 - 1)) / page_size;
    let ghost begin = page;
    proof {
        vstd::arithmetic::div_mod::lemma_div_is_ordered(
            address as int,
            address + (length - 1),
            size,
        );
    }
    while page <= last
        invariant
            page_size > 0,
            size == page_size,
            length > 0,
            address + length <= u64::MAX,
            begin == address as int / size,
            last == (address + (length - 1)) / size,
            first <= begin <= page,
            page <= last + 1,
            readable == listed_pages(first as int, pages@),
            forall|k: int| begin <= k < page ==> #[trigger] readable(k),
        ensures
            forall|k: int| begin <= k <= last ==> #[trigger] readable(k),
        decreases last + 1 - page,
    {
        let at: u64 = page - first;
        if at >= pages.len() as u64 || !pages[at as usize] {
            proof {
                let missing = if page == begin {
                    address as int
                } else {
                    page * size
                };
                if page == begin {
                } else {
                    vstd::arithmetic::div_mod::lemma_fundamental_div_mod(address as int, size);
                    vstd::arithmetic::div_mod::lemma_fundamental_div_mod(
                        address + (length - 1),
                        size,
                    );
                    vstd::arithmetic::mul::lemma_mul_inequality(begin + 1, page as int, size);
                    vstd::arithmetic::mul::lemma_mul_inequality(page as int, last as int, size);
                    vstd::arithmetic::mul::lemma_mul_is_distributive_add_other_way(
                        size,
                        begin as int,
                        1,
                    );
                    vstd::arithmetic::mul::lemma_mul_is_commutative(size, begin as int);
                    vstd::arithmetic::mul::lemma_mul_is_commutative(size, last as int);
                    vstd::arithmetic::div_mod::lemma_div_multiples_vanish(page as int, size);
                    vstd::arithmetic::mul::lemma_mul_is_commutative(size, page as int);
                }
                assert(!readable(page as int));
                assert(!on_readable_page(missing, size, readable));
            }
            return false;
        }
        assert(readable(page as int));
        if page == last {
            break;
        }
        page = page + 1;
    }
    proof {
        assert forall|a: int| address <= a < address + length implies #[trigger] on_readable_page(
            a,
            size,
            readable,
        ) by {
            vstd::arithmetic::div_mod::lemma_div_is_ordered(address as int, a, size);
            vstd::arithmetic::div_mod::lemma_div_is_ordered(a, address + (length - 1), size);
            assert(readable(a / size));
        }
    }
    true
}

/// Searches a range whose bytes are given, as far as it is looked at, and of which only some
/// pages can be read; `pages`
/// says of each page that the range touches whether it can. The matches are appended in
/// the order of their addresses.
pub fn find_in_range(
    range: &Range,
    page_size: u64,
    memory: &[u8],
    pages: &Vec<bool>,
    values: &HashSet<u64>,
    mask: u64,
    matches: &mut Vec<PointerMatch>,
)
    requires
        page_size > 0,
        memory@.len() == reachable(range.base, range.size),
    ensures
        final(matches)@ == old(matches)@ + readable_wanted_words(
            range.base,
            memory@,
            (reachable(range.base, range.size) / 8) as nat,
            page_size as int,
            listed_pages(range.base as int / page_size as int, pages@),
            values@,
            mask,
        ),
{
    let mut search: PointerSearch = PointerSearch::new(range.base, range.size, page_size, mask);
    let first: u64 = range.base / page_size;
    let ghost readable = listed_pages(range.base as int / page_size as int, pages@);
    let mut more: bool = true;
    while more
        invariant
            search.wf(),
            search.base == range.base,
            search.size == reachable(range.base, range.size),
            search.page_size == page_size,
            search.mask == mask,
            memory@.len() == search.size,
            first == range.base as int / page_size as int,
            readable == listed_pages(first as int, pages@),
            search.is_exact(memory@, readable, values@),
            !more ==> search.offset + POINTER_SIZE > search.size,
        decreases
            (if more {1int} else {0int}),
            search.size - search.offset,
            if search.offset < search.careful_until {0int} else {1int},
    {
        let ghost before = search;
        match search.next_request() {
            None => {
                more = false;
            },
            Some(request) => {
                proof {
                    vstd::arithmetic::div_mod::lemma_div_is_ordered(
                        range.base as int,
                        request.address as int,
                        page_size as int,
                    );
                }
                let chunk: &[u8] = slice_subrange(
                    memory,
                    search.offset,
                    search.offset + request.length,
                );
                if pages_can_be_read(request.address, request.length, page_size, first, pages) {
                    search.feed(chunk, values);
                } else {
                    search.skip();
                }
                proof {
                    one_unreadable_page_costs_that_page(
                        before,
                        search,
                        memory@,
                        readable,
                        values@,
                    );
                }
            },
        }
    }
    assert(search.offset / 8 == search.size / 8);
    matches.append(&mut search.matches);
}

/// Every pointer that is reported is an aligned word of the memory whose masked value is
/// wanted.
pub proof fn reported_pointers_are_wanted(
    address: u64,
    bytes: Seq<u8>,
    count: nat,
    values: Set<u64>,
    mask: u64,
    k: int,
)
    requires
        8 * count <= bytes.len(),
        address + bytes.len() <= u64::MAX,
        0 <= k < wanted_words(address, bytes, count, values, mask).len(),
    ensures
        ({
            let found = wanted_words(address, bytes, count, values, mask)[k];
            exists|index: int|
                0 <= index < count && found.address == address + 8 * index && found.value
                    == #[trigger] word_at(bytes, index) && values.contains(found.value & mask)
        }),
    decreases count,
{
    let index = (count - 1) as nat;
    let front = wanted_words(address, bytes, index, values, mask);
    if k < front.len() {
        reported_pointers_are_wanted(address, bytes, index, values, mask, k);
        let j = choose|j: int|
            0 <= j < index && front[k].address == address + 8 * j && front[k].value
                == #[trigger] word_at(bytes, j) && values.contains(front[k].value & mask);
        assert(0 <= j < count && front[k].value == word_at(bytes, j));
    } else {
        let word = word_at(bytes, index as int);
        assert(wanted_words(address, bytes, count, values, mask)[k].value == word);
    }
}

/// Nothing is looked at of a range that is no longer than one read and passes the end of
/// memory.
pub proof fn ranges_past_the_end_hold_nothing(base: u64, size: usize)
    requires
        base + size > u64::MAX,
        size <= SCAN_CHUNK,
    ensures
        reachable(base, size) == 0,
{
}

/// Every wanted word of a range that can be read is reported.
pub proof fn wanted_pointers_are_reported(
    base: u64,
    memory: Seq<u8>,
    count: nat,
    page_size: int,
    readable: spec_fn(int) -> bool,
    values: Set<u64>,
    mask: u64,
    index: int,
)
    requires
        0 <= index < count,
        can_be_read(base + 8 * index, 8, page_size, readable),
        values.contains(word_at(memory, index) & mask),
    ensures
        readable_wanted_words(base, memory, count, page_size, readable, values, mask).contains(
            PointerMatch { address: (base + 8 * index) as u64, value: word_at(memory, index) },
        ),
    decreases count,
{
    let last = (count - 1) as nat;
    let front = readable_wanted_words(base, memory, last, page_size, readable, values, mask);
    let all = readable_wanted_words(base, memory, count, page_size, readable, values, mask);
    let found = PointerMatch { address: (base + 8 * index) as u64, value: word_at(memory, index) };
    if index < last {
        wanted_pointers_are_reported(
            base,
            memory,
            last,
            page_size,
            readable,
            values,
            mask,
            index,
        );
        let k = choose|k: int| 0 <= k < front.len() && front[k] == found;
        assert(all[k] == found);
    } else {
        assert(all[front.len() as int] == found);
    }
}

/// Checks the size that a script gives for a range.
pub fn parse_range_size(size: Option<i64>) -> (result: Result<usize, ScriptError>)
    ensures
        result is Ok <==> size is Some && 0 <= size->0 <= MAX_RANGE,
        result matches Ok(bytes) ==> bytes == size->0,
        result matches Err(error) ==> error@ == (
            ErrorKind::InternalError,
            "Memory.findPointers() invalid range size"@,
        ),
{
    match size {
        Some(bytes) => {
            if bytes >= 0 && bytes <= MAX_RANGE {
                return Ok(bytes as usize);
            }
        },
        None => {},
    }
    Err(internal_error("Memory.findPointers() invalid range size"))
}

/// What a check of a code pointer yields: its first byte, if it could be read. `address`
/// carries neither a signature nor a tag.
pub fn check_code_pointer(address: u64, byte: Option<u8>) -> (result: Result<i64, ScriptError>)
    ensures
        byte matches Some(b) ==> result == Ok::<i64, ScriptError>(b as i64),
        byte is None ==> result is Err && result->Err_0@ == (
            ErrorKind::InternalError,
            "Memory.checkCodePointer(): "@ + prefixed_hex(address as nat) + " is not readable"@,
        ),
{
    match byte {
        Some(b) => Ok(b as i64),
        None => {
            let mut message: String = String::from_str("Memory.checkCodePointer(): ");
            push_prefixed_hex(&mut message, address);
            message.append(" is not readable");
            Err(ScriptError { kind: ErrorKind::InternalError, message })
        },
    }
}

/// A word is eight bytes, low byte first, and the words of some bytes follow one another.
pub proof fn words_are_eight_bytes(bytes: Seq<u8>, index: int)
    requires
        0 <= index,
        8 * index + 8 <= bytes.len(),
    ensures
        word_at(bytes, index) as int == bytes[8 * index] + 0x100 * bytes[8 * index + 1] + 0x1_0000
            * bytes[8 * index + 2] + 0x100_0000 * bytes[8 * index + 3] + 0x1_0000_0000 * bytes[8
            * index + 4] + 0x100_0000_0000 * bytes[8 * index + 5] + 0x1_0000_0000_0000 * bytes[8
            * index + 6] + 0x100_0000_0000_0000 * bytes[8 * index + 7],
{
    let row = bytes.subrange(8 * index, 8 * index + 8);
    crate::bytes::usual_rows_are_read_low_byte_first(row);
    crate::bytes::lemma_le_value_bound(row);
    crate::bytes::lemma_byte_ranges();
}

/// Pointers are reported in the order of their addresses, each once.
pub proof fn pointers_are_reported_in_order(
    address: u64,
    bytes: Seq<u8>,
    count: nat,
    values: Set<u64>,
    mask: u64,
    i: int,
    j: int,
)
    requires
        8 * count <= bytes.len(),
        address + bytes.len() <= u64::MAX,
        0 <= i < j < wanted_words(address, bytes, count, values, mask).len(),
    ensures
        wanted_words(address, bytes, count, values, mask)[i].address < wanted_words(
            address,
            bytes,
            count,
            values,
            mask,
        )[j].address,
    decreases count,
{
    let index = (count - 1) as nat;
    let front = wanted_words(address, bytes, index, values, mask);
    if j < front.len() {
        pointers_are_reported_in_order(address, bytes, index, values, mask, i, j);
    } else {
        reported_pointers_are_wanted(address, bytes, index, values, mask, i);
    }
}

/// A read is of whole words and within the range, up to 64 kibibytes; where a longer read has
/// failed it ends with the page, unless a single word lies across its end.
pub proof fn reads_are_whole_words(search: PointerSearch)
    requires
        search.wf(),
        search.size - search.offset >= 8,
        search.page_size >= 8,
        search.page_size % 8 == 0,
    ensures
        search.next_length() >= 8,
        search.next_length() % 8 == 0,
        search.offset + search.next_length() <= search.size,
        search.next_length() <= 0x1_0000 || search.offset < search.careful_until,
        search.offset >= search.careful_until && search.size - search.offset >= 0x1_0000
            ==> search.next_length() == 0x1_0000,
        search.offset < search.careful_until ==> search.next_length() == 8 || (search.base
            + search.offset) % search.page_size as int + search.next_length() <= search.page_size,
{
    let place = (search.base + search.offset) % search.page_size as int;
    vstd::arithmetic::div_mod::lemma_mod_bound(
        search.base + search.offset,
        search.page_size as int,
    );
}

} // verus!
