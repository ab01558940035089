//! Byte patterns with wildcards, as scripts write them.

use crate::text::digit_value;
use vstd::prelude::*;
use vstd::string::*;
use vstd::utf8::encode_utf8;

verus! {

/// Most bytes of a pattern.
pub const MAX_PATTERN_SIZE: usize = 1024 * 1024;

/// A row of bytes to look for. A bit of a byte counts only where its mask has it.
#[derive(Debug)]
pub struct MatchPattern {
    pub bytes: Vec<u8>,
    pub masks: Vec<u8>,
}

/// Whether a byte is ASCII white space.
pub open spec fn is_space(byte: u8) -> bool {
    byte == 0x20 || byte == 0x09 || byte == 0x0a || byte == 0x0c || byte == 0x0d
}

/// Whether a byte is a hexadecimal digit.
pub open spec fn is_hex(byte: u8) -> bool {
    (0x30 <= byte <= 0x39) || (0x61 <= byte <= 0x66) || (0x41 <= byte <= 0x46)
}

/// The value of a hexadecimal digit.
pub open spec fn hex_value(byte: u8) -> u8 {
    if 0x30 <= byte <= 0x39 {
        (byte - 0x30) as u8
    } else if 0x61 <= byte <= 0x66 {
        (byte - 0x61 + 10) as u8
    } else {
        (byte - 0x41 + 10) as u8
    }
}

/// The bytes without white space.
pub open spec fn without_spaces(input: Seq<u8>) -> Seq<u8>
    decreases input.len(),
{
    if input.len() == 0 {
        Seq::empty()
    } else if is_space(input.last()) {
        without_spaces(input.drop_last())
    } else {
        without_spaces(input.drop_last()).push(input.last())
    }
}

/// Whether a byte may stand in a pattern: a hexadecimal digit, or the wildcard.
pub open spec fn is_nibble(byte: u8, wildcards: bool) -> bool {
    is_hex(byte) || (wildcards && byte == 0x3f)
}

/// Whether all bytes may stand in a pattern.
pub open spec fn all_nibbles(nibbles: Seq<u8>, wildcards: bool) -> bool {
    forall|i: int| 0 <= i < nibbles.len() ==> is_nibble(#[trigger] nibbles[i], wildcards)
}

/// Where the first colon is, or the end.
pub open spec fn first_colon(input: Seq<u8>, from: int) -> int
    decreases input.len() - from,
{
    if from < 0 || from >= input.len() {
        input.len() as int
    } else if input[from] == 0x3a {
        from
    } else {
        first_colon(input, from + 1)
    }
}

/// The part of the input that gives the bytes.
pub open spec fn match_part(input: Seq<u8>) -> Seq<u8> {
    input.take(first_colon(input, 0))
}

/// The part of the input that gives the masks, if there is one.
pub open spec fn mask_part(input: Seq<u8>) -> Option<Seq<u8>> {
    let colon = first_colon(input, 0);
    if colon < input.len() {
        Some(input.skip(colon + 1))
    } else {
        None
    }
}

/// The value of one digit of a pattern: a wildcard counts as zero.
pub open spec fn nibble_value(byte: u8) -> u8 {
    if byte == 0x3f {
        0
    } else {
        hex_value(byte)
    }
}

/// Which bits of one digit of a pattern count.
pub open spec fn nibble_mask(byte: u8) -> u8 {
    if byte == 0x3f {
        0
    } else {
        15
    }
}

/// The bytes that pairs of digits stand for.
pub open spec fn pattern_bytes(nibbles: Seq<u8>) -> Seq<u8> {
    Seq::new(
        nibbles.len() / 2,
        |i: int| (nibble_value(nibbles[2 * i]) * 16 + nibble_value(nibbles[2 * i + 1])) as u8,
    )
}

/// The masks of pairs of digits, cut to the explicit mask if there is one.
pub open spec fn pattern_masks(nibbles: Seq<u8>, explicit: Option<Seq<u8>>) -> Seq<u8> {
    Seq::new(
        nibbles.len() / 2,
        |i: int|
            {
                let mask = (nibble_mask(nibbles[2 * i]) * 16 + nibble_mask(nibbles[2 * i + 1]))
                    as u8;
                match explicit {
                    None => mask,
                    Some(digits) => mask & ((hex_value(digits[2 * i]) * 16 + hex_value(
                        digits[2 * i + 1],
                    )) as u8),
                }
            },
    )
}

/// The digits of the explicit mask.
pub open spec fn explicit_digits(input: Seq<u8>) -> Option<Seq<u8>> {
    match mask_part(input) {
        Some(part) => Some(without_spaces(part)),
        None => None,
    }
}

/// Why a pattern is refused. The first and the last byte must not be wildcards.
pub open spec fn pattern_problem(input: Seq<u8>) -> Option<Seq<char>> {
    let nibbles = without_spaces(match_part(input));
    let masks = pattern_masks(nibbles, explicit_digits(input));
    if mask_part(input) matches Some(part) && first_colon(part, 0) < part.len() {
        Some("invalid match pattern"@)
    } else if !all_nibbles(nibbles, true) || nibbles.len() == 0 || nibbles.len() % 2 != 0 {
        Some("invalid match pattern"@)
    } else if nibbles.len() / 2 > MAX_PATTERN_SIZE {
        Some("match pattern is too large"@)
    } else if explicit_digits(input) matches Some(digits) && (!all_nibbles(digits, false)
        || digits.len() != nibbles.len()) {
        Some("invalid match pattern"@)
    } else if masks[0] == 0 || masks.last() == 0 {
        Some("invalid match pattern"@)
    } else {
        None
    }
}

/// Whether a pattern matches bytes: all bits that count agree.
pub open spec fn matches_bytes(bytes: Seq<u8>, masks: Seq<u8>, candidate: Seq<u8>) -> bool {
    forall|i: int|
        0 <= i < bytes.len() && i < masks.len() && i < candidate.len() ==> (#[trigger] candidate[i])
            & masks[i] == bytes[i] & masks[i]
}

fn compact_nibbles(input: &[u8], allow_wildcards: bool) -> (result: Option<Vec<u8>>)
    ensures
        result is Some <==> all_nibbles(without_spaces(input@), allow_wildcards),
        result matches Some(nibbles) ==> nibbles@ == without_spaces(input@),
{
    let mut nibbles: Vec<u8> = Vec::new();
    let mut i: usize = 0;
    assert(input@.take(0) =~= Seq::<u8>::empty());
    while i < input.len()
        invariant
            i <= input@.len(),
            nibbles@ == without_spaces(input@.take(i as int)),
            all_nibbles(nibbles@, allow_wildcards),
        decreases input@.len() - i,
    {
        let byte: u8 = input[i];
        assert(input@.take(i + 1).drop_last() =~= input@.take(i as int));
        let space: bool = byte == 0x20 || byte == 0x09 || byte == 0x0a || byte == 0x0c || byte
            == 0x0d;
        if !space {
            let hex: bool = (0x30 <= byte && byte <= 0x39) || (0x61 <= byte && byte <= 0x66) || (
            0x41 <= byte && byte <= 0x46);
            nibbles.push(byte);
            if !(hex || (allow_wildcards && byte == 0x3f)) {
                proof {
                    lemma_without_spaces_prefix(input@, i + 1);
                    let all = without_spaces(input@);
                    let k = nibbles@.len() - 1;
                    assert(all[k] == byte);
                    assert(!is_nibble(all[k], allow_wildcards));
                }
                return None;
            }
        }
        i = i + 1;
    }
    assert(input@.take(input@.len() as int) =~= input@);
    Some(nibbles)
}

proof fn lemma_without_spaces_prefix(input: Seq<u8>, count: int)
    requires
        0 <= count <= input.len(),
    ensures
        without_spaces(input.take(count)).len() <= without_spaces(input).len(),
        forall|i: int|
            0 <= i < without_spaces(input.take(count)).len() ==> #[trigger] without_spaces(input)[i]
                == without_spaces(input.take(count))[i],
    decreases input.len(),
{
    if count < input.len() {
        assert(input.drop_last().take(count) =~= input.take(count));
        lemma_without_spaces_prefix(input.drop_last(), count);
    } else {
        assert(input.take(count) =~= input);
    }
}

fn find_colon(input: &[u8]) -> (index: usize)
    ensures
        index == first_colon(input@, 0),
        index <= input@.len(),
{
    let mut i: usize = 0;
    while i < input.len() && input[i] != 0x3a
        invariant
            i <= input@.len(),
            first_colon(input@, 0) == first_colon(input@, i as int),
        decreases input@.len() - i,
    {
        i = i + 1;
    }
    i
}

fn hex_nibble(byte: u8) -> (value: u8)
    requires
        is_hex(byte),
    ensures
        value == hex_value(byte),
        value < 16,
{
    if 0x30 <= byte && byte <= 0x39 {
        byte - 0x30
    } else if 0x61 <= byte && byte <= 0x66 {
        byte - 0x61 + 10
    } else {
        byte - 0x41 + 10
    }
}

/// Whether a pattern is the one that a text denotes.
pub open spec fn denotes_pattern(text: Seq<char>, pattern: MatchPattern) -> bool {
    let nibbles = without_spaces(match_part(encode_utf8(text)));
    &&& pattern.bytes@ == pattern_bytes(nibbles)
    &&& pattern.masks@ == pattern_masks(nibbles, explicit_digits(encode_utf8(text)))
}

impl MatchPattern {
    /// A pattern is not empty and neither begins nor ends with a wildcard byte.
    pub open spec fn wf(&self) -> bool {
        &&& 0 < self.bytes@.len() <= MAX_PATTERN_SIZE
        &&& self.masks@.len() == self.bytes@.len()
        &&& self.masks@[0] != 0
        &&& self.masks@.last() != 0
    }

    /// Reads a pattern: pairs of hexadecimal digits or wildcards, and behind a colon
    /// pairs of digits for the masks.
    pub fn parse(input: &str) -> (result: Result<MatchPattern, &'static str>)
        ensures
            result is Ok <==> pattern_problem(encode_utf8(input@)) is None,
            result matches Err(message) ==> pattern_problem(encode_utf8(input@)) == Some(message@),
            result matches Ok(pattern) ==> pattern.wf() && denotes_pattern(input@, pattern),
    {
        let text: &[u8] = input.as_bytes();
        let length: usize = text.len();
        let colon: usize = find_colon(text);
        let front: &[u8] = vstd::slice::slice_subrange(text, 0, colon);
        assert(front@ =~= match_part(text@));
        let has_mask: bool = colon < length;
        let rest_start: usize = if has_mask {
            colon + 1
        } else {
            length
        };
        let rest: &[u8] = vstd::slice::slice_subrange(text, rest_start, length);
        assert(has_mask ==> rest@ =~= mask_part(text@)->0);
        if has_mask && find_colon(rest) < rest.len() {
            return Err("invalid match pattern");
        }
        let nibbles: Vec<u8> = match compact_nibbles(front, true) {
            Some(nibbles) => nibbles,
            None => {
                return Err("invalid match pattern");
            },
        };
        if nibbles.len() == 0 || nibbles.len() % 2 != 0 {
            return Err("invalid match pattern");
        }
        let size: usize = nibbles.len() / 2;
        if size > MAX_PATTERN_SIZE {
            return Err("match pattern is too large");
        }
        let mut digits: Vec<u8> = Vec::new();
        if has_mask {
            match compact_nibbles(rest, false) {
                Some(found) => {
                    if found.len() != nibbles.len() {
                        return Err("invalid match pattern");
                    }
                    digits = found;
                },
                None => {
                    return Err("invalid match pattern");
                },
            }
        }
        let ghost explicit = explicit_digits(text@);
        assert(explicit == if has_mask {
            Some(digits@)
        } else {
            None
        });
        let mut bytes: Vec<u8> = Vec::new();
        let mut masks: Vec<u8> = Vec::new();
        let mut index: usize = 0;
        while index < size
            invariant
                index <= size,
                nibbles@.len() == 2 * size,
                size <= MAX_PATTERN_SIZE,
                all_nibbles(nibbles@, true),
                has_mask ==> digits@.len() == nibbles@.len() && all_nibbles(digits@, false),
                explicit == if has_mask {
                    Some(digits@)
                } else {
                    None
                },
                bytes@ == pattern_bytes(nibbles@).take(index as int),
                masks@ == pattern_masks(nibbles@, explicit).take(index as int),
            decreases size - index,
        {
            let upper: u8 = nibbles[2 * index];
            let lower: u8 = nibbles[2 * index + 1];
            assert(is_nibble(nibbles@[2 * index as int], true));
            assert(is_nibble(nibbles@[2 * index as int + 1], true));
            let (upper_value, upper_mask): (u8, u8) = pattern_nibble(upper);
            let (lower_value, lower_mask): (u8, u8) = pattern_nibble(lower);
            let mut mask: u8 = upper_mask * 16 + lower_mask;
            if has_mask {
                assert(is_nibble(digits@[2 * index as int], false));
                assert(is_nibble(digits@[2 * index as int + 1], false));
                let high: u8 = hex_nibble(digits[2 * index]);
                let low: u8 = hex_nibble(digits[2 * index + 1]);
                mask = mask & (high * 16 + low);
            }
            bytes.push(upper_value * 16 + lower_value);
            masks.push(mask);
            index = index + 1;
            assert(bytes@ =~= pattern_bytes(nibbles@).take(index as int));
            assert(masks@ =~= pattern_masks(nibbles@, explicit).take(index as int));
        }
        assert(bytes@ =~= pattern_bytes(nibbles@));
        assert(masks@ =~= pattern_masks(nibbles@, explicit));
        if masks[0] == 0 || masks[size - 1] == 0 {
            return Err("invalid match pattern");
        }
        Ok(MatchPattern { bytes, masks })
    }

    /// The number of bytes that a match has.
    pub fn len(&self) -> (length: usize)
        ensures
            length == self.bytes@.len(),
    {
        self.bytes.len()
    }

    /// Whether the pattern matches bytes.
    pub fn matches(&self, candidate: &[u8]) -> (matched: bool)
        ensures
            matched == matches_bytes(self.bytes@, self.masks@, candidate@),
    {
        let mut i: usize = 0;
        while i < self.bytes.len() && i < self.masks.len() && i < candidate.len()
            invariant
                i <= self.bytes@.len(),
                i <= self.masks@.len(),
                i <= candidate@.len(),
                forall|k: int|
                    0 <= k < i ==> (#[trigger] candidate@[k]) & self.masks@[k] == self.bytes@[k]
                        & self.masks@[k],
            decreases self.bytes@.len() - i,
        {
            if candidate[i] & self.masks[i] != self.bytes[i] & self.masks[i] {
                return false;
            }
            i = i + 1;
        }
        true
    }
}

fn pattern_nibble(byte: u8) -> (parts: (u8, u8))
    requires
        is_nibble(byte, true),
    ensures
        parts.0 == nibble_value(byte),
        parts.1 == nibble_mask(byte),
        parts.0 < 16,
        parts.1 < 16,
{
    if byte == 0x3f {
        (0, 0)
    } else {
        (hex_nibble(byte), 15)
    }
}

/// A pattern without wildcards and masks matches exactly its own bytes.
pub proof fn exact_patterns_match_themselves(bytes: Seq<u8>, masks: Seq<u8>, candidate: Seq<u8>)
    requires
        bytes.len() == masks.len(),
        candidate.len() == bytes.len(),
        forall|i: int| 0 <= i < masks.len() ==> #[trigger] masks[i] == 0xff,
    ensures
        matches_bytes(bytes, masks, candidate) <==> candidate == bytes,
{
    assert forall|i: int| 0 <= i < bytes.len() implies (#[trigger] candidate[i] & masks[i]
        == bytes[i] & masks[i] <==> candidate[i] == bytes[i]) by {
        assert(masks[i] == 0xff);
        let a = candidate[i];
        let b = bytes[i];
        assert(a & 0xff == b & 0xff <==> a == b) by (bit_vector);
    }
    if matches_bytes(bytes, masks, candidate) {
        assert(candidate =~= bytes);
    }
}

proof fn lemma_spaces_are_filtered(input: Seq<u8>)
    ensures
        without_spaces(input) == input.filter(
            |b: u8| b != 0x20 && b != 0x09 && b != 0x0a && b != 0x0c && b != 0x0d,
        ),
    decreases input.len(),
{
    reveal(Seq::filter);
    if input.len() > 0 {
        lemma_spaces_are_filtered(input.drop_last());
    }
}

proof fn lemma_first_colon_at(input: Seq<u8>, from: int, colon: int)
    requires
        0 <= from <= colon <= input.len(),
        forall|i: int| from <= i < colon ==> #[trigger] input[i] != 0x3a,
        colon < input.len() ==> input[colon] == 0x3a,
    ensures
        first_colon(input, from) == colon,
    decreases colon - from,
{
    if from < colon {
        lemma_first_colon_at(input, from + 1, colon);
    }
}

proof fn lemma_halves_decide(a: u8, bu: u8, bl: u8, mu: u8, ml: u8, eu: u8, el: u8)
    requires
        bu < 16,
        bl < 16,
        eu < 16,
        el < 16,
        mu == 0 || mu == 15,
        ml == 0 || ml == 15,
    ensures
        ({
            let byte = (bu * 16 + bl) as u8;
            let mask = ((mu * 16 + ml) as u8) & ((eu * 16 + el) as u8);
            a & mask == byte & mask <==> (mu == 0 || (a / 16) & eu == bu & eu) && (ml == 0 || (a
                % 16) & el == bl & el)
        }),
        ((mu * 16 + ml) as u8) & 0xff == (mu * 16 + ml) as u8,
        (a / 16) & 15 == a / 16,
        (a % 16) & 15 == a % 16,
        bu & 15 == bu,
        bl & 15 == bl,
{
    assert({
        let byte = (bu * 16 + bl) as u8;
        let mask = ((mu * 16 + ml) as u8) & ((eu * 16 + el) as u8);
        a & mask == byte & mask <==> (mu == 0 || (a / 16) & eu == bu & eu) && (ml == 0 || (a % 16)
            & el == bl & el)
    }) by (bit_vector)
        requires
            bu < 16,
            bl < 16,
            eu < 16,
            el < 16,
            mu == 0 || mu == 15,
            ml == 0 || ml == 15,
    ;
    let m = (mu * 16 + ml) as u8;
    assert(m & 0xff == m && (a / 16) & 15 == a / 16 && (a % 16) & 15 == a % 16) by (bit_vector);
    assert(bu & 15 == bu && bl & 15 == bl) by (bit_vector)
        requires
            bu < 16,
            bl < 16,
    ;
}

/// Which texts without a colon are patterns: those that hold, apart from white space, pairs
/// of hexadecimal digits and question marks, at least one pair and at most a mebibyte of
/// them, with a digit in the first pair and in the last one.
pub proof fn plain_patterns_are_pairs_of_digits(text: Seq<char>)
    requires
        forall|i: int| 0 <= i < encode_utf8(text).len() ==> #[trigger] encode_utf8(text)[i] != 0x3a,
    ensures
        pattern_problem(encode_utf8(text)) is None <==> {
            let digits = encode_utf8(text).filter(
                |b: u8| b != 0x20 && b != 0x09 && b != 0x0a && b != 0x0c && b != 0x0d,
            );
            &&& 2 <= digits.len() <= 2 * 0x10_0000
            &&& digits.len() % 2 == 0
            &&& forall|k: int|
                0 <= k < digits.len() ==> 0x30 <= (#[trigger] digits[k]) <= 0x39 || 0x41
                    <= digits[k] <= 0x46 || 0x61 <= digits[k] <= 0x66 || digits[k] == 0x3f
            &&& digits[0] != 0x3f || digits[1] != 0x3f
            &&& digits[digits.len() - 2] != 0x3f || digits[digits.len() - 1] != 0x3f
        },
{
    let input = encode_utf8(text);
    lemma_first_colon_at(input, 0, input.len() as int);
    assert(match_part(input) =~= input);
    lemma_spaces_are_filtered(input);
    let nibbles = without_spaces(input);
    let masks = pattern_masks(nibbles, None);
    if all_nibbles(nibbles, true) {
        assert forall|k: int| 0 <= k < nibbles.len() implies 0x30 <= (#[trigger] nibbles[k])
            <= 0x39 || 0x41 <= nibbles[k] <= 0x46 || 0x61 <= nibbles[k] <= 0x66 || nibbles[k]
            == 0x3f by {
            assert(is_nibble(nibbles[k], true));
        }
    }
    if nibbles.len() >= 2 && nibbles.len() % 2 == 0 {
        let end = nibbles.len() / 2 - 1;
        assert(masks[0] == (nibble_mask(nibbles[0]) * 16 + nibble_mask(nibbles[1])) as u8);
        assert(masks.last() == (nibble_mask(nibbles[2 * end]) * 16 + nibble_mask(
            nibbles[2 * end + 1],
        )) as u8);
        assert(2 * end == nibbles.len() - 2);
    }
}

/// A pattern without an explicit mask matches as many bytes exactly if every digit of its
/// text is the value of the half of the byte at its place: the first digit of a pair that
/// of the upper half, the second that of the lower. A question mark puts no condition on
/// its half.
pub proof fn plain_patterns_match_digit_by_digit(
    text: Seq<char>,
    pattern: MatchPattern,
    candidate: Seq<u8>,
)
    requires
        denotes_pattern(text, pattern),
        pattern_problem(encode_utf8(text)) is None,
        forall|i: int| 0 <= i < encode_utf8(text).len() ==> #[trigger] encode_utf8(text)[i] != 0x3a,
        candidate.len() == pattern.bytes@.len(),
    ensures
        ({
            let digits = encode_utf8(text).filter(
                |b: u8| b != 0x20 && b != 0x09 && b != 0x0a && b != 0x0c && b != 0x0d,
            );
            &&& digits.len() == 2 * candidate.len()
            &&& matches_bytes(pattern.bytes@, pattern.masks@, candidate) <==> forall|k: int|
                0 <= k < digits.len() ==> {
                    let half = if k % 2 == 0 {
                        candidate[k / 2] as int / 16
                    } else {
                        candidate[k / 2] as int % 16
                    };
                    &&& 0x30 <= (#[trigger] digits[k]) <= 0x39 ==> half == digits[k] - 0x30
                    &&& 0x41 <= digits[k] <= 0x46 ==> half == digits[k] - 0x41 + 10
                    &&& 0x61 <= digits[k] <= 0x66 ==> half == digits[k] - 0x61 + 10
                }
        }),
{
    let input = encode_utf8(text);
    lemma_first_colon_at(input, 0, input.len() as int);
    assert(match_part(input) =~= input);
    lemma_spaces_are_filtered(input);
    let nibbles = without_spaces(input);
    let bytes = pattern.bytes@;
    let masks = pattern.masks@;
    assert(explicit_digits(input) is None);
    assert forall|i: int| 0 <= i < candidate.len() implies (#[trigger] candidate[i] & masks[i]
        == bytes[i] & masks[i] <==> half_agrees(nibbles[2 * i], candidate[i] / 16) && half_agrees(
        nibbles[2 * i + 1],
        candidate[i] % 16,
    )) by {
        assert(is_nibble(nibbles[2 * i], true));
        assert(is_nibble(nibbles[2 * i + 1], true));
        lemma_halves_decide(
            candidate[i],
            nibble_value(nibbles[2 * i]),
            nibble_value(nibbles[2 * i + 1]),
            nibble_mask(nibbles[2 * i]),
            nibble_mask(nibbles[2 * i + 1]),
            15,
            15,
        );
    }
    if matches_bytes(bytes, masks, candidate) {
        assert forall|k: int| 0 <= k < nibbles.len() implies {
            let half = if k % 2 == 0 {
                candidate[k / 2] as int / 16
            } else {
                candidate[k / 2] as int % 16
            };
            &&& 0x30 <= (#[trigger] nibbles[k]) <= 0x39 ==> half == nibbles[k] - 0x30
            &&& 0x41 <= nibbles[k] <= 0x46 ==> half == nibbles[k] - 0x41 + 10
            &&& 0x61 <= nibbles[k] <= 0x66 ==> half == nibbles[k] - 0x61 + 10
        } by {
            let i = k / 2;
            assert(candidate[i] & masks[i] == bytes[i] & masks[i]);
            assert(k == 2 * i || k == 2 * i + 1);
        }
    }
    if forall|k: int|
        0 <= k < nibbles.len() ==> {
            let half = if k % 2 == 0 {
                candidate[k / 2] as int / 16
            } else {
                candidate[k / 2] as int % 16
            };
            &&& 0x30 <= (#[trigger] nibbles[k]) <= 0x39 ==> half == nibbles[k] - 0x30
            &&& 0x41 <= nibbles[k] <= 0x46 ==> half == nibbles[k] - 0x41 + 10
            &&& 0x61 <= nibbles[k] <= 0x66 ==> half == nibbles[k] - 0x61 + 10
        } {
        assert forall|i: int| 0 <= i < candidate.len() implies (#[trigger] candidate[i]) & masks[i]
            == bytes[i] & masks[i] by {
            assert(is_nibble(nibbles[2 * i], true));
            assert(is_nibble(nibbles[2 * i + 1], true));
            assert((2 * i) / 2 == i && (2 * i + 1) / 2 == i);
            assert(half_agrees(nibbles[2 * i], candidate[i] / 16));
            assert(half_agrees(nibbles[2 * i + 1], candidate[i] % 16));
        }
    }
}

spec fn half_agrees(digit: u8, half: u8) -> bool {
    digit == 0x3f || half == hex_value(digit)
}

/// A pattern with an explicit mask matches as many bytes exactly if every digit of its text
/// agrees with the half of the byte at its place in the bits that the mask's digit has. A
/// question mark puts no condition on its half, whatever the mask.
pub proof fn masked_patterns_match_digit_by_digit(
    text: Seq<char>,
    colon: int,
    pattern: MatchPattern,
    candidate: Seq<u8>,
)
    requires
        denotes_pattern(text, pattern),
        pattern_problem(encode_utf8(text)) is None,
        0 <= colon < encode_utf8(text).len(),
        encode_utf8(text)[colon] == 0x3a,
        forall|i: int| 0 <= i < colon ==> #[trigger] encode_utf8(text)[i] != 0x3a,
        candidate.len() == pattern.bytes@.len(),
    ensures
        ({
            let digits = encode_utf8(text).take(colon).filter(
                |b: u8| b != 0x20 && b != 0x09 && b != 0x0a && b != 0x0c && b != 0x0d,
            );
            let cover = encode_utf8(text).skip(colon + 1).filter(
                |b: u8| b != 0x20 && b != 0x09 && b != 0x0a && b != 0x0c && b != 0x0d,
            );
            &&& digits.len() == 2 * candidate.len()
            &&& cover.len() == digits.len()
            &&& matches_bytes(pattern.bytes@, pattern.masks@, candidate) <==> forall|k: int|
                0 <= k < digits.len() && #[trigger] digits[k] != 0x3f ==> {
                    let half = if k % 2 == 0 {
                        candidate[k / 2] / 16
                    } else {
                        candidate[k / 2] % 16
                    };
                    let wanted = digit_value(digits[k] as char)->0 as u8;
                    let counting = digit_value(cover[k] as char)->0 as u8;
                    half & counting == wanted & counting
                }
        }),
{
    let input = encode_utf8(text);
    lemma_first_colon_at(input, 0, colon);
    let front = input.take(colon);
    let back = input.skip(colon + 1);
    assert(match_part(input) =~= front);
    assert(mask_part(input) == Some(back));
    lemma_spaces_are_filtered(front);
    lemma_spaces_are_filtered(back);
    let nibbles = without_spaces(front);
    let cover = without_spaces(back);
    assert(explicit_digits(input) == Some(cover));
    let bytes = pattern.bytes@;
    let masks = pattern.masks@;
    assert(all_nibbles(nibbles, true) && all_nibbles(cover, false) && cover.len()
        == nibbles.len());
    assert forall|i: int| 0 <= i < candidate.len() implies (#[trigger] candidate[i] & masks[i]
        == bytes[i] & masks[i] <==> covered_agrees(nibbles[2 * i], cover[2 * i], candidate[i] / 16)
        && covered_agrees(nibbles[2 * i + 1], cover[2 * i + 1], candidate[i] % 16)) by {
        assert(is_nibble(nibbles[2 * i], true));
        assert(is_nibble(nibbles[2 * i + 1], true));
        assert(is_nibble(cover[2 * i], false));
        assert(is_nibble(cover[2 * i + 1], false));
        lemma_halves_decide(
            candidate[i],
            nibble_value(nibbles[2 * i]),
            nibble_value(nibbles[2 * i + 1]),
            nibble_mask(nibbles[2 * i]),
            nibble_mask(nibbles[2 * i + 1]),
            hex_value(cover[2 * i]),
            hex_value(cover[2 * i + 1]),
        );
    }
    assert forall|k: int| 0 <= k < nibbles.len() && #[trigger] nibbles[k] != 0x3f implies digit_value(
        nibbles[k] as char,
    ) == Some(hex_value(nibbles[k]) as nat) && digit_value(cover[k] as char) == Some(
        hex_value(cover[k]) as nat,
    ) by {
        assert(is_nibble(nibbles[k], true));
        assert(is_nibble(cover[k], false));
    }
    if matches_bytes(bytes, masks, candidate) {
        assert forall|k: int| 0 <= k < nibbles.len() && #[trigger] nibbles[k] != 0x3f implies {
            let half = if k % 2 == 0 {
                candidate[k / 2] / 16
            } else {
                candidate[k / 2] % 16
            };
            let wanted = digit_value(nibbles[k] as char)->0 as u8;
            let counting = digit_value(cover[k] as char)->0 as u8;
            half & counting == wanted & counting
        } by {
            let i = k / 2;
            assert(candidate[i] & masks[i] == bytes[i] & masks[i]);
            assert(k == 2 * i || k == 2 * i + 1);
        }
    }
    if forall|k: int|
        0 <= k < nibbles.len() && #[trigger] nibbles[k] != 0x3f ==> {
            let half = if k % 2 == 0 {
                candidate[k / 2] / 16
            } else {
                candidate[k / 2] % 16
            };
            let wanted = digit_value(nibbles[k] as char)->0 as u8;
            let counting = digit_value(cover[k] as char)->0 as u8;
            half & counting == wanted & counting
        } {
        assert forall|i: int| 0 <= i < candidate.len() implies (#[trigger] candidate[i]) & masks[i]
            == bytes[i] & masks[i] by {
            assert((2 * i) / 2 == i && (2 * i + 1) / 2 == i);
            assert(covered_agrees(nibbles[2 * i], cover[2 * i], candidate[i] / 16));
            assert(covered_agrees(nibbles[2 * i + 1], cover[2 * i + 1], candidate[i] % 16));
        }
    }
}

spec fn covered_agrees(digit: u8, cover: u8, half: u8) -> bool {
    digit == 0x3f || half & hex_value(cover) == hex_value(digit) & hex_value(cover)
}

/// Which texts with a colon are patterns: those with one colon, in front of it pairs of
/// hexadecimal digits and question marks, behind it as many hexadecimal digits, and in the
/// first pair and in the last one a bit that counts.
pub proof fn masked_patterns_are_pairs_of_digits(text: Seq<char>, colon: int)
    requires
        0 <= colon < encode_utf8(text).len(),
        encode_utf8(text)[colon] == 0x3a,
        forall|i: int| 0 <= i < colon ==> #[trigger] encode_utf8(text)[i] != 0x3a,
    ensures
        pattern_problem(encode_utf8(text)) is None <==> {
            let digits = encode_utf8(text).take(colon).filter(
                |b: u8| b != 0x20 && b != 0x09 && b != 0x0a && b != 0x0c && b != 0x0d,
            );
            let cover = encode_utf8(text).skip(colon + 1).filter(
                |b: u8| b != 0x20 && b != 0x09 && b != 0x0a && b != 0x0c && b != 0x0d,
            );
            let end = digits.len() - 1;
            &&& forall|i: int|
                colon < i < encode_utf8(text).len() ==> #[trigger] encode_utf8(text)[i] != 0x3a
            &&& 2 <= digits.len() <= 2 * 0x10_0000
            &&& digits.len() % 2 == 0
            &&& cover.len() == digits.len()
            &&& forall|k: int|
                0 <= k < digits.len() ==> 0x30 <= (#[trigger] digits[k]) <= 0x39 || 0x41
                    <= digits[k] <= 0x46 || 0x61 <= digits[k] <= 0x66 || digits[k] == 0x3f
            &&& forall|k: int|
                0 <= k < cover.len() ==> 0x30 <= (#[trigger] cover[k]) <= 0x39 || 0x41 <= cover[k]
                    <= 0x46 || 0x61 <= cover[k] <= 0x66
            &&& (digits[0] != 0x3f && cover[0] != 0x30) || (digits[1] != 0x3f && cover[1] != 0x30)
            &&& (digits[end - 1] != 0x3f && cover[end - 1] != 0x30) || (digits[end] != 0x3f
                && cover[end] != 0x30)
        },
{
    let input = encode_utf8(text);
    lemma_first_colon_at(input, 0, colon);
    let front = input.take(colon);
    let back = input.skip(colon + 1);
    assert(match_part(input) =~= front);
    assert(mask_part(input) == Some(back));
    lemma_spaces_are_filtered(front);
    lemma_spaces_are_filtered(back);
    let nibbles = without_spaces(front);
    let cover = without_spaces(back);
    assert(explicit_digits(input) == Some(cover));
    let masks = pattern_masks(nibbles, Some(cover));
    if forall|i: int| colon < i < input.len() ==> #[trigger] input[i] != 0x3a {
        lemma_first_colon_at(back, 0, back.len() as int);
    }
    if first_colon(back, 0) == back.len() {
        lemma_no_colon(back, 0);
        assert forall|i: int| colon < i < input.len() implies #[trigger] input[i] != 0x3a by {
            assert(back[i - colon - 1] == input[i]);
        }
    }
    lemma_first_colon_is_inside(back, 0);
    if all_nibbles(nibbles, true) {
        assert forall|k: int| 0 <= k < nibbles.len() implies 0x30 <= (#[trigger] nibbles[k])
            <= 0x39 || 0x41 <= nibbles[k] <= 0x46 || 0x61 <= nibbles[k] <= 0x66 || nibbles[k]
            == 0x3f by {
            assert(is_nibble(nibbles[k], true));
        }
    }
    if all_nibbles(cover, false) {
        assert forall|k: int| 0 <= k < cover.len() implies 0x30 <= (#[trigger] cover[k]) <= 0x39
            || 0x41 <= cover[k] <= 0x46 || 0x61 <= cover[k] <= 0x66 by {
            assert(is_nibble(cover[k], false));
        }
    }
    if nibbles.len() >= 2 && nibbles.len() % 2 == 0 && cover.len() == nibbles.len()
        && all_nibbles(cover, false) {
        let last = nibbles.len() / 2 - 1;
        assert(2 * last == nibbles.len() - 2);
        lemma_mask_is_zero(nibbles, cover, 0);
        lemma_mask_is_zero(nibbles, cover, last);
        assert(masks.last() == masks[last]);
    }
}

proof fn lemma_mask_is_zero(nibbles: Seq<u8>, cover: Seq<u8>, i: int)
    requires
        0 <= i < nibbles.len() / 2,
        cover.len() == nibbles.len(),
        all_nibbles(cover, false),
    ensures
        pattern_masks(nibbles, Some(cover))[i] != 0 <==> (nibbles[2 * i] != 0x3f && cover[2 * i]
            != 0x30) || (nibbles[2 * i + 1] != 0x3f && cover[2 * i + 1] != 0x30),
{
    assert(is_nibble(cover[2 * i], false));
    assert(is_nibble(cover[2 * i + 1], false));
    let mu = nibble_mask(nibbles[2 * i]);
    let ml = nibble_mask(nibbles[2 * i + 1]);
    let eu = hex_value(cover[2 * i]);
    let el = hex_value(cover[2 * i + 1]);
    assert(((mu * 16 + ml) as u8) & ((eu * 16 + el) as u8) != 0 <==> (mu == 15 && eu != 0) || (ml
        == 15 && el != 0)) by (bit_vector)
        requires
            eu < 16,
            el < 16,
            mu == 0 || mu == 15,
            ml == 0 || ml == 15,
    ;
}

proof fn lemma_first_colon_is_inside(input: Seq<u8>, from: int)
    requires
        0 <= from <= input.len(),
    ensures
        from <= first_colon(input, from) <= input.len(),
    decreases input.len() - from,
{
    if from < input.len() && input[from] != 0x3a {
        lemma_first_colon_is_inside(input, from + 1);
    }
}

proof fn lemma_no_colon(input: Seq<u8>, from: int)
    requires
        0 <= from <= input.len(),
        first_colon(input, from) == input.len(),
    ensures
        forall|i: int| from <= i < input.len() ==> #[trigger] input[i] != 0x3a,
    decreases input.len() - from,
{
    if from < input.len() {
        lemma_no_colon(input, from + 1);
    }
}

/// Of two equal rows a pattern matches both or neither, and it reads no byte beyond its
/// length: only the bytes under its masks count.
pub proof fn only_masked_bits_count(pattern: MatchPattern, left: Seq<u8>, right: Seq<u8>)
    requires
        pattern.wf(),
        left.len() == pattern.bytes@.len(),
        right.len() == pattern.bytes@.len(),
        forall|i: int|
            0 <= i < left.len() ==> (#[trigger] left[i]) & pattern.masks@[i] == right[i]
                & pattern.masks@[i],
    ensures
        matches_bytes(pattern.bytes@, pattern.masks@, left) <==> matches_bytes(
            pattern.bytes@,
            pattern.masks@,
            right,
        ),
        matches_bytes(pattern.bytes@, pattern.masks@, pattern.bytes@),
{
    assert forall|i: int| 0 <= i < right.len() implies (#[trigger] right[i]) & pattern.masks@[i]
        == left[i] & pattern.masks@[i] by {
        assert(left[i] & pattern.masks@[i] == right[i] & pattern.masks@[i]);
    }
    if matches_bytes(pattern.bytes@, pattern.masks@, left) {
        assert forall|i: int| 0 <= i < right.len() implies (#[trigger] right[i])
            & pattern.masks@[i] == pattern.bytes@[i] & pattern.masks@[i] by {
            assert(left[i] & pattern.masks@[i] == pattern.bytes@[i] & pattern.masks@[i]);
        }
    }
    if matches_bytes(pattern.bytes@, pattern.masks@, right) {
        assert forall|i: int| 0 <= i < left.len() implies (#[trigger] left[i]) & pattern.masks@[i]
            == pattern.bytes@[i] & pattern.masks@[i] by {
            assert(right[i] & pattern.masks@[i] == pattern.bytes@[i] & pattern.masks@[i]);
        }
    }
}

} // verus!
