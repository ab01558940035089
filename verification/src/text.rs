//! Numerals and small pieces of text, stated over sequences of characters.

use vstd::arithmetic::power::{lemma_pow0, pow};
use vstd::prelude::*;
use vstd::string::*;
use vstd::utf8::{decode_utf8, valid_utf8};

verus! {

/// `String::push` appends one character to the end of the string.
pub assume_specification[ String::push ](text: &mut String, c: char)
    ensures
        final(text)@ == old(text)@.push(c),
;

/// The character for one digit: `0`..`9`, then lower case letters.
pub open spec fn digit_char(digit: nat) -> char {
    if digit < 10 {
        (('0' as u32) + digit) as char
    } else {
        (('a' as u32) + (digit - 10)) as char
    }
}

/// The numeral of `value` in base `radix`, without leading zeros.
pub open spec fn numeral(value: nat, radix: nat) -> Seq<char>
    decreases value,
{
    if radix < 2 || value < radix {
        seq![digit_char(value)]
    } else {
        proof {
            lemma_quotient_decreases(value, radix);
        }
        numeral(value / radix, radix).push(digit_char(value % radix))
    }
}

/// Dividing by a base makes a number that has two or more digits smaller.
pub proof fn lemma_quotient_decreases(value: nat, radix: nat)
    by (nonlinear_arith)
    requires
        radix >= 2,
        value >= radix,
    ensures
        value / radix < value,
{
}

/// The decimal numeral of a signed number.
pub open spec fn signed_numeral(value: int, radix: nat) -> Seq<char> {
    if value < 0 {
        seq!['-'] + numeral((-value) as nat, radix)
    } else {
        numeral(value as nat, radix)
    }
}

/// `text` with `0` characters in front until it is `width` long.
pub open spec fn zero_padded(text: Seq<char>, width: nat) -> Seq<char> {
    if text.len() >= width {
        text
    } else {
        Seq::new((width - text.len()) as nat, |i: int| '0') + text
    }
}

/// `0x` followed by the hexadecimal numeral of `value`.
pub open spec fn prefixed_hex(value: nat) -> Seq<char> {
    seq!['0', 'x'] + numeral(value, 16)
}

/// The characters of a text that may be missing.
pub open spec fn optional_text(text: Option<String>) -> Option<Seq<char>> {
    match text {
        Some(text) => Some(text@),
        None => None,
    }
}

/// The character for one digit.
pub fn digit_to_char(digit: u8) -> (c: char)
    requires
        digit < 36,
    ensures
        c == digit_char(digit as nat),
{
    if digit < 10 {
        (48u8 + digit) as char
    } else {
        (97u8 + (digit - 10)) as char
    }
}

/// Appends the numeral of `value`.
pub fn push_numeral(out: &mut String, value: u64, radix: u64)
    requires
        2 <= radix <= 36,
    ensures
        final(out)@ == old(out)@ + numeral(value as nat, radix as nat),
    decreases value,
{
    if value < radix {
        let digit: char = digit_to_char(value as u8);
        out.push(digit);
    } else {
        proof {
            lemma_quotient_decreases(value as nat, radix as nat);
        }
        push_numeral(out, value / radix, radix);
        let digit: char = digit_to_char((value % radix) as u8);
        out.push(digit);
    }
}

/// The numeral of `value` as a new string.
pub fn numeral_text(value: u64, radix: u64) -> (text: String)
    requires
        2 <= radix <= 36,
    ensures
        text@ == numeral(value as nat, radix as nat),
{
    let mut text: String = String::new();
    push_numeral(&mut text, value, radix);
    text
}

/// Appends the decimal numeral of a signed number.
pub fn push_signed(out: &mut String, value: i64)
    ensures
        final(out)@ == old(out)@ + signed_numeral(value as int, 10),
{
    if value < 0 {
        out.push('-');
        let magnitude: u64 = if value == i64::MIN {
            0x8000_0000_0000_0000u64
        } else {
            (-value) as u64
        };
        push_numeral(out, magnitude, 10);
    } else {
        push_numeral(out, value as u64, 10);
    }
}

/// Appends the numeral of `value` with zeros in front up to `width` characters.
pub fn push_zero_padded(out: &mut String, value: u64, radix: u64, width: usize)
    requires
        2 <= radix <= 36,
    ensures
        final(out)@ == old(out)@ + zero_padded(numeral(value as nat, radix as nat), width as nat),
{
    let digits: String = numeral_text(value, radix);
    let length: usize = digits.as_str().unicode_len();
    let mut count: usize = length;
    while count < width
        invariant
            length == numeral(value as nat, radix as nat).len(),
            length <= count,
            count <= width || count == length,
            out@ == old(out)@ + Seq::new((count - length) as nat, |i: int| '0'),
        decreases width - count,
    {
        out.push('0');
        count = count + 1;
    }
    out.append(digits.as_str());
}

/// Appends `0x` and the hexadecimal numeral of `value`.
pub fn push_prefixed_hex(out: &mut String, value: u64)
    ensures
        final(out)@ == old(out)@ + prefixed_hex(value as nat),
{
    out.push('0');
    out.push('x');
    push_numeral(out, value, 16);
}

/// The value that a digit character stands for, in any base up to thirty-six.
pub open spec fn digit_value(c: char) -> Option<nat> {
    if '0' <= c <= '9' {
        Some((c as u32 - '0' as u32) as nat)
    } else if 'a' <= c <= 'z' {
        Some((c as u32 - 'a' as u32 + 10) as nat)
    } else if 'A' <= c <= 'Z' {
        Some((c as u32 - 'A' as u32 + 10) as nat)
    } else {
        None
    }
}

/// Whether every character is a digit of base `radix`.
pub open spec fn all_digits(text: Seq<char>, radix: nat) -> bool {
    forall|i: int| 0 <= i < text.len() ==> (#[trigger] digit_value(text[i])) is Some && digit_value(
        text[i],
    )->0 < radix
}

/// The number that a row of digits denotes.
pub open spec fn digits_value(text: Seq<char>, radix: nat) -> nat
    decreases text.len(),
{
    if text.len() == 0 {
        0
    } else {
        digits_value(text.drop_last(), radix) * radix + (match digit_value(text.last()) {
            Some(d) => d,
            None => 0,
        })
    }
}

/// Reading a numeral back gives the number that was written.
pub proof fn numeral_reads_back(value: nat, radix: nat)
    requires
        2 <= radix <= 36,
    ensures
        numeral(value, radix).len() > 0,
        all_digits(numeral(value, radix), radix),
        digits_value(numeral(value, radix), radix) == value,
    decreases value,
{
    let text = numeral(value, radix);
    if value < radix {
        assert(text.drop_last() =~= Seq::<char>::empty());
        assert(digits_value(text.drop_last(), radix) == 0);
    } else {
        lemma_quotient_decreases(value, radix);
        numeral_reads_back(value / radix, radix);
        assert(text.drop_last() =~= numeral(value / radix, radix));
        assert(value == (value / radix) * radix + value % radix) by (nonlinear_arith)
            requires
                radix >= 2,
        ;
    }
}

/// The characters of a string.
pub fn chars_of(text: &str) -> (chars: Vec<char>)
    ensures
        chars@ == text@,
{
    let mut chars: Vec<char> = Vec::new();
    for c in it: text.chars()
        invariant
            it.seq() == text@,
            chars@ == text@.subrange(0, it.index() as int),
    {
        chars.push(c);
    }
    chars
}

/// A string made of the given characters.
pub fn text_of(chars: &[char]) -> (text: String)
    ensures
        text@ == chars@,
{
    let mut text: String = String::new();
    let mut i: usize = 0;
    while i < chars.len()
        invariant
            i <= chars.len(),
            text@ == chars@.subrange(0, i as int),
        decreases chars.len() - i,
    {
        text.push(chars[i]);
        i = i + 1;
    }
    text
}

/// Whether two strings hold the same characters.
pub fn same_text(left: &str, right: &str) -> (same: bool)
    ensures
        same == (left@ == right@),
{
    left.to_owned() == right.to_owned()
}

/// Whether a character is white space: it has the `White_Space` property of the Unicode
/// standard.
pub open spec fn is_space(c: char) -> bool {
    let code = c as u32;
    ||| 0x9 <= code <= 0xd
    ||| code == 0x20
    ||| code == 0x85
    ||| code == 0xa0
    ||| code == 0x1680
    ||| 0x2000 <= code <= 0x200a
    ||| code == 0x2028
    ||| code == 0x2029
    ||| code == 0x202f
    ||| code == 0x205f
    ||| code == 0x3000
}

/// `char::is_whitespace` answers whether `c` has the `White_Space` property. The standard
/// gives it to twenty-five characters, which [`is_space`] lists.
pub assume_specification[ char::is_whitespace ](c: char) -> (b: bool)
    ensures
        b == is_space(c),
;

/// Whether `inner` is `text` without the white space at both of its ends.
pub open spec fn is_trimmed(text: Seq<char>, inner: Seq<char>) -> bool {
    exists|start: int, end: int|
        #![trigger text.subrange(start, end)]
        0 <= start <= end <= text.len() && inner == text.subrange(start, end) && (forall|i: int|
            (0 <= i < start || end <= i < text.len()) ==> is_space(#[trigger] text[i])) && (start
            < end ==> !is_space(text[start]) && !is_space(text[end - 1]))
}

/// `text` without the white space at both of its ends.
pub open spec fn trimmed(text: Seq<char>) -> Seq<char> {
    choose|inner: Seq<char>| is_trimmed(text, inner)
}

/// There is only one way to take the white space at both ends away.
pub proof fn trimming_is_unique(text: Seq<char>, inner: Seq<char>)
    requires
        is_trimmed(text, inner),
    ensures
        inner == trimmed(text),
{
    let other = trimmed(text);
    assert(is_trimmed(text, other));
    let (s, e) = choose|start: int, end: int|
        #![trigger text.subrange(start, end)]
        0 <= start <= end <= text.len() && inner == text.subrange(start, end) && (forall|i: int|
            (0 <= i < start || end <= i < text.len()) ==> is_space(#[trigger] text[i])) && (start
            < end ==> !is_space(text[start]) && !is_space(text[end - 1]));
    let (t, f) = choose|start: int, end: int|
        #![trigger text.subrange(start, end)]
        0 <= start <= end <= text.len() && other == text.subrange(start, end) && (forall|i: int|
            (0 <= i < start || end <= i < text.len()) ==> is_space(#[trigger] text[i])) && (start
            < end ==> !is_space(text[start]) && !is_space(text[end - 1]));
    if s < e && t < f {
        if s < t {
            assert(is_space(text[s]));
        } else if t < s {
            assert(is_space(text[t]));
        }
        if e < f {
            assert(is_space(text[f - 1]));
        } else if f < e {
            assert(is_space(text[e - 1]));
        }
    } else if s < e {
        assert(is_space(text[s]));
    } else if t < f {
        assert(is_space(text[t]));
    } else {
        assert(inner =~= other);
    }
}

/// The characters of `text` without the white space at both ends.
pub fn trim(text: &[char]) -> (inner: Vec<char>)
    ensures
        inner@ == trimmed(text@),
        is_trimmed(text@, inner@),
{
    let mut start: usize = 0;
    while start < text.len() && text[start].is_whitespace()
        invariant
            start <= text.len(),
            forall|i: int| 0 <= i < start ==> is_space(#[trigger] text[i]),
        decreases text.len() - start,
    {
        start = start + 1;
    }
    let mut end: usize = text.len();
    while end > start && text[end - 1].is_whitespace()
        invariant
            start <= end <= text.len(),
            forall|i: int| end <= i < text.len() ==> is_space(#[trigger] text[i]),
        decreases end,
    {
        end = end - 1;
    }
    let inner: Vec<char> = vstd::slice::slice_to_vec(vstd::slice::slice_subrange(text, start, end));
    assert(inner@ == text@.subrange(start as int, end as int));
    proof {
        trimming_is_unique(text@, inner@);
    }
    inner
}

/// Whether a text begins with another one.
pub open spec fn has_front(text: Seq<char>, front: Seq<char>) -> bool {
    front.len() <= text.len() && text.take(front.len() as int) == front
}

/// Whether a text begins with another one.
pub fn begins_with(text: &[char], front: &str) -> (begins: bool)
    ensures
        begins == has_front(text@, front@),
{
    let wanted: Vec<char> = chars_of(front);
    if wanted.len() > text.len() {
        return false;
    }
    let mut i: usize = 0;
    while i < wanted.len()
        invariant
            i <= wanted@.len() <= text@.len(),
            wanted@ == front@,
            forall|k: int| 0 <= k < i ==> wanted@[k] == text@[k],
        decreases wanted@.len() - i,
    {
        if wanted[i] != text[i] {
            assert(text@.take(front@.len() as int)[i as int] != front@[i as int]);
            return false;
        }
        i = i + 1;
    }
    assert(text@.take(front@.len() as int) =~= front@);
    true
}

/// How far the first line of a text goes: to its first line feed or to its end.
pub open spec fn line_break(text: Seq<char>) -> nat
    decreases text.len(),
{
    if text.len() == 0 || text[0] == '\n' {
        0
    } else {
        1 + line_break(text.drop_first())
    }
}

/// A line without the carriage return that belongs to its end.
pub open spec fn without_return(line: Seq<char>) -> Seq<char> {
    if line.len() > 0 && line.last() == '\r' {
        line.drop_last()
    } else {
        line
    }
}

/// The lines of a text. A line ends with a line feed, or with a carriage return and a line
/// feed; the last one may lack its end.
pub open spec fn lines(text: Seq<char>) -> Seq<Seq<char>>
    decreases text.len(),
{
    let at = line_break(text) as int;
    if text.len() == 0 {
        seq![]
    } else if at < text.len() {
        seq![without_return(text.take(at))] + lines(text.skip(at + 1))
    } else {
        seq![text]
    }
}

proof fn lemma_line_break(text: Seq<char>, at: int)
    requires
        0 <= at <= text.len(),
        forall|i: int| 0 <= i < at ==> text[i] != '\n',
        at == text.len() || text[at] == '\n',
    ensures
        line_break(text) == at,
    decreases text.len(),
{
    if at > 0 {
        let rest = text.drop_first();
        assert forall|i: int| 0 <= i < at - 1 implies rest[i] != '\n' by {
            assert(rest[i] == text[i + 1]);
        }
        assert(text[0] != '\n');
        lemma_line_break(rest, at - 1);
    }
}

/// Lines by their characters.
pub open spec fn line_views(list: Seq<Vec<char>>) -> Seq<Seq<char>> {
    Seq::new(list.len(), |i: int| list[i]@)
}

/// The lines of a text.
pub fn lines_of(text: &[char]) -> (list: Vec<Vec<char>>)
    ensures
        line_views(list@) == lines(text@),
{
    let mut list: Vec<Vec<char>> = Vec::new();
    let mut start: usize = 0;
    assert(text@.skip(0) =~= text@);
    assert(line_views(list@) + lines(text@) =~= lines(text@));
    while start < text.len()
        invariant
            start <= text@.len(),
            line_views(list@) + lines(text@.skip(start as int)) == lines(text@),
        decreases text@.len() - start,
    {
        let ghost rest = text@.skip(start as int);
        let ghost before = line_views(list@);
        let mut end: usize = start;
        while end < text.len() && text[end] != '\n'
            invariant
                start <= end <= text@.len(),
                rest == text@.skip(start as int),
                forall|i: int| 0 <= i < end - start ==> rest[i] != '\n',
            decreases text@.len() - end,
        {
            assert(rest[end - start] == text@[end as int]);
            end = end + 1;
        }
        proof {
            if end < text@.len() {
                assert(rest[end - start] == text@[end as int]);
            }
            lemma_line_break(rest, end - start);
        }
        if end < text.len() {
            let mut stop: usize = end;
            if stop > start && text[stop - 1] == '\r' {
                stop = stop - 1;
            }
            let line: Vec<char> = vstd::slice::slice_to_vec(
                vstd::slice::slice_subrange(text, start, stop),
            );
            assert(line@ =~= without_return(rest.take(end - start)));
            list.push(line);
            assert(rest.skip(end - start + 1) =~= text@.skip(end + 1));
            assert(line_views(list@) =~= before + seq![line@]);
            start = end + 1;
            assert(line_views(list@) + lines(text@.skip(start as int)) =~= before + lines(rest));
        } else {
            let line: Vec<char> = vstd::slice::slice_to_vec(
                vstd::slice::slice_subrange(text, start, end),
            );
            assert(line@ =~= rest);
            list.push(line);
            assert(line_views(list@) =~= before + seq![line@]);
            start = end;
            assert(text@.skip(start as int) =~= seq![]);
            assert(line_views(list@) + lines(text@.skip(start as int)) =~= before + lines(rest));
        }
    }
    assert(text@.skip(start as int) =~= seq![]);
    assert(line_views(list@) =~= lines(text@));
    list
}

/// The number that a numeral with an optional plus sign denotes, if it is one and
/// fits in sixty-four bits.
pub open spec fn parsed_u64(text: Seq<char>, radix: nat) -> Option<nat> {
    let digits = if text.len() > 0 && text[0] == '+' {
        text.drop_first()
    } else {
        text
    };
    if digits.len() > 0 && all_digits(digits, radix) && digits_value(digits, radix) <= u64::MAX {
        Some(digits_value(digits, radix))
    } else {
        None
    }
}

/// A longer row of digits denotes at least as much as its front.
pub proof fn lemma_digits_value_grows(text: Seq<char>, count: int, radix: nat)
    requires
        0 <= count <= text.len(),
        radix >= 1,
    ensures
        digits_value(text.subrange(0, count), radix) <= digits_value(text, radix),
    decreases text.len(),
{
    if count == text.len() {
        assert(text.subrange(0, count) =~= text);
    } else {
        lemma_digits_value_grows(text.drop_last(), count, radix);
        assert(text.drop_last().subrange(0, count) =~= text.subrange(0, count));
        let before = digits_value(text.drop_last(), radix);
        assert(before * radix >= before) by (nonlinear_arith)
            requires
                radix >= 1,
        ;
    }
}

/// The value of one digit character.
pub fn digit_of(c: char) -> (digit: Option<u8>)
    ensures
        digit matches Some(d) ==> digit_value(c) == Some(d as nat) && d < 36,
        digit is None ==> digit_value(c) is None,
{
    let code: u32 = c as u32;
    if 48 <= code && code <= 57 {
        Some((code - 48) as u8)
    } else if 97 <= code && code <= 122 {
        Some((code - 97 + 10) as u8)
    } else if 65 <= code && code <= 90 {
        Some((code - 65 + 10) as u8)
    } else {
        None
    }
}

/// Reads a numeral with an optional plus sign.
pub fn parse_u64(text: &[char], radix: u64) -> (value: Option<u64>)
    requires
        2 <= radix <= 36,
    ensures
        value matches Some(v) ==> parsed_u64(text@, radix as nat) == Some(v as nat),
        value is None ==> parsed_u64(text@, radix as nat) is None,
{
    let start: usize = if text.len() > 0 && text[0] == '+' {
        1
    } else {
        0
    };
    let ghost digits = text@.subrange(start as int, text@.len() as int);
    assert(digits == if text@.len() > 0 && text@[0] == '+' {
        text@.drop_first()
    } else {
        text@
    });
    if start == text.len() {
        return None;
    }
    let mut value: u64 = 0;
    let mut i: usize = start;
    while i < text.len()
        invariant
            start <= i <= text.len(),
            2 <= radix <= 36,
            digits == text@.subrange(start as int, text@.len() as int),
            digits == if text@.len() > 0 && text@[0] == '+' {
                text@.drop_first()
            } else {
                text@
            },
            all_digits(digits.subrange(0, i - start), radix as nat),
            value == digits_value(digits.subrange(0, i - start), radix as nat),
        decreases text.len() - i,
    {
        let ghost front = digits.subrange(0, i - start);
        let ghost next = digits.subrange(0, i - start + 1);
        assert(next.drop_last() =~= front);
        assert(next.last() == text@[i as int]);
        assert(digits[i - start] == text@[i as int]);
        match digit_of(text[i]) {
            None => {
                return None;
            },
            Some(d) => {
                if d as u64 >= radix {
                    assert(!all_digits(digits, radix as nat));
                    return None;
                }
                proof {
                    lemma_digits_value_grows(digits, i - start + 1, radix as nat);
                    assert(digits_value(next, radix as nat) == value * radix + d);
                    assert(value * radix >= 0) by (nonlinear_arith);
                }
                match value.checked_mul(radix) {
                    None => {
                        return None;
                    },
                    Some(scaled) => match scaled.checked_add(d as u64) {
                        None => {
                            return None;
                        },
                        Some(sum) => {
                            value = sum;
                        },
                    },
                }
                assert forall|k: int| 0 <= k < next.len() implies (#[trigger] digit_value(
                    next[k],
                )) is Some && digit_value(next[k])->0 < radix by {
                    if k < front.len() {
                        assert(front[k] == next[k]);
                    }
                }
            },
        }
        i = i + 1;
    }
    assert(digits.subrange(0, i - start) =~= digits);
    Some(value)
}

/// Digits are written as usual: `0` to `9` for the first ten values, and the letters
/// from `a` on for the values above.
pub proof fn digits_are_written_as_usual(digit: nat, radix: nat)
    requires
        digit < radix <= 36,
        radix >= 2,
    ensures
        numeral(digit, radix).len() == 1,
        digit < 10 ==> numeral(digit, radix)[0] as u32 == 0x30 + digit,
        digit >= 10 ==> numeral(digit, radix)[0] as u32 == 0x61 + (digit - 10),
{
}

/// Numerals are positional: behind the numeral of `value` stands the digit that counts
/// ones, and all that stands in front of it counts `radix` times as much.
pub proof fn numerals_are_positional(value: nat, digit: nat, radix: nat)
    requires
        0 < value,
        digit < radix <= 36,
        radix >= 2,
    ensures
        numeral(value * radix + digit, radix) == numeral(value, radix) + numeral(digit, radix),
{
    assert(value * radix >= radix) by (nonlinear_arith)
        requires
            value >= 1,
    ;
    let v: int = value as int;
    let d: int = digit as int;
    let r: int = radix as int;
    assert((v * r + d) / r == v && (v * r + d) % r == d) by (nonlinear_arith)
        requires
            0 <= d < r,
    ;
    assert(numeral(value, radix).push(digit_char(digit)) =~= numeral(value, radix) + numeral(
        digit,
        radix,
    ));
}

/// Digits are read as usual: `0` to `9` for the first ten values, and the letters of
/// either case for the values above. No other character is a digit.
pub proof fn digits_are_read_as_usual(c: char)
    ensures
        0x30 <= c as u32 <= 0x39 ==> digit_value(c) == Some((c as u32 - 0x30) as nat),
        0x61 <= c as u32 <= 0x7a ==> digit_value(c) == Some((c as u32 - 0x61 + 10) as nat),
        0x41 <= c as u32 <= 0x5a ==> digit_value(c) == Some((c as u32 - 0x41 + 10) as nat),
        digit_value(c) is Some ==> 0x30 <= c as u32 <= 0x39 || 0x41 <= c as u32 <= 0x5a || 0x61
            <= c as u32 <= 0x7a,
{
}

/// A row of digits counts each digit by its position: the one that has `n` digits behind
/// it counts `radix` to the power of `n` times its value.
pub proof fn digits_count_by_their_position(text: Seq<char>, radix: nat)
    requires
        text.len() > 0,
        digit_value(text[0]) is Some,
        radix >= 1,
    ensures
        digits_value(Seq::<char>::empty(), radix) == 0,
        digits_value(text, radix) == digit_value(text[0])->0 * pow(
            radix as int,
            (text.len() - 1) as nat,
        ) + digits_value(text.skip(1), radix),
    decreases text.len(),
{
    let d = digit_value(text[0])->0;
    if text.len() == 1 {
        lemma_pow0(radix as int);
        assert(text.drop_last() =~= Seq::<char>::empty());
        assert(text.skip(1) =~= Seq::<char>::empty());
        assert(digits_value(text.drop_last(), radix) == 0);
        assert(0 * radix == 0);
        assert(d * 1 == d);
    } else {
        let front = text.drop_last();
        digits_count_by_their_position(front, radix);
        assert(front.skip(1) =~= text.skip(1).drop_last());
        assert(text.skip(1).last() == text.last());
        let p = pow(radix as int, (text.len() - 2) as nat);
        reveal(pow);
        assert(pow(radix as int, (text.len() - 1) as nat) == radix * p);
        let rest = digits_value(front.skip(1), radix) as int;
        assert((d * p + rest) * radix == d * (radix * p) + rest * radix) by (nonlinear_arith);
    }
}

/// Padding puts zeros in front of a text up to the width, and nothing else: the text
/// stands unchanged at the end, and what a row of digits denotes stays the same.
pub proof fn padding_puts_zeros_in_front(text: Seq<char>, width: nat, radix: nat)
    ensures
        text.len() >= width ==> zero_padded(text, width) == text,
        text.len() < width ==> zero_padded(text, width).len() == width,
        text.len() < width ==> zero_padded(text, width).skip(width - text.len()) == text,
        text.len() < width ==> forall|i: int|
            0 <= i < width - text.len() ==> #[trigger] zero_padded(text, width)[i] as u32 == 0x30,
        digits_value(zero_padded(text, width), radix) == digits_value(text, radix),
        all_digits(text, radix) && radix >= 1 ==> all_digits(zero_padded(text, width), radix),
    decreases text.len(), width,
{
    let padded = zero_padded(text, width);
    if text.len() < width {
        assert(padded.skip(width - text.len()) =~= text);
        if text.len() == 0 {
            if width == 1 {
                assert(padded.drop_last() =~= text);
            } else {
                padding_puts_zeros_in_front(text, (width - 1) as nat, radix);
                assert(padded.drop_last() =~= zero_padded(text, (width - 1) as nat));
            }
            assert(padded.last() == '0');
            assert(0 * radix == 0);
        } else {
            padding_puts_zeros_in_front(text.drop_last(), (width - 1) as nat, radix);
            assert(padded.drop_last() =~= zero_padded(text.drop_last(), (width - 1) as nat));
            assert(padded.last() == text.last());
        }
        if all_digits(text, radix) && radix >= 1 {
            assert forall|i: int| 0 <= i < padded.len() implies (#[trigger] digit_value(
                padded[i],
            )) is Some && digit_value(padded[i])->0 < radix by {
                if i >= width - text.len() {
                    assert(padded[i] == text[i - (width - text.len())]);
                }
            }
        }
    }
}

/// A signed number is written with a minus sign in front of its magnitude if it is below
/// zero, and without a sign otherwise.
pub proof fn signs_stand_in_front(value: int, radix: nat)
    ensures
        value >= 0 ==> signed_numeral(value, radix) == numeral(value as nat, radix),
        value < 0 ==> signed_numeral(value, radix).len() > 0,
        value < 0 ==> signed_numeral(value, radix)[0] as u32 == 0x2d,
        value < 0 ==> signed_numeral(value, radix).skip(1) == numeral((0 - value) as nat, radix),
{
    if value < 0 {
        assert(signed_numeral(value, radix).skip(1) =~= numeral((0 - value) as nat, radix));
    }
}

/// A hexadecimal number stands behind `0x`, and reads back in base sixteen.
pub proof fn hexadecimal_stands_behind_a_mark(value: nat)
    ensures
        prefixed_hex(value).len() > 2,
        prefixed_hex(value)[0] as u32 == 0x30,
        prefixed_hex(value)[1] as u32 == 0x78,
        all_digits(prefixed_hex(value).skip(2), 16),
        digits_value(prefixed_hex(value).skip(2), 16) == value,
        prefixed_hex(value).skip(2) == numeral(value, 16),
{
    numeral_reads_back(value, 16);
    assert(prefixed_hex(value).skip(2) =~= numeral(value, 16));
}

/// Whether a text is `value` in base `radix`, written with small letters and at least
/// `width` digits, of which those beyond `width` are not leading zeros.
pub open spec fn spells(text: Seq<char>, value: nat, radix: nat, width: nat) -> bool {
    &&& all_digits(text, radix)
    &&& digits_value(text, radix) == value
    &&& text.len() >= width
    &&& text.len() > width ==> text[0] as u32 != 0x30
    &&& forall|i: int|
        0 <= i < text.len() ==> (#[trigger] text[i]) as u32 <= 0x39 || text[i] as u32 >= 0x61
}

/// A numeral spells its value without leading zeros, and a padded one with zeros up to
/// the width.
pub proof fn numerals_spell_their_values(value: nat, radix: nat, width: nat)
    requires
        2 <= radix <= 36,
        width >= 1,
    ensures
        spells(numeral(value, radix), value, radix, 1),
        spells(zero_padded(numeral(value, radix), width), value, radix, width),
{
    let text = numeral(value, radix);
    numeral_reads_back(value, radix);
    lemma_numeral_front(value, radix);
    padding_puts_zeros_in_front(text, width, radix);
    let padded = zero_padded(text, width);
    assert forall|i: int| 0 <= i < padded.len() implies (#[trigger] padded[i]) as u32 <= 0x39
        || padded[i] as u32 >= 0x61 by {
        if text.len() < width && i >= width - text.len() {
            assert(padded[i] == text[i - (width - text.len())]);
        }
    }
}

proof fn lemma_numeral_front(value: nat, radix: nat)
    requires
        2 <= radix <= 36,
    ensures
        numeral(value, radix).len() >= 1,
        value > 0 ==> numeral(value, radix)[0] as u32 != 0x30,
        value < radix ==> numeral(value, radix).len() == 1,
        forall|i: int|
            0 <= i < numeral(value, radix).len() ==> (#[trigger] numeral(value, radix)[i]) as u32
                <= 0x39 || numeral(value, radix)[i] as u32 >= 0x61,
    decreases value,
{
    if value >= radix {
        lemma_quotient_decreases(value, radix);
        let v: int = value as int;
        let r: int = radix as int;
        assert(v / r >= 1) by (nonlinear_arith)
            requires
                v >= r,
                r >= 2,
        ;
        lemma_numeral_front(value / radix, radix);
        let front = numeral(value / radix, radix);
        let text = numeral(value, radix);
        assert forall|i: int| 0 <= i < text.len() implies (#[trigger] text[i]) as u32 <= 0x39
            || text[i] as u32 >= 0x61 by {
            if i < front.len() {
                assert(text[i] == front[i]);
            } else {
                assert(value % radix < radix);
            }
        }
    }
}

/// What is written of a number is read back, with or without a plus sign in front, and
/// with any number of zeros before its first digit.
pub proof fn numbers_are_read_back(value: u64, width: nat, radix: nat)
    requires
        2 <= radix <= 36,
    ensures
        parsed_u64(numeral(value as nat, radix), radix) == Some(value as nat),
        parsed_u64(zero_padded(numeral(value as nat, radix), width), radix) == Some(value as nat),
        parsed_u64("+"@ + numeral(value as nat, radix), radix) == Some(value as nat),
{
    reveal_strlit("+");
    let text = numeral(value as nat, radix);
    let padded = zero_padded(text, width);
    numeral_reads_back(value as nat, radix);
    padding_puts_zeros_in_front(text, width, radix);
    assert(digit_value('+') is None);
    assert(digit_value(text[0]) is Some);
    assert(digit_value(padded[0]) is Some);
    assert(("+"@ + text).drop_first() =~= text);
}

/// Only rows of digits, with at most one plus sign in front, are numbers: any other
/// character, the empty text, a lone sign and a number over sixty-four bits are not.
pub proof fn other_texts_are_no_numbers(text: Seq<char>, radix: nat)
    requires
        2 <= radix <= 36,
    ensures
        text.len() == 0 ==> parsed_u64(text, radix) is None,
        text == "+"@ ==> parsed_u64(text, radix) is None,
        forall|i: int|
            0 <= i < text.len() && digit_value(#[trigger] text[i]) is None && (i > 0 || text[i]
                as u32 != 0x2b) ==> parsed_u64(text, radix) is None,
        forall|i: int|
            0 <= i < text.len() && (digit_value(#[trigger] text[i]) matches Some(d) && d >= radix)
                ==> parsed_u64(text, radix) is None,
        parsed_u64(text, radix) matches Some(value) ==> value < 0x1_0000_0000_0000_0000,
{
    reveal_strlit("+");
    let digits = if text.len() > 0 && text[0] == '+' {
        text.drop_first()
    } else {
        text
    };
    assert forall|i: int|
        0 <= i < text.len() && (digit_value(#[trigger] text[i]) is None || digit_value(text[i])->0
            >= radix) && (i > 0 || text[i] as u32 != 0x2b) implies parsed_u64(
        text,
        radix,
    ) is None by {
        if text[0] == '+' {
            assert(digits[i - 1] == text[i]);
            assert(digit_value(digits[i - 1]) is None || digit_value(digits[i - 1])->0 >= radix);
        } else {
            assert(digits[i] == text[i]);
            assert(digit_value(digits[i]) is None || digit_value(digits[i])->0 >= radix);
        }
    }
    assert(digit_value('+') is None);
}

/// What `FromUtf8Error` says of some bytes, by name.
pub uninterp spec fn utf8_error_text(bytes: Seq<u8>) -> Seq<char>;

/// `String::from_utf8` succeeds exactly on valid UTF-8, with the text that the bytes
/// encode. Otherwise its error's text depends on the bytes alone; what it says of them
/// is not stated.
#[verifier::external_body]
pub(crate) fn utf8_text(bytes: Vec<u8>) -> (result: Result<String, String>)
    ensures
        result is Ok <==> valid_utf8(bytes@),
        result matches Ok(text) ==> text@ == decode_utf8(bytes@),
        result matches Err(message) ==> message@ == utf8_error_text(bytes@),
{
    String::from_utf8(bytes).map_err(|error| error.to_string())
}

/// `String::from_utf8_lossy` of some bytes, by name.
pub uninterp spec fn utf8_lossy(bytes: Seq<u8>) -> Seq<char>;

/// `String::from_utf8_lossy` gives the text that valid UTF-8 encodes. In other bytes it
/// puts replacement characters for what is not valid, which is not stated further.
#[verifier::external_body]
pub(crate) fn lossy_text(bytes: &[u8]) -> (text: String)
    ensures
        text@ == utf8_lossy(bytes@),
        valid_utf8(bytes@) ==> text@ == decode_utf8(bytes@),
{
    String::from_utf8_lossy(bytes).into_owned()
}

/// A line feed ends a line, with or without a carriage return in front of it; the last line
/// may lack it, and no text has no lines.
pub proof fn lines_end_at_line_feeds(first: Seq<char>, rest: Seq<char>)
    requires
        forall|i: int| 0 <= i < first.len() ==> #[trigger] first[i] != '\n',
    ensures
        first.len() == 0 || first.last() != '\r' ==> lines(first + "\n"@ + rest) == seq![first]
            + lines(rest),
        lines(first + "\r\n"@ + rest) == seq![first] + lines(rest),
        first.len() > 0 ==> lines(first) == seq![first],
        lines(""@) == Seq::<Seq<char>>::empty(),
{
    reveal_strlit("");
    reveal_strlit("\n");
    reveal_strlit("\r\n");
    let at = first.len() as int;
    let text = first + "\n"@ + rest;
    assert(text[at] == '\n');
    assert forall|i: int| 0 <= i < at implies text[i] != '\n' by {
        assert(text[i] == first[i]);
    }
    lemma_line_break(text, at);
    assert(text.take(at) =~= first);
    assert(text.skip(at + 1) =~= rest);
    let other = first + "\r\n"@ + rest;
    assert(other[at] == '\r');
    assert(other[at + 1] == '\n');
    assert forall|i: int| 0 <= i < at + 1 implies other[i] != '\n' by {
        if i < at {
            assert(other[i] == first[i]);
        }
    }
    lemma_line_break(other, at + 1);
    assert(other.take(at + 1).last() == '\r');
    assert(other.take(at + 1).drop_last() =~= first);
    assert(other.skip(at + 2) =~= rest);
    if at > 0 {
        lemma_line_break(first, at);
    }
}

/// What is left of a text without the white space around it begins and ends with other
/// characters, and nothing else is taken away.
pub proof fn trimming_takes_the_spaces_around(
    front: Seq<char>,
    inner: Seq<char>,
    back: Seq<char>,
)
    requires
        forall|i: int| 0 <= i < front.len() ==> is_space(#[trigger] front[i]),
        forall|i: int| 0 <= i < back.len() ==> is_space(#[trigger] back[i]),
        inner.len() > 0 ==> !is_space(inner[0]) && !is_space(inner.last()),
    ensures
        trimmed(front + inner + back) == inner,
{
    let text = front + inner + back;
    let start = front.len() as int;
    let end = start + inner.len();
    assert(text.subrange(start, end) =~= inner);
    assert forall|i: int| 0 <= i < start || end <= i < text.len() implies is_space(
        #[trigger] text[i],
    ) by {
        if i < start {
            assert(text[i] == front[i]);
        } else {
            assert(text[i] == back[i - end]);
        }
    }
    if start < end {
        assert(text[start] == inner[0]);
        assert(text[end - 1] == inner.last());
    }
    assert(is_trimmed(text, inner));
    trimming_is_unique(text, inner);
}

/// A text begins with another one exactly if it is that one and something behind it.
pub proof fn fronts_are_followed_by_the_rest(text: Seq<char>, front: Seq<char>)
    ensures
        has_front(front + text, front),
        has_front(text, front) ==> text == front + text.skip(front.len() as int),
        text.len() < front.len() ==> !has_front(text, front),
        forall|i: int|
            0 <= i < front.len() && i < text.len() && #[trigger] text[i] != front[i] ==> !has_front(
                text,
                front,
            ),
{
    assert((front + text).take(front.len() as int) =~= front);
    if has_front(text, front) {
        assert(text =~= front + text.skip(front.len() as int));
        assert forall|i: int| 0 <= i < front.len() implies #[trigger] text[i] == front[i] by {
            assert(text.take(front.len() as int)[i] == front[i]);
        }
    }
}

} // verus!
