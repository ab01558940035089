//! Integers of sixty-four bits as scripts hold them.

use crate::pointer::signed_bits;
use crate::script::joined;
use crate::text::{
    all_digits, begins_with, chars_of, digit_of, digits_value, has_front, numeral_text,
    optional_text, push_numeral, signed_numeral,
};
use vstd::arithmetic::power::pow;
use vstd::prelude::*;
use vstd::slice::slice_subrange;
use vstd::string::*;

verus! {

/// A signed integer of sixty-four bits.
#[derive(Clone, Copy, Debug, PartialEq, Eq, Structural)]
pub struct Int64 {
    pub value: i64,
}

/// An unsigned integer of sixty-four bits.
#[derive(Clone, Copy, Debug, PartialEq, Eq, Structural)]
pub struct UInt64 {
    pub value: u64,
}

/// Reports that the script that defines the integers could not be run.
pub fn register_int64_api(outcome: Result<(), String>) -> (message: Option<String>)
    ensures
        optional_text(message) == match outcome {
            Ok(_) => None,
            Err(error) => Some("[int64] bootstrap failed: "@ + error@),
        },
{
    match outcome {
        Ok(_) => None,
        Err(error) => Some(joined("[int64] bootstrap failed: ", error.as_str())),
    }
}

/// The integer that digits denote, if they are digits of the base.
pub open spec fn magnitude(digits: Seq<char>, radix: nat) -> Option<int> {
    if digits.len() > 0 && all_digits(digits, radix) {
        Some(digits_value(digits, radix) as int)
    } else {
        None
    }
}

/// The integer that a text denotes: hexadecimal behind a prefix, or else decimal with an
/// optional minus sign.
pub open spec fn integer_of(text: Seq<char>) -> Option<int> {
    if has_front(text, "0x"@) {
        magnitude(text.skip(2), 16)
    } else if text.len() > 0 && text[0] == '-' {
        match magnitude(text.skip(1), 10) {
            Some(value) => Some(-value),
            None => None,
        }
    } else {
        magnitude(text, 10)
    }
}

/// The low sixty-four bits of an integer.
pub open spec fn low_bits(value: int) -> int {
    value % 0x1_0000_0000_0000_0000
}

/// The low sixty-four bits of an integer, the highest of them as a sign.
pub open spec fn signed_low_bits(value: int) -> int {
    if low_bits(value) < 0x8000_0000_0000_0000 {
        low_bits(value)
    } else {
        low_bits(value) - 0x1_0000_0000_0000_0000
    }
}

proof fn lemma_next_digit(value: int, radix: int, digit: int)
    requires
        2 <= radix,
    ensures
        low_bits(low_bits(value) * radix + digit) == low_bits(value * radix + digit),
{
    let m: int = 0x1_0000_0000_0000_0000;
    vstd::arithmetic::div_mod::lemma_mul_mod_noop_left(value, radix, m);
    vstd::arithmetic::div_mod::lemma_add_mod_noop(low_bits(value) * radix, digit, m);
    vstd::arithmetic::div_mod::lemma_add_mod_noop(value * radix, digit, m);
}

fn read_digits(digits: &[char], radix: u64) -> (bits: Option<u64>)
    requires
        radix == 10 || radix == 16,
    ensures
        bits is Some <==> magnitude(digits@, radix as nat) is Some,
        bits matches Some(b) ==> b == low_bits(magnitude(digits@, radix as nat)->0),
{
    if digits.len() == 0 {
        return None;
    }
    let mut bits: u64 = 0;
    let mut i: usize = 0;
    assert(digits@.take(0) =~= seq![]);
    while i < digits.len()
        invariant
            i <= digits@.len(),
            radix == 10 || radix == 16,
            all_digits(digits@.take(i as int), radix as nat),
            bits == low_bits(digits_value(digits@.take(i as int), radix as nat) as int),
        decreases digits@.len() - i,
    {
        let ghost front = digits@.take(i as int);
        let ghost next = digits@.take(i + 1);
        assert(next.drop_last() =~= front);
        let digit: u8 = match digit_of(digits[i]) {
            Some(digit) => digit,
            None => {
                assert(crate::text::digit_value(digits@[i as int]) is None);
                return None;
            },
        };
        if digit as u64 >= radix {
            assert(!all_digits(digits@, radix as nat)) by {
                assert(crate::text::digit_value(digits@[i as int])->0 >= radix);
            }
            return None;
        }
        proof {
            lemma_next_digit(
                digits_value(front, radix as nat) as int,
                radix as int,
                digit as int,
            );
        }
        assert(bits as u128 * radix as u128 <= 0xf_ffff_ffff_ffff_fff0) by (nonlinear_arith)
            requires
                bits <= 0xffff_ffff_ffff_ffff,
                radix <= 16,
        ;
        let wide: u128 = bits as u128 * radix as u128 + digit as u128;
        bits = (wide % 0x1_0000_0000_0000_0000) as u64;
        assert forall|k: int| 0 <= k < next.len() implies (#[trigger] crate::text::digit_value(
            next[k],
        )) is Some && crate::text::digit_value(next[k])->0 < radix by {
            if k < front.len() {
                assert(front[k] == next[k]);
            }
        }
        i = i + 1;
    }
    assert(digits@.take(digits@.len() as int) =~= digits@);
    Some(bits)
}

/// The low sixty-four bits of the integer that a text denotes.
pub fn parse_bits(text: &str) -> (bits: Option<u64>)
    ensures
        bits is Some <==> integer_of(text@) is Some,
        bits matches Some(b) ==> b == low_bits(integer_of(text@)->0),
{
    let chars: Vec<char> = chars_of(text);
    proof {
        reveal_strlit("0x");
    }
    if begins_with(chars.as_slice(), "0x") {
        let digits: &[char] = slice_subrange(chars.as_slice(), 2, chars.len());
        assert(digits@ =~= text@.skip(2));
        read_digits(digits, 16)
    } else if chars.len() > 0 && chars[0] == '-' {
        let digits: &[char] = slice_subrange(chars.as_slice(), 1, chars.len());
        assert(digits@ =~= text@.skip(1));
        match read_digits(digits, 10) {
            Some(bits) => {
                proof {
                    let m: int = 0x1_0000_0000_0000_0000;
                    let value = magnitude(text@.skip(1), 10)->0;
                    vstd::arithmetic::div_mod::lemma_sub_mod_noop_right(0, value, m);
                    if bits == 0 {
                        vstd::arithmetic::div_mod::lemma_small_mod(0, m as nat);
                    } else {
                        vstd::arithmetic::div_mod::lemma_mod_add_multiples_vanish(
                            -(bits as int),
                            m,
                        );
                        vstd::arithmetic::div_mod::lemma_small_mod((m - bits) as nat, m as nat);
                    }
                }
                Some(0u64.wrapping_sub(bits))
            },
            None => None,
        }
    } else {
        read_digits(chars.as_slice(), 10)
    }
}

/// An integer halved a number of times, downwards.
pub open spec fn halved(value: int, places: nat) -> int
    decreases places,
{
    if places == 0 {
        value
    } else {
        halved(value / 2, (places - 1) as nat)
    }
}

impl Int64 {
    /// The integer that a text denotes, reduced to sixty-four bits.
    pub fn new(text: &str) -> (number: Option<Int64>)
        ensures
            number is Some <==> integer_of(text@) is Some,
            number matches Some(n) ==> n.value == signed_low_bits(integer_of(text@)->0),
    {
        match parse_bits(text) {
            Some(bits) => Some(Int64 { value: signed_bits(bits) }),
            None => None,
        }
    }

    /// The sum, reduced to sixty-four bits.
    pub fn add(&self, other: i64) -> (sum: Int64)
        ensures
            sum.value == signed_low_bits(self.value + other),
    {
        let wide: i128 = self.value as i128 + other as i128;
        let value: i64 = if wide > 0x7fff_ffff_ffff_ffff {
            (wide - 0x1_0000_0000_0000_0000) as i64
        } else if wide < -0x8000_0000_0000_0000 {
            (wide + 0x1_0000_0000_0000_0000) as i64
        } else {
            wide as i64
        };
        proof {
            lemma_reduced(self.value + other);
        }
        Int64 { value }
    }

    /// The integer shifted to the right; the sign stays.
    pub fn shr(&self, places: u32) -> (shifted: Int64)
        ensures
            shifted.value == halved(self.value as int, places as nat),
    {
        let mut value: i64 = self.value;
        let mut left: u32 = places;
        while left > 0
            invariant
                halved(self.value as int, places as nat) == halved(value as int, left as nat),
            decreases left,
        {
            let half: i64 = if value >= 0 {
                value / 2
            } else {
                -((-(value + 1)) / 2) - 1
            };
            assert(half == (value as int) / 2);
            value = half;
            left = left - 1;
        }
        Int64 { value }
    }

    /// The text of the integer in a base.
    pub fn to_string(&self, radix: u64) -> (text: String)
        requires
            2 <= radix <= 36,
        ensures
            text@ == signed_numeral(self.value as int, radix as nat),
    {
        let mut text: String = String::new();
        if self.value < 0 {
            text.push('-');
            let magnitude: u64 = (-(self.value + 1)) as u64 + 1;
            push_numeral(&mut text, magnitude, radix);
        } else {
            push_numeral(&mut text, self.value as u64, radix);
        }
        assert(text@ =~= signed_numeral(self.value as int, radix as nat));
        text
    }

    /// The text by which the integer is written out.
    pub fn to_json(&self) -> (text: String)
        ensures
            text@ == signed_numeral(self.value as int, 10),
    {
        self.to_string(10)
    }
}

impl UInt64 {
    /// The integer that a text denotes, reduced to sixty-four bits.
    pub fn new(text: &str) -> (number: Option<UInt64>)
        ensures
            number is Some <==> integer_of(text@) is Some,
            number matches Some(n) ==> n.value == low_bits(integer_of(text@)->0),
    {
        match parse_bits(text) {
            Some(bits) => Some(UInt64 { value: bits }),
            None => None,
        }
    }

    /// The sum, reduced to sixty-four bits.
    pub fn add(&self, other: u64) -> (sum: UInt64)
        ensures
            sum.value == low_bits(self.value + other),
    {
        proof {
            let m: int = 0x1_0000_0000_0000_0000;
            if self.value + other > u64::MAX {
                vstd::arithmetic::div_mod::lemma_mod_sub_multiples_vanish(
                    self.value + other,
                    m,
                );
                vstd::arithmetic::div_mod::lemma_small_mod(
                    (self.value + other - m) as nat,
                    m as nat,
                );
            } else {
                vstd::arithmetic::div_mod::lemma_small_mod((self.value + other) as nat, m as nat);
            }
        }
        UInt64 { value: self.value.wrapping_add(other) }
    }

    /// The integer shifted to the right.
    pub fn shr(&self, places: u32) -> (shifted: UInt64)
        ensures
            shifted.value == halved(self.value as int, places as nat),
    {
        let mut value: u64 = self.value;
        let mut left: u32 = places;
        while left > 0
            invariant
                halved(self.value as int, places as nat) == halved(value as int, left as nat),
            decreases left,
        {
            value = value / 2;
            left = left - 1;
        }
        UInt64 { value }
    }

    /// The text of the integer in a base.
    pub fn to_string(&self, radix: u64) -> (text: String)
        requires
            2 <= radix <= 36,
        ensures
            text@ == signed_numeral(self.value as int, radix as nat),
    {
        numeral_text(self.value, radix)
    }

    /// The text by which the integer is written out.
    pub fn to_json(&self) -> (text: String)
        ensures
            text@ == signed_numeral(self.value as int, 10),
    {
        self.to_string(10)
    }
}

proof fn lemma_reduced(value: int)
    requires
        -0x1_0000_0000_0000_0000 <= value < 0x1_0000_0000_0000_0000,
    ensures
        signed_low_bits(value) == if value > 0x7fff_ffff_ffff_ffff {
            value - 0x1_0000_0000_0000_0000
        } else if value < -0x8000_0000_0000_0000 {
            value + 0x1_0000_0000_0000_0000
        } else {
            value
        },
{
    let m: int = 0x1_0000_0000_0000_0000;
    if value >= 0 {
        vstd::arithmetic::div_mod::lemma_small_mod(value as nat, m as nat);
    } else {
        vstd::arithmetic::div_mod::lemma_mod_add_multiples_vanish(value, m);
        vstd::arithmetic::div_mod::lemma_small_mod((value + m) as nat, m as nat);
    }
}

/// The text of an integer, read again, denotes that integer.
pub proof fn integers_read_back(value: int)
    ensures
        integer_of(signed_numeral(value, 10)) == Some(value),
{
    let text = signed_numeral(value, 10);
    let digits = crate::text::numeral(
        if value < 0 {
            -value
        } else {
            value
        } as nat,
        10,
    );
    crate::text::numeral_reads_back(
        if value < 0 {
            -value
        } else {
            value
        } as nat,
        10,
    );
    reveal_strlit("0x");
    assert(crate::text::digit_value(digits[0]) is Some);
    if value < 0 {
        assert(text.skip(1) =~= digits);
        assert(text.take(2)[0] == '-');
    } else {
        if digits.len() >= 2 {
            assert(crate::text::digit_value(digits[1]) is Some);
            assert(digits.take(2)[1] == digits[1]);
        }
    }
}

/// A number that is reduced to sixty-four bits differs from the number by a multiple of
/// two to the sixty-fourth, and lies in the range of its type; one in that range stays.
pub proof fn reducing_keeps_the_low_bits(value: int)
    ensures
        0 <= low_bits(value) <= 0xffff_ffff_ffff_ffff,
        (value - low_bits(value)) % 0x1_0000_0000_0000_0000 == 0,
        0 <= value <= 0xffff_ffff_ffff_ffff ==> low_bits(value) == value,
        -0x8000_0000_0000_0000 <= signed_low_bits(value) <= 0x7fff_ffff_ffff_ffff,
        (value - signed_low_bits(value)) % 0x1_0000_0000_0000_0000 == 0,
        -0x8000_0000_0000_0000 <= value <= 0x7fff_ffff_ffff_ffff ==> signed_low_bits(value)
            == value,
{
    let m: int = 0x1_0000_0000_0000_0000;
    let q = value / m;
    vstd::arithmetic::div_mod::lemma_fundamental_div_mod(value, m);
    vstd::arithmetic::div_mod::lemma_mod_multiples_basic(q, m);
    vstd::arithmetic::div_mod::lemma_mod_multiples_basic(q + 1, m);
    if 0 <= value < m {
        vstd::arithmetic::div_mod::lemma_small_mod(value as nat, m as nat);
    }
    if -m <= value < m {
        lemma_reduced(value);
    }
}

/// Shifting to the right divides by the power of two and rounds downwards, whatever the
/// sign.
pub proof fn shifting_divides_downwards(value: int, places: nat)
    ensures
        halved(value, places) * pow(2, places) <= value,
        value < (halved(value, places) + 1) * pow(2, places),
    decreases places,
{
    reveal(pow);
    if places > 0 {
        let rest = (places - 1) as nat;
        shifting_divides_downwards(value / 2, rest);
        let h = halved(value / 2, rest);
        let p = pow(2, rest);
        let v = value / 2;
        assert(pow(2, places) == 2 * p);
        assert(h * (2 * p) == 2 * (h * p)) by (nonlinear_arith);
        assert((h + 1) * (2 * p) == 2 * ((h + 1) * p)) by (nonlinear_arith);
        assert(2 * v <= value <= 2 * v + 1);
        assert(v + 1 <= (h + 1) * p);
    }
}

/// A text denotes the number of its decimal digits, the opposite of it behind a minus sign,
/// or the number of its hexadecimal digits behind `0x`; every other text denotes none.
pub proof fn texts_denote_their_digits(digits: Seq<char>)
    requires
        digits.len() > 0,
    ensures
        all_digits(digits, 10) ==> integer_of(digits) == Some(digits_value(digits, 10) as int),
        all_digits(digits, 10) ==> integer_of("-"@ + digits) == Some(
            0 - digits_value(digits, 10),
        ),
        all_digits(digits, 16) ==> integer_of("0x"@ + digits) == Some(
            digits_value(digits, 16) as int,
        ),
        !all_digits(digits, 10) ==> integer_of("-"@ + digits) is None,
        !all_digits(digits, 16) ==> integer_of("0x"@ + digits) is None,
        !all_digits(digits, 10) && digits[0] as u32 != 0x2d && !(digits.len() >= 2 && digits.take(2)
            == "0x"@) ==> integer_of(digits) is None,
        integer_of(""@) is None,
        integer_of("-"@) is None,
        integer_of("0x"@) is None,
{
    reveal_strlit("");
    reveal_strlit("-");
    reveal_strlit("0x");
    assert(("-"@ + digits).skip(1) =~= digits);
    assert(("0x"@ + digits).skip(2) =~= digits);
    assert(("0x"@ + digits).take(2) =~= "0x"@);
    assert(("-"@ + digits).take(2)[0] == '-');
    assert("-"@.skip(1) =~= seq![]);
    assert("0x"@.skip(2) =~= seq![]);
    assert("0x"@.take(2) =~= "0x"@);
    if all_digits(digits, 10) {
        assert(crate::text::digit_value(digits[0]) is Some);
        if digits.len() >= 2 {
            assert(crate::text::digit_value(digits[1]) is Some && crate::text::digit_value(
                digits[1],
            )->0 < 10);
            assert(digits.take(2)[1] == digits[1]);
        }
    }
}

} // verus!
