//! Text as 16-bit units.

use vstd::prelude::*;
use vstd::string::*;

verus! {

/// Whether a number is the code point of a character.
pub open spec fn is_code_point(value: u32) -> bool {
    value <= 0xd7ff || 0xe000 <= value <= 0x10ffff
}

/// `char::from_u32` gives the character with a code point, and nothing for other numbers.
pub assume_specification[ char::from_u32 ](value: u32) -> (c: Option<char>)
    ensures
        is_code_point(value) ==> c == Some(value as char),
        !is_code_point(value) ==> c is None,
;

/// The units of one character: one, or a pair of surrogates.
pub open spec fn char_units(c: char) -> Seq<u16> {
    let code = c as u32;
    if code < 0x10000 {
        seq![code as u16]
    } else {
        seq![
            (0xd800 + (code - 0x10000) / 0x400) as u16,
            (0xdc00 + (code - 0x10000) % 0x400) as u16,
        ]
    }
}

/// The units of a text.
pub open spec fn text_units(text: Seq<char>) -> Seq<u16>
    decreases text.len(),
{
    if text.len() == 0 {
        Seq::empty()
    } else {
        char_units(text[0]) + text_units(text.drop_first())
    }
}

/// The text that units stand for from a position on, behind what was read already.
/// Surrogates count only in pairs.
pub open spec fn units_text_from(units: Seq<u16>, pos: int, found: Seq<char>) -> Option<Seq<char>>
    decreases units.len() - pos,
{
    if pos < 0 || pos >= units.len() {
        Some(found)
    } else {
        let unit = units[pos];
        if unit < 0xd800 || unit > 0xdfff {
            units_text_from(units, pos + 1, found.push(unit as u32 as char))
        } else if unit <= 0xdbff && pos + 1 < units.len() && 0xdc00 <= units[pos + 1] <= 0xdfff {
            units_text_from(
                units,
                pos + 2,
                found.push(
                    (0x10000 + (unit - 0xd800) * 0x400 + (units[pos + 1] - 0xdc00)) as u32 as char,
                ),
            )
        } else {
            None
        }
    }
}

/// Reading the units of a text gives the text.
pub proof fn units_read_back(before: Seq<u16>, text: Seq<char>, found: Seq<char>)
    ensures
        units_text_from(before + text_units(text), before.len() as int, found) == Some(found + text),
    decreases text.len(),
{
    let units = before + text_units(text);
    if text.len() == 0 {
        assert(units =~= before);
        assert(found + text =~= found);
    } else {
        let c = text[0];
        let first = char_units(c);
        let rest = text.drop_first();
        let next = before + first;
        assert(units =~= next + text_units(rest));
        units_read_back(next, rest, found.push(c));
        assert(found.push(c) + rest =~= found + text);
        let pos = before.len() as int;
        let code = c as u32;
        vstd::utf8::char_is_scalar(c);
        vstd::utf8::char_u32_cast(c, code);
        assert(units[pos] == first[0]);
        assert(code <= 0xd7ff || 0xe000 <= code <= 0x10ffff);
        if code < 0x10000 {
            assert(first[0] as u32 == code);
            assert(first[0] as u32 as char == c);
            assert(units_text_from(units, pos, found) == units_text_from(
                units,
                pos + 1,
                found.push(c),
            ));
        } else {
            assert(units[pos + 1] == first[1]);
            let high = (code - 0x10000) / 0x400;
            let low = (code - 0x10000) % 0x400;
            assert(first[0] == 0xd800 + high);
            assert(first[1] == 0xdc00 + low);
            assert(0x10000 + high * 0x400 + low == code);
            assert(units_text_from(units, pos, found) == units_text_from(
                units,
                pos + 2,
                found.push(c),
            ));
        }
    }
}

/// The units of a text.
pub fn encode_utf16(text: &[char]) -> (units: Vec<u16>)
    ensures
        units@ == text_units(text@),
{
    let mut units: Vec<u16> = Vec::new();
    let mut i: usize = 0;
    assert(text@.skip(0) =~= text@);
    assert(units@ + text_units(text@) =~= text_units(text@));
    while i < text.len()
        invariant
            i <= text@.len(),
            units@ + text_units(text@.skip(i as int)) == text_units(text@),
        decreases text@.len() - i,
    {
        let ghost before = units@;
        let code: u32 = text[i] as u32;
        assert(text@.skip(i as int).drop_first() =~= text@.skip(i + 1));
        assert(text@.skip(i as int)[0] == text@[i as int]);
        if code < 0x10000 {
            units.push(code as u16);
        } else {
            units.push((0xd800 + (code - 0x10000) / 0x400) as u16);
            units.push((0xdc00 + (code - 0x10000) % 0x400) as u16);
        }
        assert(units@ =~= before + char_units(text@[i as int]));
        assert(units@ + text_units(text@.skip(i + 1)) =~= before + (char_units(text@[i as int])
            + text_units(text@.skip(i + 1))));
        i = i + 1;
    }
    assert(text@.skip(text@.len() as int) =~= Seq::<char>::empty());
    assert(units@ + Seq::<u16>::empty() =~= units@);
    units
}

/// The text that units stand for, if all surrogates come in pairs.
pub fn decode_utf16(units: &[u16]) -> (text: Option<String>)
    ensures
        match (text, units_text_from(units@, 0, Seq::empty())) {
            (Some(text), Some(expected)) => text@ == expected,
            (None, None) => true,
            _ => false,
        },
{
    let mut text: String = String::new();
    let mut pos: usize = 0;
    while pos < units.len()
        invariant
            pos <= units@.len(),
            units_text_from(units@, 0, Seq::empty()) == units_text_from(
                units@,
                pos as int,
                text@,
            ),
        decreases units@.len() - pos,
    {
        let unit: u16 = units[pos];
        if unit < 0xd800 || unit > 0xdfff {
            match char::from_u32(unit as u32) {
                Some(c) => {
                    text.push(c);
                },
                None => {},
            }
            pos = pos + 1;
        } else if unit <= 0xdbff && units.len() - pos > 1 && 0xdc00 <= units[pos + 1] && units[pos
            + 1] <= 0xdfff {
            let code: u32 = 0x10000 + (unit as u32 - 0xd800) * 0x400 + (units[pos + 1] as u32
                - 0xdc00);
            match char::from_u32(code) {
                Some(c) => {
                    text.push(c);
                },
                None => {},
            }
            pos = pos + 2;
        } else {
            return None;
        }
    }
    Some(text)
}

/// A character below 0x10000 is one unit, its code; any other is a high surrogate and a low
/// one, which hold the upper and the lower ten bits of how far its code lies above 0x10000.
pub proof fn characters_are_units_or_pairs(c: char)
    ensures
        c as u32 <= 0xffff ==> char_units(c) == seq![c as u32 as u16],
        c as u32 > 0xffff ==> {
            let units = char_units(c);
            &&& units.len() == 2
            &&& 0xd800 <= units[0] <= 0xdbff
            &&& 0xdc00 <= units[1] <= 0xdfff
            &&& c as u32 == 0x10000 + 1024 * (units[0] - 0xd800) + (units[1] - 0xdc00)
        },
{
    vstd::utf8::char_is_scalar(c);
    vstd::utf8::char_u32_cast(c, c as u32);
}

/// The units of a text are those of its characters, one after another.
pub proof fn units_follow_the_characters(left: Seq<char>, right: Seq<char>)
    ensures
        text_units(left + right) == text_units(left) + text_units(right),
        forall|c: char| #[trigger] text_units(seq![c]) == char_units(c),
    decreases left.len(),
{
    assert forall|c: char| #[trigger] text_units(seq![c]) == char_units(c) by {
        assert(seq![c].drop_first() =~= Seq::<char>::empty());
        assert(text_units(Seq::<char>::empty()) =~= Seq::<u16>::empty());
        assert(char_units(c) + Seq::<u16>::empty() =~= char_units(c));
    }
    if left.len() == 0 {
        assert(left + right =~= right);
        assert(Seq::<u16>::empty() + text_units(right) =~= text_units(right));
    } else {
        units_follow_the_characters(left.drop_first(), right);
        assert((left + right).drop_first() =~= left.drop_first() + right);
        assert(text_units(left + right) =~= text_units(left) + text_units(right));
    }
}

/// A surrogate that is not part of a pair stands for nothing, and makes the whole row
/// unreadable.
pub proof fn lone_surrogates_are_refused(before: Seq<char>, unit: u16, after: Seq<u16>)
    requires
        0xd800 <= unit <= 0xdfff,
        unit >= 0xdc00 || after.len() == 0 || after[0] < 0xdc00 || after[0] > 0xdfff,
    ensures
        units_text_from(text_units(before) + seq![unit] + after, 0, Seq::empty()) is None,
{
    lemma_front_is_read(Seq::empty(), before, seq![unit] + after, Seq::empty());
    let units = text_units(before) + seq![unit] + after;
    assert(Seq::<u16>::empty() + text_units(before) + (seq![unit] + after) =~= units);
    let pos = text_units(before).len() as int;
    assert(units[pos] == unit);
    if after.len() > 0 {
        assert(units[pos + 1] == after[0]);
    }
}

proof fn lemma_front_is_read(
    before: Seq<u16>,
    text: Seq<char>,
    after: Seq<u16>,
    found: Seq<char>,
)
    ensures
        units_text_from(before + text_units(text) + after, before.len() as int, found)
            == units_text_from(
            before + text_units(text) + after,
            (before.len() + text_units(text).len()) as int,
            found + text,
        ),
    decreases text.len(),
{
    let units = before + text_units(text) + after;
    if text.len() == 0 {
        assert(found + text =~= found);
    } else {
        let c = text[0];
        let first = char_units(c);
        let rest = text.drop_first();
        let next = before + first;
        assert(units =~= next + text_units(rest) + after);
        lemma_front_is_read(next, rest, after, found.push(c));
        assert(found.push(c) + rest =~= found + text);
        let pos = before.len() as int;
        let code = c as u32;
        vstd::utf8::char_is_scalar(c);
        vstd::utf8::char_u32_cast(c, code);
        assert(units[pos] == first[0]);
        if code < 0x10000 {
            assert(first[0] as u32 as char == c);
        } else {
            assert(units[pos + 1] == first[1]);
            let high = (code - 0x10000) / 0x400;
            let low = (code - 0x10000) % 0x400;
            assert(0x10000 + high * 0x400 + low == code);
        }
    }
}

} // verus!
