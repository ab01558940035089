//! Arrays and objects of a Java runtime as scripts see them.

use crate::bytes::{le_bytes, le_value, push_le, read_le};
use crate::pointer::{signed_bits, unsigned_bits};
use crate::script::{internal_error, ErrorKind, ScriptError};
use crate::text::{
    chars_of, is_space, line_views, lines, lines_of, numeral, push_numeral, same_text, text_of,
    utf8_text,
};
use vstd::prelude::*;
use vstd::slice::slice_subrange;
use vstd::string::*;
use vstd::utf8::{decode_utf8, valid_utf8};

verus! {

/// Whether one text occurs in another one.
pub open spec fn occurs(part: Seq<char>, text: Seq<char>) -> bool {
    exists|at: int|
        0 <= at && at + part.len() <= text.len() && #[trigger] text.subrange(
            at,
            at + part.len(),
        ) == part
}

/// A text without the white space at its front.
pub open spec fn after_spaces(text: Seq<char>) -> Seq<char>
    decreases text.len(),
{
    if text.len() > 0 && is_space(text[0]) {
        after_spaces(text.drop_first())
    } else {
        text
    }
}

/// The characters up to the first white space.
pub open spec fn first_word(text: Seq<char>) -> Seq<char>
    decreases text.len(),
{
    if text.len() > 0 && !is_space(text[0]) {
        seq![text[0]] + first_word(text.drop_first())
    } else {
        seq![]
    }
}

/// What follows the first word.
pub open spec fn after_word(text: Seq<char>) -> Seq<char>
    decreases text.len(),
{
    if text.len() > 0 && !is_space(text[0]) {
        after_word(text.drop_first())
    } else {
        text
    }
}

/// The second word of a line; it is empty if there is none.
pub open spec fn second_word(line: Seq<char>) -> Seq<char> {
    first_word(after_spaces(after_word(after_spaces(line))))
}

/// Whether a line of the memory map is code of the runtime.
pub open spec fn is_runtime_code(line: Seq<char>) -> bool {
    occurs("/libart.so"@, line) && second_word(line).contains('x')
}

/// Whether a memory map has code of the runtime.
pub open spec fn maps_runtime_code(maps: Seq<char>) -> bool {
    exists|i: int| 0 <= i < lines(maps).len() && is_runtime_code(#[trigger] lines(maps)[i])
}

fn has_part(text: &Vec<char>, part: &str) -> (found: bool)
    ensures
        found == occurs(part@, text@),
{
    let wanted: Vec<char> = chars_of(part);
    if wanted.len() > text.len() {
        return false;
    }
    let length: usize = text.len();
    let mut at: usize = 0;
    while at <= length - wanted.len()
        invariant
            wanted@ == part@,
            length == text@.len(),
            wanted@.len() <= text@.len(),
            at <= text@.len() - wanted@.len() + 1,
            forall|k: int|
                0 <= k < at ==> #[trigger] text@.subrange(k, k + part@.len()) != part@,
        decreases text@.len() - wanted@.len() + 1 - at,
    {
        let mut same: usize = 0;
        while same < wanted.len() && text[at + same] == wanted[same]
            invariant
                wanted@ == part@,
                length == text@.len(),
                same <= wanted@.len(),
                at + wanted@.len() <= text@.len(),
                forall|k: int| 0 <= k < same ==> text@[at + k] == wanted@[k],
            decreases wanted@.len() - same,
        {
            same = same + 1;
        }
        if same == wanted.len() {
            assert(text@.subrange(at as int, at + part@.len()) =~= part@);
            return true;
        }
        assert(text@.subrange(at as int, at + part@.len())[same as int] != part@[same as int]);
        at = at + 1;
    }
    assert forall|k: int| 0 <= k && k + part@.len() <= text@.len() implies #[trigger] text@.subrange(
        k,
        k + part@.len(),
    ) != part@ by {
        assert(k < at);
    }
    false
}

fn skip_spaces(text: &Vec<char>, from: usize) -> (to: usize)
    requires
        from <= text@.len(),
    ensures
        from <= to <= text@.len(),
        text@.skip(to as int) == after_spaces(text@.skip(from as int)),
{
    let mut to: usize = from;
    while to < text.len() && text[to].is_whitespace()
        invariant
            from <= to <= text@.len(),
            after_spaces(text@.skip(from as int)) == after_spaces(text@.skip(to as int)),
        decreases text@.len() - to,
    {
        assert(text@.skip(to as int).drop_first() =~= text@.skip(to + 1));
        assert(text@.skip(to as int)[0] == text@[to as int]);
        to = to + 1;
    }
    if to < text.len() {
        assert(text@.skip(to as int)[0] == text@[to as int]);
    }
    to
}

fn skip_word(text: &Vec<char>, from: usize) -> (to: usize)
    requires
        from <= text@.len(),
    ensures
        from <= to <= text@.len(),
        text@.skip(to as int) == after_word(text@.skip(from as int)),
        text@.subrange(from as int, to as int) == first_word(text@.skip(from as int)),
{
    let mut to: usize = from;
    assert(text@.subrange(from as int, from as int) + first_word(text@.skip(from as int))
        =~= first_word(text@.skip(from as int)));
    while to < text.len() && !text[to].is_whitespace()
        invariant
            from <= to <= text@.len(),
            after_word(text@.skip(from as int)) == after_word(text@.skip(to as int)),
            first_word(text@.skip(from as int)) == text@.subrange(from as int, to as int)
                + first_word(text@.skip(to as int)),
        decreases text@.len() - to,
    {
        assert(text@.skip(to as int).drop_first() =~= text@.skip(to + 1));
        assert(text@.skip(to as int)[0] == text@[to as int]);
        assert(text@.subrange(from as int, to + 1) =~= text@.subrange(from as int, to as int)
            + seq![text@[to as int]]);
        assert(text@.subrange(from as int, to as int) + first_word(text@.skip(to as int))
            =~= text@.subrange(from as int, to + 1) + first_word(text@.skip(to + 1)));
        to = to + 1;
    }
    if to < text.len() {
        assert(text@.skip(to as int)[0] == text@[to as int]);
    }
    assert(first_word(text@.skip(to as int)) =~= seq![]);
    assert(text@.subrange(from as int, to as int) =~= first_word(text@.skip(from as int)));
    to
}

fn runtime_code_line(line: &Vec<char>) -> (code: bool)
    ensures
        code == is_runtime_code(line@),
{
    if !has_part(line, "/libart.so") {
        return false;
    }
    assert(line@.skip(0) =~= line@);
    let a: usize = skip_spaces(line, 0);
    let b: usize = skip_word(line, a);
    let c: usize = skip_spaces(line, b);
    let d: usize = skip_word(line, c);
    let ghost word = line@.subrange(c as int, d as int);
    assert(word == second_word(line@));
    let mut i: usize = c;
    while i < d
        invariant
            c <= i <= d <= line@.len(),
            word == line@.subrange(c as int, d as int),
            word == second_word(line@),
            occurs("/libart.so"@, line@),
            forall|k: int| c <= k < i ==> line@[k] != 'x',
        decreases d - i,
    {
        if line[i] == 'x' {
            assert(word[i - c] == 'x');
            return true;
        }
        i = i + 1;
    }
    assert forall|k: int| 0 <= k < word.len() implies word[k] != 'x' by {
        assert(word[k] == line@[c + k]);
    }
    false
}

/// Whether the process has loaded a Java runtime, from its memory map, if that can be read.
pub fn art_runtime_loaded(maps: Option<&str>) -> (loaded: bool)
    ensures
        loaded == match maps {
            Some(text) => maps_runtime_code(text@),
            None => false,
        },
{
    let text: &str = match maps {
        Some(text) => text,
        None => {
            return false;
        },
    };
    let chars: Vec<char> = chars_of(text);
    let list: Vec<Vec<char>> = lines_of(chars.as_slice());
    let mut i: usize = 0;
    while i < list.len()
        invariant
            i <= list@.len(),
            line_views(list@) == lines(text@),
            maps == Some(text),
            forall|k: int| 0 <= k < i ==> !is_runtime_code(#[trigger] lines(text@)[k]),
        decreases list@.len() - i,
    {
        assert(lines(text@)[i as int] == list@[i as int]@);
        if runtime_code_line(&list[i]) {
            assert(is_runtime_code(lines(text@)[i as int]));
            assert(maps_runtime_code(text@));
            return true;
        }
        i = i + 1;
    }
    false
}

/// The version of the platform, from the bytes that the system gave; `length` of them hold.
pub fn android_release(buffer: &[u8], length: i32) -> (release: Option<String>)
    requires
        length <= buffer@.len(),
    ensures
        release is Some <==> length > 0 && valid_utf8(buffer@.take(length as int)),
        release matches Some(text) ==> text@ == decode_utf8(buffer@.take(length as int)),
{
    if length <= 0 {
        return None;
    }
    let bytes: Vec<u8> = vstd::slice::slice_to_vec(slice_subrange(buffer, 0, length as usize));
    assert(bytes@ =~= buffer@.take(length as int));
    match utf8_text(bytes) {
        Ok(text) => Some(text),
        Err(_) => None,
    }
}

/// What an object handle that a script passes is worth.
#[derive(Clone, Copy, Debug, PartialEq, Eq, Structural)]
pub enum HandleArgument {
    Missing,
    /// A value that does not convert to a handle.
    Other,
    Handle(u64),
}

/// The object that a script means.
pub fn required_handle(argument: HandleArgument, operation: &str) -> (result: Result<
    u64,
    ScriptError,
>)
    ensures
        result is Ok <==> (argument matches HandleArgument::Handle(handle) && handle != 0),
        result matches Ok(handle) ==> argument == HandleArgument::Handle(handle),
        result matches Err(error) ==> error@ == (
            ErrorKind::InternalError,
            operation@ + if argument is Missing {
                "() requires an object handle"@
            } else {
                "() requires a live Java object"@
            },
        ),
{
    let problem: &'static str = match argument {
        HandleArgument::Missing => "() requires an object handle",
        HandleArgument::Handle(handle) => if handle != 0 {
            return Ok(handle);
        } else {
            "() requires a live Java object"
        },
        HandleArgument::Other => "() requires a live Java object",
    };
    Err(
        ScriptError {
            kind: ErrorKind::InternalError,
            message: crate::script::joined(operation, problem),
        },
    )
}

/// The class of an array's elements, by the class of the array.
pub open spec fn element_class(class: Seq<char>) -> Seq<char> {
    if class.len() == 0 || class[0] != '[' {
        class
    } else {
        let inner = class.skip(1);
        if inner.len() >= 2 && inner[0] == 'L' && inner.last() == ';' {
            inner.subrange(1, inner.len() - 1)
        } else {
            inner
        }
    }
}

/// The class of an array's elements, by the class of the array.
pub fn element_class_from_array_class(arr_class: &str) -> (class: String)
    ensures
        class@ == element_class(arr_class@),
{
    let chars: Vec<char> = chars_of(arr_class);
    let length: usize = chars.len();
    if length == 0 || chars[0] != '[' {
        return String::from_str(arr_class);
    }
    let ghost inner = arr_class@.skip(1);
    let (start, end): (usize, usize) = if length >= 3 && chars[1] == 'L' && chars[length - 1]
        == ';' {
        (2, length - 1)
    } else {
        (1, length)
    };
    assert(inner.len() >= 2 ==> inner[0] == chars@[1] && inner.last() == chars@[length - 1]);
    let class: String = text_of(slice_subrange(chars.as_slice(), start, end));
    assert(class@ =~= element_class(arr_class@));
    class
}

/// A text with every dot replaced by a slash.
pub open spec fn slashed(text: Seq<char>) -> Seq<char> {
    Seq::new(
        text.len(),
        |i: int|
            if text[i] == '.' {
                '/'
            } else {
                text[i]
            },
    )
}

/// The signature of an array's elements, by the class of the array.
pub open spec fn element_signature(class: Seq<char>) -> Seq<char> {
    if class.len() > 1 && class[0] == '[' {
        class.skip(1)
    } else {
        seq!['L'] + slashed(class) + seq![';']
    }
}

/// The signature of an array's elements, by the class of the array.
pub fn element_sig_from_array_class(arr_class: &str) -> (signature: String)
    ensures
        signature@ == element_signature(arr_class@),
{
    let chars: Vec<char> = chars_of(arr_class);
    if chars.len() > 1 && chars[0] == '[' {
        let signature: String = text_of(slice_subrange(chars.as_slice(), 1, chars.len()));
        assert(signature@ =~= arr_class@.skip(1));
        return signature;
    }
    let mut signature: String = String::new();
    signature.push('L');
    let mut i: usize = 0;
    assert(signature@ =~= seq!['L'] + slashed(arr_class@).take(0));
    while i < chars.len()
        invariant
            i <= chars@.len(),
            chars@ == arr_class@,
            signature@ == seq!['L'] + slashed(arr_class@).take(i as int),
        decreases chars@.len() - i,
    {
        let c: char = if chars[i] == '.' {
            '/'
        } else {
            chars[i]
        };
        signature.push(c);
        i = i + 1;
        assert(signature@ =~= seq!['L'] + slashed(arr_class@).take(i as int));
    }
    signature.push(';');
    assert(signature@ =~= seq!['L'] + slashed(arr_class@) + seq![';']);
    signature
}

/// A type of numbers that arrays hold without objects.
#[derive(Clone, Copy, Debug, PartialEq, Eq, Structural)]
pub enum PrimitiveArray {
    Boolean,
    Byte,
    Char,
    Short,
    Int,
    Long,
    Float,
    Double,
}

impl PrimitiveArray {
    /// The name of the type.
    pub open spec fn name(self) -> Seq<char> {
        match self {
            PrimitiveArray::Boolean => "boolean"@,
            PrimitiveArray::Byte => "byte"@,
            PrimitiveArray::Char => "char"@,
            PrimitiveArray::Short => "short"@,
            PrimitiveArray::Int => "int"@,
            PrimitiveArray::Long => "long"@,
            PrimitiveArray::Float => "float"@,
            PrimitiveArray::Double => "double"@,
        }
    }

    /// How many bytes an element takes.
    pub open spec fn width(self) -> nat {
        match self {
            PrimitiveArray::Boolean | PrimitiveArray::Byte => 1,
            PrimitiveArray::Char | PrimitiveArray::Short => 2,
            PrimitiveArray::Int | PrimitiveArray::Float => 4,
            PrimitiveArray::Long | PrimitiveArray::Double => 8,
        }
    }

    /// The letter of the type in signatures.
    pub open spec fn letter(self) -> char {
        match self {
            PrimitiveArray::Boolean => 'Z',
            PrimitiveArray::Byte => 'B',
            PrimitiveArray::Char => 'C',
            PrimitiveArray::Short => 'S',
            PrimitiveArray::Int => 'I',
            PrimitiveArray::Long => 'J',
            PrimitiveArray::Float => 'F',
            PrimitiveArray::Double => 'D',
        }
    }

    /// How many bytes an element takes.
    pub fn element_size(self) -> (size: usize)
        ensures
            size == self.width(),
    {
        match self {
            PrimitiveArray::Boolean | PrimitiveArray::Byte => 1,
            PrimitiveArray::Char | PrimitiveArray::Short => 2,
            PrimitiveArray::Int | PrimitiveArray::Float => 4,
            PrimitiveArray::Long | PrimitiveArray::Double => 8,
        }
    }

    /// The type with the given name.
    pub fn named(name: &str) -> (kind: Option<PrimitiveArray>)
        ensures
            kind matches Some(k) ==> k.name() == name@,
            kind is None ==> forall|k: PrimitiveArray| (#[trigger] k.name()) != name@,
    {
        let kind: Option<PrimitiveArray> = if same_text(name, "boolean") {
            Some(PrimitiveArray::Boolean)
        } else if same_text(name, "byte") {
            Some(PrimitiveArray::Byte)
        } else if same_text(name, "char") {
            Some(PrimitiveArray::Char)
        } else if same_text(name, "short") {
            Some(PrimitiveArray::Short)
        } else if same_text(name, "int") {
            Some(PrimitiveArray::Int)
        } else if same_text(name, "long") {
            Some(PrimitiveArray::Long)
        } else if same_text(name, "float") {
            Some(PrimitiveArray::Float)
        } else if same_text(name, "double") {
            Some(PrimitiveArray::Double)
        } else {
            None
        };
        kind
    }

    /// The type with the given letter.
    pub fn with_letter(letter: char) -> (kind: Option<PrimitiveArray>)
        ensures
            kind matches Some(k) ==> k.letter() == letter,
            kind is None ==> forall|k: PrimitiveArray| (#[trigger] k.letter()) != letter,
    {
        if letter == 'Z' {
            Some(PrimitiveArray::Boolean)
        } else if letter == 'B' {
            Some(PrimitiveArray::Byte)
        } else if letter == 'C' {
            Some(PrimitiveArray::Char)
        } else if letter == 'S' {
            Some(PrimitiveArray::Short)
        } else if letter == 'I' {
            Some(PrimitiveArray::Int)
        } else if letter == 'J' {
            Some(PrimitiveArray::Long)
        } else if letter == 'F' {
            Some(PrimitiveArray::Float)
        } else if letter == 'D' {
            Some(PrimitiveArray::Double)
        } else {
            None
        }
    }
}

/// A script's value as far as it converts to an element. Floating-point numbers come as
/// their bits.
#[derive(Clone, Copy, Debug, PartialEq, Eq, Structural)]
pub struct ElementValue {
    pub truth: Option<bool>,
    pub integer: Option<i64>,
    pub float: Option<u32>,
    pub double: Option<u64>,
}

/// The number whose low bytes are an element, if the value converts to one.
pub open spec fn element_number(kind: PrimitiveArray, value: ElementValue) -> Option<int> {
    match kind {
        PrimitiveArray::Boolean => Some(
            if value.truth == Some(true) {
                1
            } else {
                0
            },
        ),
        PrimitiveArray::Float => match value.float {
            Some(bits) => Some(bits as int),
            None => None,
        },
        PrimitiveArray::Double => match value.double {
            Some(bits) => Some(bits as int),
            None => None,
        },
        _ => match value.integer {
            Some(number) => Some(number as int),
            None => None,
        },
    }
}

/// The bytes of an element, low byte first: a number that is too large loses its high bytes.
pub open spec fn element_bytes(kind: PrimitiveArray, number: int) -> Seq<u8> {
    le_bytes((number % 0x1_0000_0000_0000_0000) as nat, kind.width())
}

/// Appends the bytes of an element.
pub fn encode_primitive_element(kind: PrimitiveArray, value: ElementValue, output: &mut Vec<u8>) -> (result:
    Result<(), ()>)
    ensures
        result is Ok <==> element_number(kind, value) is Some,
        final(output)@ == match element_number(kind, value) {
            Some(number) => old(output)@ + element_bytes(kind, number),
            None => old(output)@,
        },
{
    let bits: u64 = match kind {
        PrimitiveArray::Boolean => match value.truth {
            Some(true) => 1,
            _ => 0,
        },
        PrimitiveArray::Float => match value.float {
            Some(bits) => bits as u64,
            None => {
                return Err(());
            },
        },
        PrimitiveArray::Double => match value.double {
            Some(bits) => bits,
            None => {
                return Err(());
            },
        },
        _ => match value.integer {
            Some(number) => unsigned_bits(number),
            None => {
                return Err(());
            },
        },
    };
    push_le(output, bits, kind.element_size());
    Ok(())
}

/// The bytes of elements in a row.
pub open spec fn elements_bytes(kind: PrimitiveArray, values: Seq<ElementValue>) -> Seq<u8>
    decreases values.len(),
{
    if values.len() == 0 {
        seq![]
    } else {
        elements_bytes(kind, values.drop_last()) + element_bytes(
            kind,
            element_number(kind, values.last())->0,
        )
    }
}

/// Whether all values up to one convert to elements.
pub open spec fn convertible(kind: PrimitiveArray, values: Seq<ElementValue>, count: int) -> bool {
    forall|i: int| 0 <= i < count ==> element_number(kind, #[trigger] values[i]) is Some
}

/// The bytes of an array's elements, or else the first value that is no element.
pub fn encode_elements(kind: PrimitiveArray, values: &Vec<ElementValue>) -> (result: Result<
    Vec<u8>,
    usize,
>)
    ensures
        result is Ok <==> convertible(kind, values@, values@.len() as int),
        result matches Ok(bytes) ==> bytes@ == elements_bytes(kind, values@),
        result matches Err(index) ==> {
            &&& index < values@.len()
            &&& element_number(kind, values@[index as int]) is None
            &&& convertible(kind, values@, index as int)
        },
{
    let mut output: Vec<u8> = Vec::new();
    let mut i: usize = 0;
    assert(values@.take(0) =~= seq![]);
    while i < values.len()
        invariant
            i <= values@.len(),
            convertible(kind, values@, i as int),
            output@ == elements_bytes(kind, values@.take(i as int)),
        decreases values@.len() - i,
    {
        assert(values@.take(i + 1).drop_last() =~= values@.take(i as int));
        match encode_primitive_element(kind, values[i], &mut output) {
            Ok(_) => {},
            Err(_) => {
                assert(element_number(kind, values@[i as int]) is None);
                return Err(i);
            },
        }
        i = i + 1;
    }
    assert(values@.take(values@.len() as int) =~= values@);
    Ok(output)
}

/// An element as a script sees it. Floating-point numbers come as their bits.
#[derive(Clone, Copy, Debug, PartialEq, Eq, Structural)]
pub enum ElementRead {
    Truth(bool),
    Int(i32),
    Long(i64),
    Float(u32),
    Double(u64),
}

/// A number of some bytes with a sign.
pub open spec fn with_sign(value: int, half: int) -> int {
    if value < half {
        value
    } else {
        value - 2 * half
    }
}

/// Whether an element is what the first bytes of a buffer hold.
pub open spec fn element_is(kind: PrimitiveArray, bytes: Seq<u8>, element: ElementRead) -> bool {
    let value = le_value(bytes.take(kind.width() as int)) as int;
    match kind {
        PrimitiveArray::Boolean => element == ElementRead::Truth(value != 0),
        PrimitiveArray::Byte => element matches ElementRead::Int(n) && n == with_sign(value, 0x80),
        PrimitiveArray::Char => element matches ElementRead::Int(n) && n == value,
        PrimitiveArray::Short => element matches ElementRead::Int(n) && n == with_sign(
            value,
            0x8000,
        ),
        PrimitiveArray::Int => element matches ElementRead::Int(n) && n == with_sign(
            value,
            0x8000_0000,
        ),
        PrimitiveArray::Long => element matches ElementRead::Long(n) && n == with_sign(
            value,
            0x8000_0000_0000_0000,
        ),
        PrimitiveArray::Float => element matches ElementRead::Float(bits) && bits == value,
        PrimitiveArray::Double => element matches ElementRead::Double(bits) && bits == value,
    }
}

/// The element that a buffer holds.
pub fn primitive_element(kind: PrimitiveArray, buffer: &[u8]) -> (element: ElementRead)
    requires
        buffer@.len() >= kind.width(),
    ensures
        element_is(kind, buffer@, element),
{
    let size: usize = kind.element_size();
    let value: u64 = read_le(buffer, 0, size);
    proof {
        assert(buffer@.subrange(0, size as int) =~= buffer@.take(size as int));
        crate::bytes::lemma_le_value_bound(buffer@.take(size as int));
        crate::bytes::lemma_byte_ranges();
    }
    match kind {
        PrimitiveArray::Boolean => ElementRead::Truth(value != 0),
        PrimitiveArray::Byte => ElementRead::Int(
            if value < 0x80 {
                value as i32
            } else {
                value as i32 - 0x100
            },
        ),
        PrimitiveArray::Char => ElementRead::Int(value as i32),
        PrimitiveArray::Short => ElementRead::Int(
            if value < 0x8000 {
                value as i32
            } else {
                value as i32 - 0x1_0000
            },
        ),
        PrimitiveArray::Int => ElementRead::Int(
            if value < 0x8000_0000 {
                value as i32
            } else {
                (value as i64 - 0x1_0000_0000) as i32
            },
        ),
        PrimitiveArray::Long => ElementRead::Long(signed_bits(value)),
        PrimitiveArray::Float => ElementRead::Float(value as u32),
        PrimitiveArray::Double => ElementRead::Double(value),
    }
}

/// Reads one element of an array, where `letter` is that of the elements' type. There is
/// none if the elements are objects; the inner one is missing if the runtime failed.
pub fn primitive_array_element(letter: char, buffer: &[u8], failed: bool) -> (element: Option<
    Option<ElementRead>,
>)
    requires
        buffer@.len() >= 8,
    ensures
        element is None <==> forall|k: PrimitiveArray| (#[trigger] k.letter()) != letter,
        element matches Some(read) ==> (read is None <==> failed),
        forall|k: PrimitiveArray|
            (#[trigger] k.letter()) == letter && !failed ==> element is Some && element->0 is Some
                && element_is(k, buffer@, element->0->0),
{
    match PrimitiveArray::with_letter(letter) {
        None => None,
        Some(kind) => {
            proof {
                assert forall|k: PrimitiveArray| (#[trigger] k.letter()) == letter implies k
                    == kind by {}
            }
            if failed {
                Some(None)
            } else {
                Some(Some(primitive_element(kind, buffer)))
            }
        },
    }
}

/// How the length of an array is found.
#[derive(Clone, Copy, Debug, PartialEq, Eq, Structural)]
pub enum ArrayLengthPlan {
    /// It is not; the script sees minus one.
    Unknown,
    /// A thread of the runtime is asked.
    AskExecutor(u64),
    /// The runtime is asked on this thread.
    AskHere(u64),
}

/// How the length of an array is found. A thread that the runtime does not know of may only
/// pass on handles that are valid everywhere.
pub fn js_java_array_length(
    array: HandleArgument,
    is_global: Option<bool>,
    foreign_thread: bool,
    attached: bool,
) -> (plan: ArrayLengthPlan)
    ensures
        plan == match array {
            HandleArgument::Handle(handle) => if handle == 0 {
                ArrayLengthPlan::Unknown
            } else if foreign_thread {
                if is_global == Some(true) {
                    ArrayLengthPlan::AskExecutor(handle)
                } else {
                    ArrayLengthPlan::Unknown
                }
            } else if attached {
                ArrayLengthPlan::AskHere(handle)
            } else {
                ArrayLengthPlan::Unknown
            },
            _ => ArrayLengthPlan::Unknown,
        },
{
    match array {
        HandleArgument::Handle(handle) => {
            if handle == 0 {
                ArrayLengthPlan::Unknown
            } else if foreign_thread {
                match is_global {
                    Some(true) => ArrayLengthPlan::AskExecutor(handle),
                    _ => ArrayLengthPlan::Unknown,
                }
            } else if attached {
                ArrayLengthPlan::AskHere(handle)
            } else {
                ArrayLengthPlan::Unknown
            }
        },
        _ => ArrayLengthPlan::Unknown,
    }
}

/// The arguments with which a script asks for an element.
#[derive(Debug)]
pub struct ArrayGetArguments {
    pub count: usize,
    pub array: Option<u64>,
    pub index: Option<i64>,
    pub class: Option<String>,
    pub is_global: Option<bool>,
}

/// How an element of an array is found.
#[derive(Debug)]
pub enum ArrayGetPlan {
    Undefined,
    Null,
    /// A thread of the runtime is asked for an element with the given signature.
    AskExecutor { array: u64, index: i32, signature: String },
    /// The bytes of the element are read.
    ReadPrimitive { array: u64, index: i32, kind: PrimitiveArray },
    /// The object is fetched; its class is the given one unless it says otherwise.
    FetchObject { array: u64, index: i32, class: String },
}

/// What a contract says of how an element is found.
pub ghost enum ArrayGetView {
    Undefined,
    Null,
    AskExecutor(u64, int, Seq<char>),
    ReadPrimitive(u64, int, char),
    FetchObject(u64, int, Seq<char>),
}

impl ArrayGetPlan {
    pub open spec fn view(&self) -> ArrayGetView {
        match *self {
            ArrayGetPlan::Undefined => ArrayGetView::Undefined,
            ArrayGetPlan::Null => ArrayGetView::Null,
            ArrayGetPlan::AskExecutor { array, index, signature } => ArrayGetView::AskExecutor(
                array,
                index as int,
                signature@,
            ),
            ArrayGetPlan::ReadPrimitive { array, index, kind } => ArrayGetView::ReadPrimitive(
                array,
                index as int,
                kind.letter(),
            ),
            ArrayGetPlan::FetchObject { array, index, class } => ArrayGetView::FetchObject(
                array,
                index as int,
                class@,
            ),
        }
    }
}

/// Whether the elements of an array of the given class are numbers.
pub open spec fn holds_numbers(class: Seq<char>) -> bool {
    class.len() > 1 && class[0] == '[' && exists|k: PrimitiveArray|
        (#[trigger] k.letter()) == class[1]
}

/// How an element of an array is found.
pub open spec fn array_get_view(
    arguments: ArrayGetArguments,
    foreign_thread: bool,
    attached: bool,
) -> ArrayGetView {
    if arguments.count < 3 {
        ArrayGetView::Undefined
    } else if arguments.array is None || arguments.array == Some(0u64) {
        ArrayGetView::Null
    } else if arguments.index is None || !(0 <= arguments.index->0 < i32::MAX) {
        ArrayGetView::Undefined
    } else if arguments.class is None {
        ArrayGetView::Undefined
    } else {
        let array = arguments.array->0;
        let index = arguments.index->0 as int;
        let class = arguments.class->0@;
        if foreign_thread {
            if arguments.count >= 4 && arguments.is_global == Some(true) {
                ArrayGetView::AskExecutor(array, index, element_signature(class))
            } else {
                ArrayGetView::Undefined
            }
        } else if !attached {
            ArrayGetView::Null
        } else if holds_numbers(class) {
            ArrayGetView::ReadPrimitive(array, index, class[1])
        } else {
            ArrayGetView::FetchObject(array, index, element_class(class))
        }
    }
}

/// How an element of an array is found. An array of numbers is never asked for objects.
pub fn js_java_array_get(arguments: ArrayGetArguments, foreign_thread: bool, attached: bool) -> (plan:
    ArrayGetPlan)
    ensures
        plan@ == array_get_view(arguments, foreign_thread, attached),
{
    if arguments.count < 3 {
        return ArrayGetPlan::Undefined;
    }
    let array: u64 = match arguments.array {
        Some(array) => array,
        None => 0,
    };
    if array == 0 {
        return ArrayGetPlan::Null;
    }
    let index: i64 = match arguments.index {
        Some(index) => index,
        None => -1,
    };
    if index < 0 || index >= 0x7fff_ffff {
        return ArrayGetPlan::Undefined;
    }
    let index: i32 = index as i32;
    let class: String = match arguments.class {
        Some(class) => class,
        None => {
            return ArrayGetPlan::Undefined;
        },
    };
    if foreign_thread {
        let global: bool = match arguments.is_global {
            Some(value) => value,
            None => false,
        };
        if arguments.count >= 4 && global {
            return ArrayGetPlan::AskExecutor {
                array,
                index,
                signature: element_sig_from_array_class(class.as_str()),
            };
        }
        return ArrayGetPlan::Undefined;
    }
    if !attached {
        return ArrayGetPlan::Null;
    }
    let chars: Vec<char> = chars_of(class.as_str());
    if chars.len() > 1 && chars[0] == '[' {
        match PrimitiveArray::with_letter(chars[1]) {
            Some(kind) => {
                assert(kind.letter() == class@[1]);
                return ArrayGetPlan::ReadPrimitive { array, index, kind };
            },
            None => {},
        }
    }
    ArrayGetPlan::FetchObject {
        array,
        index,
        class: element_class_from_array_class(class.as_str()),
    }
}

/// An array that is to be made.
#[derive(Debug)]
pub struct NewArray {
    pub element_type: String,
    pub length: i32,
    /// The type of its elements, unless they are objects.
    pub kind: Option<PrimitiveArray>,
}

/// Why an array cannot be made.
pub open spec fn new_array_problem(
    argument_count: usize,
    element_type: Option<String>,
    length: Option<i64>,
    attached: bool,
) -> Option<Seq<char>> {
    if argument_count < 2 {
        Some("Java.array(type, elements) requires two arguments"@)
    } else if element_type is None {
        Some("Java.array() element type must be a string"@)
    } else if length is None || !(0 <= length->0 <= 0x7fff_ffff) {
        Some("Java.array() elements must be an array"@)
    } else if !attached {
        Some("Java.array() could not attach the current thread"@)
    } else {
        None
    }
}

/// The array that a script wants.
pub fn js_java_new_array(
    argument_count: usize,
    element_type: Option<String>,
    length: Option<i64>,
    attached: bool,
) -> (result: Result<NewArray, ScriptError>)
    ensures
        result is Ok <==> new_array_problem(argument_count, element_type, length, attached) is None,
        result matches Err(error) ==> error@ == (
            ErrorKind::InternalError,
            new_array_problem(argument_count, element_type, length, attached)->0,
        ),
        result matches Ok(array) ==> {
            &&& Some(array.element_type) == element_type
            &&& array.length == length->0
            &&& array.kind matches Some(kind) ==> kind.name() == array.element_type@
            &&& array.kind is None ==> forall|k: PrimitiveArray|
                (#[trigger] k.name()) != array.element_type@
        },
{
    if argument_count < 2 {
        return Err(internal_error("Java.array(type, elements) requires two arguments"));
    }
    let element_type: String = match element_type {
        Some(element_type) => element_type,
        None => {
            return Err(internal_error("Java.array() element type must be a string"));
        },
    };
    let length: i64 = match length {
        Some(length) => length,
        None => -1,
    };
    if length < 0 || length > 0x7fff_ffff {
        return Err(internal_error("Java.array() elements must be an array"));
    }
    if !attached {
        return Err(internal_error("Java.array() could not attach the current thread"));
    }
    let kind: Option<PrimitiveArray> = PrimitiveArray::named(element_type.as_str());
    Ok(NewArray { element_type, length: length as i32, kind })
}

/// What goes wrong while an array is made.
#[derive(Clone, Copy, Debug, PartialEq, Eq, Structural)]
pub enum NewArrayFailure {
    NotAllocated,
    NotAnElement(usize),
    NotPopulated,
    NoSuchClass,
    NotStored(usize),
}

/// The message for what goes wrong while an array is made.
pub open spec fn new_array_failure_text(array: NewArray, failure: NewArrayFailure) -> Seq<char> {
    match failure {
        NewArrayFailure::NotAllocated => "Java.array(): could not allocate "@ + array.element_type@
            + "["@ + numeral(array.length as nat, 10) + "]"@,
        NewArrayFailure::NotAnElement(index) => "Java.array(): element "@ + numeral(
            index as nat,
            10,
        ) + " is not a "@ + array.element_type@,
        NewArrayFailure::NotPopulated => "Java.array(): could not populate the array"@,
        NewArrayFailure::NoSuchClass => "Java.array(): class not found: "@ + array.element_type@,
        NewArrayFailure::NotStored(index) => "Java.array(): could not store element "@ + numeral(
            index as nat,
            10,
        ),
    }
}

/// The error for what goes wrong while an array is made.
pub fn new_array_error(array: &NewArray, failure: NewArrayFailure) -> (error: ScriptError)
    requires
        array.length >= 0,
    ensures
        error@ == (ErrorKind::InternalError, new_array_failure_text(*array, failure)),
{
    let mut message: String = String::new();
    match failure {
        NewArrayFailure::NotAllocated => {
            message.append("Java.array(): could not allocate ");
            message.append(array.element_type.as_str());
            message.append("[");
            push_numeral(&mut message, array.length as u64, 10);
            message.append("]");
        },
        NewArrayFailure::NotAnElement(index) => {
            message.append("Java.array(): element ");
            push_numeral(&mut message, index as u64, 10);
            message.append(" is not a ");
            message.append(array.element_type.as_str());
        },
        NewArrayFailure::NotPopulated => {
            message.append("Java.array(): could not populate the array");
        },
        NewArrayFailure::NoSuchClass => {
            message.append("Java.array(): class not found: ");
            message.append(array.element_type.as_str());
        },
        NewArrayFailure::NotStored(index) => {
            message.append("Java.array(): could not store element ");
            push_numeral(&mut message, index as u64, 10);
        },
    }
    assert(message@ =~= new_array_failure_text(*array, failure));
    ScriptError { kind: ErrorKind::InternalError, message }
}

/// What came of entering or leaving the monitor of an object.
pub fn monitor_outcome(entering: bool, attached: bool, failed: bool, exception: bool) -> (result:
    Result<(), ScriptError>)
    ensures
        result is Ok <==> attached && !failed && !exception,
        result matches Err(error) ==> error@ == (
            ErrorKind::InternalError,
            if !attached {
                "Java.synchronized() could not attach the current thread"@
            } else if entering {
                "Java.synchronized() could not enter the object monitor"@
            } else {
                "Java.synchronized() could not leave the object monitor"@
            },
        ),
{
    if !attached {
        Err(internal_error("Java.synchronized() could not attach the current thread"))
    } else if failed || exception {
        Err(
            if entering {
                internal_error("Java.synchronized() could not enter the object monitor")
            } else {
                internal_error("Java.synchronized() could not leave the object monitor")
            },
        )
    } else {
        Ok(())
    }
}

/// What came of making a handle that is valid everywhere; zero stands for none.
pub fn retain_outcome(attached: bool, global: u64, exception: bool) -> (result: Result<
    u64,
    ScriptError,
>)
    ensures
        result is Ok <==> attached && global != 0 && !exception,
        result matches Ok(handle) ==> handle == global,
        result matches Err(error) ==> error@ == (
            ErrorKind::InternalError,
            if !attached {
                "Java.retain() could not attach the current thread"@
            } else {
                "Java.retain() could not create a global reference"@
            },
        ),
{
    if !attached {
        Err(internal_error("Java.retain() could not attach the current thread"))
    } else if global == 0 || exception {
        Err(internal_error("Java.retain() could not create a global reference"))
    } else {
        Ok(global)
    }
}

/// The handle that has to be given back. To dispose of nothing, or a second time, is no
/// error; without a thread that the runtime knows nothing is done.
pub fn js_java_delete_global_ref(argument: HandleArgument, attached: bool) -> (handle: Option<u64>)
    ensures
        handle == match argument {
            HandleArgument::Handle(value) if value != 0 && attached => Some(value),
            _ => None,
        },
{
    match argument {
        HandleArgument::Handle(value) => if value != 0 && attached {
            Some(value)
        } else {
            None
        },
        _ => None,
    }
}

/// The class that an object is to be seen as, from the class that the runtime found; zero
/// stands for none.
pub fn cast_target(
    argument_count: usize,
    class_name: Option<&str>,
    attached: bool,
    class: u64,
) -> (result: Result<u64, ScriptError>)
    ensures
        result is Ok <==> argument_count >= 2 && class_name is Some && attached && class != 0,
        result matches Ok(found) ==> found == class,
        result matches Err(error) ==> error@ == (
            ErrorKind::InternalError,
            if argument_count < 2 {
                "Java.cast() requires a target class name"@
            } else if class_name is None {
                "Java.cast() target class must be a string"@
            } else if !attached {
                "Java.cast() could not attach the current thread"@
            } else {
                "Java.cast(): class not found: "@ + class_name->0@
            },
        ),
{
    if argument_count < 2 {
        return Err(internal_error("Java.cast() requires a target class name"));
    }
    let name: &str = match class_name {
        Some(name) => name,
        None => {
            return Err(internal_error("Java.cast() target class must be a string"));
        },
    };
    if !attached {
        return Err(internal_error("Java.cast() could not attach the current thread"));
    }
    if class == 0 {
        return Err(
            ScriptError {
                kind: ErrorKind::InternalError,
                message: crate::script::joined("Java.cast(): class not found: ", name),
            },
        );
    }
    Ok(class)
}

/// An element that is written and read again is the number that was written, as far as the
/// type of the elements can hold it.
pub proof fn elements_read_back(
    kind: PrimitiveArray,
    value: ElementValue,
    element: ElementRead,
)
    requires
        element_number(kind, value) is Some,
        element_is(kind, element_bytes(kind, element_number(kind, value)->0), element),
    ensures
        match kind {
            PrimitiveArray::Boolean => element == ElementRead::Truth(value.truth == Some(true)),
            PrimitiveArray::Byte => -0x80 <= value.integer->0 < 0x80 ==> (
            element matches ElementRead::Int(n) && n == value.integer->0),
            PrimitiveArray::Char => 0 <= value.integer->0 < 0x1_0000 ==> (
            element matches ElementRead::Int(n) && n == value.integer->0),
            PrimitiveArray::Short => -0x8000 <= value.integer->0 < 0x8000 ==> (
            element matches ElementRead::Int(n) && n == value.integer->0),
            PrimitiveArray::Int => -0x8000_0000 <= value.integer->0 < 0x8000_0000 ==> (
            element matches ElementRead::Int(n) && n == value.integer->0),
            PrimitiveArray::Long => element == ElementRead::Long(value.integer->0),
            PrimitiveArray::Float => element == ElementRead::Float(value.float->0),
            PrimitiveArray::Double => element == ElementRead::Double(value.double->0),
        },
{
    let m: int = 0x1_0000_0000_0000_0000;
    let number = element_number(kind, value)->0;
    let low = (number % m) as nat;
    crate::bytes::le_bytes_keep_the_low_bytes(low, kind.width());
    crate::bytes::lemma_byte_ranges();
    let bytes = le_bytes(low, kind.width());
    assert(bytes.take(kind.width() as int) =~= bytes);
    if number >= 0 {
        vstd::arithmetic::div_mod::lemma_small_mod(number as nat, m as nat);
    } else {
        vstd::arithmetic::div_mod::lemma_mod_add_multiples_vanish(number, m);
        vstd::arithmetic::div_mod::lemma_small_mod((number + m) as nat, m as nat);
    }
    let shown = le_value(bytes) as int;
    match kind {
        PrimitiveArray::Boolean => {
            assert(shown == low % 0x100);
        },
        PrimitiveArray::Byte => {
            assert(shown == low % 0x100);
        },
        PrimitiveArray::Char => {
            assert(shown == low % 0x1_0000);
        },
        PrimitiveArray::Short => {
            assert(shown == low % 0x1_0000);
        },
        PrimitiveArray::Int => {
            assert(shown == low % 0x1_0000_0000);
        },
        PrimitiveArray::Float => {
            assert(shown == low % 0x1_0000_0000);
        },
        PrimitiveArray::Long => {
            assert(shown == low % 0x1_0000_0000_0000_0000);
        },
        PrimitiveArray::Double => {
            assert(shown == low % 0x1_0000_0000_0000_0000);
        },
    }
}

/// The version of Android for a script, where there is one.
pub fn js_java_android_version(release: Option<String>) -> (result: Result<String, ScriptError>)
    ensures
        result is Ok <==> release is Some,
        result matches Ok(text) ==> release == Some(text),
        result matches Err(error) ==> error@ == (
            ErrorKind::InternalError,
            "Java.androidVersion is unavailable on this platform"@,
        ),
{
    match release {
        Some(text) => Ok(text),
        None => Err(internal_error("Java.androidVersion is unavailable on this platform")),
    }
}

/// The types of numbers have the sizes of the language, and the letters of signatures: the
/// capital of their name, but for truth values and long integers.
pub proof fn number_types_are_those_of_the_language(kind: PrimitiveArray)
    ensures
        kind is Boolean ==> kind.letter() == 'Z' && kind.width() == 1 && kind.name() == "boolean"@,
        kind is Long ==> kind.letter() == 'J' && kind.width() == 8 && kind.name() == "long"@,
        !(kind is Boolean || kind is Long) ==> kind.letter() as u32 == kind.name()[0] as u32 - 0x20,
        kind is Byte ==> kind.width() == 1 && kind.name() == "byte"@,
        kind is Char ==> kind.width() == 2 && kind.name() == "char"@,
        kind is Short ==> kind.width() == 2 && kind.name() == "short"@,
        kind is Int ==> kind.width() == 4 && kind.name() == "int"@,
        kind is Float ==> kind.width() == 4 && kind.name() == "float"@,
        kind is Double ==> kind.width() == 8 && kind.name() == "double"@,
{
    reveal_strlit("byte");
    reveal_strlit("char");
    reveal_strlit("short");
    reveal_strlit("int");
    reveal_strlit("float");
    reveal_strlit("double");
}

/// The class of an array's elements: what stands between `[L` and the semicolon, or behind
/// the bracket where the elements are numbers or arrays. Other classes stay.
pub proof fn arrays_name_their_elements(class: Seq<char>)
    ensures
        element_class("[L"@ + class + ";"@) == class,
        class.len() > 0 && !(class[0] == 'L' && class.last() == ';') ==> element_class("["@ + class)
            == class,
        class.len() > 0 && class[0] != '[' ==> element_class(class) == class,
        class.len() > 0 ==> element_signature("["@ + class) == class,
        class.len() > 0 && class[0] != '[' ==> {
            let signature = element_signature(class);
            &&& signature.len() == class.len() + 2
            &&& signature[0] == 'L'
            &&& signature.last() == ';'
            &&& forall|i: int|
                0 <= i < class.len() && class[i] != '.' ==> #[trigger] signature[i + 1] == class[i]
            &&& forall|i: int|
                0 <= i < class.len() && class[i] == '.' ==> #[trigger] signature[i + 1] == '/'
        },
{
    reveal_strlit("[L");
    reveal_strlit("[");
    reveal_strlit(";");
    let named = "[L"@ + class + ";"@;
    let inner = named.skip(1);
    assert(inner[0] == 'L');
    assert(inner.last() == ';');
    assert(inner.subrange(1, inner.len() - 1) =~= class);
    let array = "["@ + class;
    assert(array.skip(1) =~= class);
}

/// The elements of an array lie one behind another, each as wide as its type.
pub proof fn elements_lie_in_order(kind: PrimitiveArray, values: Seq<ElementValue>, at: int)
    requires
        0 <= at < values.len(),
    ensures
        elements_bytes(kind, values).len() == kind.width() * values.len(),
        elements_bytes(kind, values).subrange(
            (kind.width() * at) as int,
            (kind.width() * (at + 1)) as int,
        ) == element_bytes(kind, element_number(kind, values[at])->0),
    decreases values.len(),
{
    let w = kind.width() as int;
    let front = values.drop_last();
    let n = values.len() as int;
    let last = element_bytes(kind, element_number(kind, values.last())->0);
    lemma_elements_len(kind, front);
    lemma_elements_len(kind, values);
    crate::bytes::lemma_le_bytes_len(
        (element_number(kind, values.last())->0 % 0x1_0000_0000_0000_0000) as nat,
        kind.width(),
    );
    let all = elements_bytes(kind, values);
    assert(w * (at + 1) == w * at + w) by (nonlinear_arith);
    assert(w * n == w * (n - 1) + w) by (nonlinear_arith);
    if at == n - 1 {
        assert(all.subrange(w * at, w * (at + 1)) =~= last);
    } else {
        elements_lie_in_order(kind, front, at);
        assert(w * (at + 1) <= w * (n - 1)) by (nonlinear_arith)
            requires
                at + 1 <= n - 1,
                w >= 0,
        ;
        assert(w * at >= 0) by (nonlinear_arith)
            requires
                at >= 0,
                w >= 0,
        ;
        assert(all.subrange(w * at, w * (at + 1)) =~= elements_bytes(kind, front).subrange(
            w * at,
            w * (at + 1),
        ));
    }
}

proof fn lemma_elements_len(kind: PrimitiveArray, values: Seq<ElementValue>)
    ensures
        elements_bytes(kind, values).len() == kind.width() * values.len(),
    decreases values.len(),
{
    let w = kind.width() as int;
    let n = values.len() as int;
    if n > 0 {
        lemma_elements_len(kind, values.drop_last());
        crate::bytes::lemma_le_bytes_len(
            (element_number(kind, values.last())->0 % 0x1_0000_0000_0000_0000) as nat,
            kind.width(),
        );
        assert(w * n == w * (n - 1) + w) by (nonlinear_arith);
    }
}

/// An element that is read is the number in its bytes, low byte first; one with a sign
/// differs from it by the range of its bytes if it is in the upper half.
pub proof fn elements_are_the_numbers_in_memory(
    kind: PrimitiveArray,
    bytes: Seq<u8>,
    element: ElementRead,
)
    requires
        bytes.len() == kind.width(),
        element_is(kind, bytes, element),
    ensures
        kind is Boolean ==> element == ElementRead::Truth(bytes[0] != 0),
        kind is Byte ==> element is Int && -0x80 <= element->Int_0 < 0x80 && (le_value(bytes)
            - element->Int_0) % 0x100 == 0,
        kind is Short ==> element is Int && -0x8000 <= element->Int_0 < 0x8000 && (le_value(bytes)
            - element->Int_0) % 0x1_0000 == 0,
        kind is Char ==> element is Int && element->Int_0 == le_value(bytes),
        kind is Int ==> element is Int && (le_value(bytes) - element->Int_0) % 0x1_0000_0000 == 0,
        kind is Long ==> element is Long && (le_value(bytes) - element->Long_0)
            % 0x1_0000_0000_0000_0000 == 0,
        kind is Float ==> element is Float && element->Float_0 == le_value(bytes),
        kind is Double ==> element is Double && element->Double_0 == le_value(bytes),
{
    crate::bytes::lemma_le_value_bound(bytes);
    crate::bytes::lemma_byte_ranges();
    crate::bytes::usual_rows_are_read_low_byte_first(bytes);
    assert(bytes.take(kind.width() as int) =~= bytes);
}

/// The second word of a line stands behind the first one and the white space between them,
/// and ends at the next white space.
pub proof fn words_stand_between_spaces(
    first: Seq<char>,
    gap: Seq<char>,
    second: Seq<char>,
    rest: Seq<char>,
)
    requires
        first.len() > 0,
        gap.len() > 0,
        second.len() > 0,
        forall|i: int| 0 <= i < first.len() ==> !is_space(#[trigger] first[i]),
        forall|i: int| 0 <= i < gap.len() ==> is_space(#[trigger] gap[i]),
        forall|i: int| 0 <= i < second.len() ==> !is_space(#[trigger] second[i]),
        rest.len() > 0 ==> is_space(rest[0]),
    ensures
        second_word(first + gap + second + rest) == second,
{
    let line = first + gap + second + rest;
    assert(line[0] == first[0]);
    assert(after_spaces(line) == line);
    assert(line =~= first + (gap + second + rest));
    assert((gap + second + rest)[0] == gap[0]);
    lemma_after_word(first, gap + second + rest);
    assert(gap + second + rest =~= gap + (second + rest));
    assert((second + rest)[0] == second[0]);
    lemma_after_spaces(gap, second + rest);
    lemma_first_word(second, rest);
}

proof fn lemma_after_word(word: Seq<char>, rest: Seq<char>)
    requires
        forall|i: int| 0 <= i < word.len() ==> !is_space(#[trigger] word[i]),
        rest.len() > 0 ==> is_space(rest[0]),
    ensures
        after_word(word + rest) == rest,
    decreases word.len(),
{
    if word.len() == 0 {
        assert(word + rest =~= rest);
    } else {
        assert((word + rest)[0] == word[0]);
        assert((word + rest).drop_first() =~= word.drop_first() + rest);
        lemma_after_word(word.drop_first(), rest);
    }
}

proof fn lemma_first_word(word: Seq<char>, rest: Seq<char>)
    requires
        forall|i: int| 0 <= i < word.len() ==> !is_space(#[trigger] word[i]),
        rest.len() > 0 ==> is_space(rest[0]),
    ensures
        first_word(word + rest) == word,
    decreases word.len(),
{
    if word.len() == 0 {
        assert(word + rest =~= rest);
    } else {
        assert((word + rest)[0] == word[0]);
        assert((word + rest).drop_first() =~= word.drop_first() + rest);
        lemma_first_word(word.drop_first(), rest);
        assert(seq![word[0]] + word.drop_first() =~= word);
    }
}

proof fn lemma_after_spaces(gap: Seq<char>, rest: Seq<char>)
    requires
        forall|i: int| 0 <= i < gap.len() ==> is_space(#[trigger] gap[i]),
        rest.len() > 0 ==> !is_space(rest[0]),
    ensures
        after_spaces(gap + rest) == rest,
    decreases gap.len(),
{
    if gap.len() == 0 {
        assert(gap + rest =~= rest);
    } else {
        assert((gap + rest)[0] == gap[0]);
        assert((gap + rest).drop_first() =~= gap.drop_first() + rest);
        lemma_after_spaces(gap.drop_first(), rest);
    }
}

/// A memory map has code of the runtime exactly if one of its lines names the runtime's
/// library and has an `x` in its second word.
pub proof fn runtime_code_is_executable(maps: Seq<char>, at: int, place: int)
    ensures
        0 <= at < lines(maps).len() && 0 <= place && place + "/libart.so"@.len() <= lines(
            maps,
        )[at].len() && lines(maps)[at].subrange(place, place + "/libart.so"@.len())
            == "/libart.so"@ && second_word(lines(maps)[at]).contains('x') ==> maps_runtime_code(
            maps,
        ),
        (forall|i: int| 0 <= i < lines(maps).len() ==> !second_word(#[trigger] lines(maps)[i]).contains('x'))
            ==> !maps_runtime_code(maps),
{
    if 0 <= at < lines(maps).len() && 0 <= place && place + "/libart.so"@.len() <= lines(
        maps,
    )[at].len() && lines(maps)[at].subrange(place, place + "/libart.so"@.len()) == "/libart.so"@
        && second_word(lines(maps)[at]).contains('x') {
        assert(occurs("/libart.so"@, lines(maps)[at]));
        assert(is_runtime_code(lines(maps)[at]));
    }
    if maps_runtime_code(maps) {
        let i = choose|i: int| 0 <= i < lines(maps).len() && is_runtime_code(
            #[trigger] lines(maps)[i],
        );
        assert(second_word(lines(maps)[i]).contains('x'));
    }
}

/// An element is looked for only with an array, an index and a class. On a foreign thread
/// the executor is asked if the reference is global; on an attached one numbers are read
/// and objects are fetched.
pub proof fn elements_are_found_by_their_class(
    arguments: ArrayGetArguments,
    foreign_thread: bool,
    attached: bool,
)
    requires
        arguments.count >= 3,
        arguments.array is Some,
        arguments.array->0 != 0,
        arguments.index is Some,
        0 <= arguments.index->0 < 0x7fff_ffff,
        arguments.class is Some,
    ensures
        ({
            let view = array_get_view(arguments, foreign_thread, attached);
            let array = arguments.array->0;
            let index = arguments.index->0 as int;
            let class = arguments.class->0@;
            &&& foreign_thread && arguments.count >= 4 && arguments.is_global == Some(true) ==> view
                == ArrayGetView::AskExecutor(array, index, element_signature(class))
            &&& foreign_thread && !(arguments.count >= 4 && arguments.is_global == Some(true))
                ==> view is Undefined
            &&& !foreign_thread && !attached ==> view is Null
            &&& !foreign_thread && attached && class.len() > 1 && class[0] == '[' && (class[1]
                == 'Z' || class[1] == 'B' || class[1] == 'C' || class[1] == 'S' || class[1] == 'I'
                || class[1] == 'J' || class[1] == 'F' || class[1] == 'D') ==> view
                == ArrayGetView::ReadPrimitive(array, index, class[1])
            &&& !foreign_thread && attached && !(class.len() > 1 && class[0] == '[' && (class[1]
                == 'Z' || class[1] == 'B' || class[1] == 'C' || class[1] == 'S' || class[1] == 'I'
                || class[1] == 'J' || class[1] == 'F' || class[1] == 'D')) ==> view
                == ArrayGetView::FetchObject(array, index, element_class(class))
        }),
{
    let class = arguments.class->0@;
    if class.len() > 1 && class[0] == '[' {
        let c = class[1];
        if c == 'Z' {
            assert(PrimitiveArray::Boolean.letter() == c);
        } else if c == 'B' {
            assert(PrimitiveArray::Byte.letter() == c);
        } else if c == 'C' {
            assert(PrimitiveArray::Char.letter() == c);
        } else if c == 'S' {
            assert(PrimitiveArray::Short.letter() == c);
        } else if c == 'I' {
            assert(PrimitiveArray::Int.letter() == c);
        } else if c == 'J' {
            assert(PrimitiveArray::Long.letter() == c);
        } else if c == 'F' {
            assert(PrimitiveArray::Float.letter() == c);
        } else if c == 'D' {
            assert(PrimitiveArray::Double.letter() == c);
        }
    }
}

/// An array is made of a type and a number of elements, on a thread that is attached.
pub proof fn arrays_need_a_type_and_elements(
    argument_count: usize,
    element_type: Option<String>,
    length: Option<i64>,
    attached: bool,
)
    ensures
        new_array_problem(argument_count, element_type, length, attached) is None <==> {
            &&& argument_count >= 2
            &&& element_type is Some
            &&& length is Some && 0 <= length->0 < 0x8000_0000
            &&& attached
        },
{
}

} // verus!
