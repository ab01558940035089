//! Values that scripts receive.

use crate::debug_symbols::{ApiResolverMatch, DebugSymbolDetails, SymbolView};
use crate::instructions::{
    viewed, InstructionDetails, InstructionMemoryOperand, InstructionOperand,
    InstructionOperandValue, OperandValueView, OperandView,
};
use crate::modules::ProcessThreadDetails;
use crate::process::{ProcessRangeRecord, ProcessThread, RangeView};
use crate::text::optional_text;
use vstd::prelude::*;
use vstd::string::*;

verus! {

/// A value that a script receives.
#[derive(Debug)]
pub enum ScriptValue {
    Null,
    Int(i32),
    Uint(u32),
    Int64(i64),
    BigInt(i64),
    /// An integer that is too large for the engine's integers and becomes its nearest
    /// floating-point number.
    Large(u64),
    /// The bits of a floating-point number.
    Float(u64),
    Text(String),
    Pointer(u64),
    List(Vec<ScriptValue>),
    Object(Vec<Field>),
}

/// A field of an object.
#[derive(Debug)]
pub struct Field {
    pub name: &'static str,
    pub value: ScriptValue,
}

/// What a contract says of a value that a script receives.
pub ghost enum Shown {
    Null,
    Int(int),
    BigInt(int),
    Large(u64),
    Float(u64),
    Text(Seq<char>),
    Pointer(u64),
    List(Seq<Shown>),
    Object(Seq<(Seq<char>, Shown)>),
}

/// What a contract says of a value.
pub open spec fn shown(value: ScriptValue) -> Shown
    decreases value, 0nat,
{
    match value {
        ScriptValue::Null => Shown::Null,
        ScriptValue::Int(number) => Shown::Int(number as int),
        ScriptValue::Uint(number) => Shown::Int(number as int),
        ScriptValue::Int64(number) => Shown::Int(number as int),
        ScriptValue::BigInt(number) => Shown::BigInt(number as int),
        ScriptValue::Large(number) => Shown::Large(number),
        ScriptValue::Float(bits) => Shown::Float(bits),
        ScriptValue::Text(text) => Shown::Text(text@),
        ScriptValue::Pointer(address) => Shown::Pointer(address),
        ScriptValue::List(items) => Shown::List(shown_list(items, items@.len())),
        ScriptValue::Object(fields) => Shown::Object(shown_fields(fields, fields@.len())),
    }
}

/// What a contract says of the first values of a list.
pub open spec fn shown_list(items: Vec<ScriptValue>, count: nat) -> Seq<Shown>
    decreases items, count,
{
    if count == 0 || count > items@.len() {
        seq![]
    } else {
        shown_list(items, (count - 1) as nat).push(shown(items@[count - 1]))
    }
}

/// What a contract says of the first fields of an object.
pub open spec fn shown_fields(fields: Vec<Field>, count: nat) -> Seq<(Seq<char>, Shown)>
    decreases fields, count,
{
    if count == 0 || count > fields@.len() {
        seq![]
    } else {
        shown_fields(fields, (count - 1) as nat).push(
            (fields@[count - 1].name@, shown(fields@[count - 1].value)),
        )
    }
}

proof fn lemma_list_front(left: Vec<ScriptValue>, right: Vec<ScriptValue>, count: nat)
    requires
        count <= left@.len(),
        count <= right@.len(),
        forall|i: int| 0 <= i < count ==> left@[i] == right@[i],
    ensures
        shown_list(left, count) == shown_list(right, count),
    decreases count,
{
    if count > 0 {
        lemma_list_front(left, right, (count - 1) as nat);
    }
}

proof fn lemma_fields_front(left: Vec<Field>, right: Vec<Field>, count: nat)
    requires
        count <= left@.len(),
        count <= right@.len(),
        forall|i: int| 0 <= i < count ==> left@[i] == right@[i],
    ensures
        shown_fields(left, count) == shown_fields(right, count),
    decreases count,
{
    if count > 0 {
        lemma_fields_front(left, right, (count - 1) as nat);
    }
}

fn set_property(fields: &mut Vec<Field>, name: &'static str, value: ScriptValue)
    ensures
        shown_fields(*final(fields), final(fields)@.len()) == shown_fields(
            *old(fields),
            old(fields)@.len(),
        ).push((name@, shown(value))),
{
    fields.push(Field { name, value });
    proof {
        lemma_fields_front(*old(fields), *fields, old(fields)@.len());
    }
}

fn push_value(items: &mut Vec<ScriptValue>, value: ScriptValue)
    ensures
        shown_list(*final(items), final(items)@.len()) == shown_list(
            *old(items),
            old(items)@.len(),
        ).push(shown(value)),
{
    items.push(value);
    proof {
        lemma_list_front(*old(items), *items, old(items)@.len());
    }
}

/// A text, or null if it is missing.
pub open spec fn text_or_null(text: Option<Seq<char>>) -> Shown {
    match text {
        Some(text) => Shown::Text(text),
        None => Shown::Null,
    }
}

/// A number, or null if it is missing.
pub open spec fn number_or_null(number: Option<u32>) -> Shown {
    match number {
        Some(number) => Shown::Int(number as int),
        None => Shown::Null,
    }
}

fn string_or_null(text: Option<String>) -> (value: ScriptValue)
    ensures
        shown(value) == text_or_null(optional_text(text)),
{
    match text {
        Some(text) => ScriptValue::Text(text),
        None => ScriptValue::Null,
    }
}

fn uint_or_null(number: Option<u32>) -> (value: ScriptValue)
    ensures
        shown(value) == number_or_null(number),
{
    match number {
        Some(number) => ScriptValue::Uint(number),
        None => ScriptValue::Null,
    }
}

/// What a script sees of a symbol.
pub open spec fn symbol_shown(details: SymbolView) -> Shown {
    Shown::Object(
        seq![
            ("address"@, Shown::Pointer(details.address)),
            ("name"@, text_or_null(details.name)),
            ("moduleName"@, text_or_null(details.module_name)),
            ("fileName"@, text_or_null(details.file_name)),
            ("lineNumber"@, number_or_null(details.line_number)),
            ("column"@, number_or_null(details.column)),
        ],
    )
}

/// A symbol for a script.
pub fn debug_symbol_to_js(details: DebugSymbolDetails) -> (value: ScriptValue)
    ensures
        shown(value) == symbol_shown(details@),
{
    let ghost view = details@;
    let mut fields: Vec<Field> = Vec::new();
    set_property(&mut fields, "address", ScriptValue::Pointer(details.address));
    set_property(&mut fields, "name", string_or_null(details.name));
    set_property(&mut fields, "moduleName", string_or_null(details.module_name));
    set_property(&mut fields, "fileName", string_or_null(details.file_name));
    set_property(&mut fields, "lineNumber", uint_or_null(details.line_number));
    set_property(&mut fields, "column", uint_or_null(details.column));
    assert(Shown::Object(shown_fields(fields, fields@.len())) == symbol_shown(view)) by {
        assert(shown_fields(fields, fields@.len()) =~= symbol_shown(view)->Object_0);
    }
    ScriptValue::Object(fields)
}

/// What a script sees of addresses.
pub open spec fn addresses_shown(addresses: Seq<u64>) -> Seq<Shown> {
    Seq::new(addresses.len(), |i: int| Shown::Pointer(addresses[i]))
}

/// Addresses for a script.
pub fn pointer_array_to_js(addresses: &Vec<u64>) -> (value: ScriptValue)
    ensures
        shown(value) == Shown::List(addresses_shown(addresses@)),
{
    let mut items: Vec<ScriptValue> = Vec::new();
    let mut i: usize = 0;
    assert(shown_list(items, items@.len()) =~= addresses_shown(addresses@).take(0));
    while i < addresses.len()
        invariant
            i <= addresses@.len(),
            shown_list(items, items@.len()) == addresses_shown(addresses@).take(i as int),
        decreases addresses@.len() - i,
    {
        push_value(&mut items, ScriptValue::Pointer(addresses[i]));
        i = i + 1;
        assert(shown_list(items, items@.len()) =~= addresses_shown(addresses@).take(i as int));
    }
    assert(shown_list(items, items@.len()) =~= addresses_shown(addresses@));
    ScriptValue::List(items)
}

/// What a script sees of texts.
pub open spec fn texts_shown(texts: Seq<String>) -> Seq<Shown> {
    Seq::new(texts.len(), |i: int| Shown::Text(texts[i]@))
}

/// Texts for a script.
pub fn string_array_to_js(texts: Vec<String>) -> (value: ScriptValue)
    ensures
        shown(value) == Shown::List(texts_shown(texts@)),
{
    let ghost all = texts@;
    let mut items: Vec<ScriptValue> = Vec::new();
    assert(shown_list(items, items@.len()) =~= texts_shown(all).take(0));
    for text in it: texts
        invariant
            it.seq() == all,
            shown_list(items, items@.len()) == texts_shown(all).take(it.index() as int),
    {
        push_value(&mut items, ScriptValue::Text(text));
        assert(shown_list(items, items@.len()) =~= texts_shown(all).take(it.index() as int + 1));
    }
    assert(shown_list(items, items@.len()) =~= texts_shown(all));
    ScriptValue::List(items)
}

/// A field that is there only if its value is.
pub open spec fn optional_field(name: Seq<char>, value: Option<Shown>) -> Seq<(Seq<char>, Shown)> {
    match value {
        Some(value) => seq![(name, value)],
        None => seq![],
    }
}

/// A text that may be missing.
pub open spec fn maybe_text(text: Option<Seq<char>>) -> Option<Shown> {
    match text {
        Some(text) => Some(Shown::Text(text)),
        None => None,
    }
}

/// What a script sees of an operand in memory.
pub open spec fn memory_shown(base: Option<Seq<char>>, index: Option<Seq<char>>, disp: i32) -> Shown {
    Shown::Object(
        optional_field("base"@, maybe_text(base)) + optional_field("index"@, maybe_text(index))
            + seq![("disp"@, Shown::Int(disp as int))],
    )
}

/// An operand in memory for a script.
pub fn memory_operand_to_js(memory: InstructionMemoryOperand) -> (value: ScriptValue)
    ensures
        shown(value) == memory_shown(
            optional_text(memory.base),
            optional_text(memory.index),
            memory.displacement,
        ),
{
    let ghost wanted = memory_shown(
        optional_text(memory.base),
        optional_text(memory.index),
        memory.displacement,
    )->Object_0;
    let mut fields: Vec<Field> = Vec::new();
    match memory.base {
        Some(base) => {
            set_property(&mut fields, "base", ScriptValue::Text(base));
        },
        None => {},
    }
    match memory.index {
        Some(index) => {
            set_property(&mut fields, "index", ScriptValue::Text(index));
        },
        None => {},
    }
    set_property(&mut fields, "disp", ScriptValue::Int(memory.displacement));
    assert(shown_fields(fields, fields@.len()) =~= wanted);
    ScriptValue::Object(fields)
}

/// What a script sees of the value of an operand.
pub open spec fn operand_value_shown(value: OperandValueView) -> Shown {
    match value {
        OperandValueView::Register(name) => Shown::Text(name),
        OperandValueView::Immediate(number) => Shown::BigInt(number as int),
        OperandValueView::Memory(base, index, disp) => memory_shown(base, index, disp),
        OperandValueView::Float(bits) => Shown::Float(bits),
        OperandValueView::Integer(number) => Shown::Int(number as int),
    }
}

/// What a script sees of the shift of an operand.
pub open spec fn shift_shown(shift: (Seq<char>, u32)) -> Shown {
    Shown::Object(
        seq![("type"@, Shown::Text(shift.0)), ("value"@, Shown::Int(shift.1 as int))],
    )
}

/// What a script sees of an operand.
pub open spec fn operand_shown(operand: OperandView) -> Shown {
    Shown::Object(
        seq![
            ("type"@, Shown::Text(operand.kind)),
            ("value"@, operand_value_shown(operand.value)),
        ] + optional_field(
            "shift"@,
            match operand.shift {
                Some(shift) => Some(shift_shown(shift)),
                None => None,
            },
        ) + optional_field("ext"@, maybe_text(operand.ext)) + optional_field(
            "vas"@,
            maybe_text(operand.vas),
        ) + optional_field(
            "vectorIndex"@,
            match operand.vector_index {
                Some(index) => Some(Shown::Int(index as int)),
                None => None,
            },
        ) + seq![("access"@, Shown::Text(operand.access))],
    )
}

/// An operand for a script.
pub fn instruction_operand_to_js(operand: InstructionOperand) -> (value: ScriptValue)
    ensures
        shown(value) == operand_shown(operand@),
{
    let ghost wanted = operand_shown(operand@)->Object_0;
    let mut fields: Vec<Field> = Vec::new();
    set_property(&mut fields, "type", ScriptValue::Text(operand.kind));
    let value: ScriptValue = match operand.value {
        InstructionOperandValue::Register(name) => ScriptValue::Text(name),
        InstructionOperandValue::Immediate(number) => ScriptValue::BigInt(number),
        InstructionOperandValue::Memory(memory) => memory_operand_to_js(memory),
        InstructionOperandValue::Float(bits) => ScriptValue::Float(bits),
        InstructionOperandValue::Integer(number) => ScriptValue::Int64(number),
    };
    set_property(&mut fields, "value", value);
    match operand.shift {
        Some(shift) => {
            let ghost view = (shift.kind@, shift.value);
            let mut inner: Vec<Field> = Vec::new();
            set_property(&mut inner, "type", ScriptValue::Text(shift.kind));
            set_property(&mut inner, "value", ScriptValue::Uint(shift.value));
            assert(shown_fields(inner, inner@.len()) =~= shift_shown(view)->Object_0);
            set_property(&mut fields, "shift", ScriptValue::Object(inner));
        },
        None => {},
    }
    match operand.ext {
        Some(ext) => {
            set_property(&mut fields, "ext", ScriptValue::Text(ext));
        },
        None => {},
    }
    match operand.vas {
        Some(vas) => {
            set_property(&mut fields, "vas", ScriptValue::Text(vas));
        },
        None => {},
    }
    match operand.vector_index {
        Some(index) => {
            set_property(&mut fields, "vectorIndex", ScriptValue::Int(index));
        },
        None => {},
    }
    set_property(&mut fields, "access", ScriptValue::Text(operand.access));
    assert(shown_fields(fields, fields@.len()) =~= wanted);
    ScriptValue::Object(fields)
}

/// What a script sees of operands.
pub open spec fn operands_shown(operands: Seq<OperandView>) -> Seq<Shown> {
    Seq::new(operands.len(), |i: int| operand_shown(operands[i]))
}

/// What a script sees of an instruction.
pub open spec fn instruction_shown(details: InstructionDetails) -> Shown {
    Shown::Object(
        seq![
            ("address"@, Shown::Pointer(details.address)),
            ("next"@, Shown::Pointer(details.next)),
            ("size"@, Shown::Int(details.size as int)),
            ("mnemonic"@, Shown::Text(details.mnemonic@)),
            ("opStr"@, Shown::Text(details.op_str@)),
            ("operands"@, Shown::List(operands_shown(viewed(details.operands@)))),
            (
                "regsAccessed"@,
                Shown::Object(
                    seq![
                        ("read"@, Shown::List(texts_shown(details.regs_accessed_read@))),
                        ("written"@, Shown::List(texts_shown(details.regs_accessed_written@))),
                    ],
                ),
            ),
            ("regsRead"@, Shown::List(texts_shown(details.regs_read@))),
            ("regsWritten"@, Shown::List(texts_shown(details.regs_written@))),
            ("groups"@, Shown::List(texts_shown(details.groups@))),
        ],
    )
}

fn operands_to_js(operands: Vec<InstructionOperand>) -> (value: ScriptValue)
    ensures
        shown(value) == Shown::List(operands_shown(viewed(operands@))),
{
    let ghost all = operands@;
    let ghost wanted = operands_shown(viewed(all));
    let mut items: Vec<ScriptValue> = Vec::new();
    assert(shown_list(items, items@.len()) =~= wanted.take(0));
    for operand in it: operands
        invariant
            it.seq() == all,
            wanted == operands_shown(viewed(all)),
            shown_list(items, items@.len()) == wanted.take(it.index() as int),
    {
        let value: ScriptValue = instruction_operand_to_js(operand);
        push_value(&mut items, value);
        assert(shown_list(items, items@.len()) =~= wanted.take(it.index() as int + 1));
    }
    assert(shown_list(items, items@.len()) =~= wanted);
    ScriptValue::List(items)
}

/// An instruction for a script.
pub fn instruction_to_js(details: InstructionDetails) -> (value: ScriptValue)
    ensures
        shown(value) == instruction_shown(details),
{
    let ghost wanted = instruction_shown(details)->Object_0;
    let mut fields: Vec<Field> = Vec::new();
    set_property(&mut fields, "address", ScriptValue::Pointer(details.address));
    set_property(&mut fields, "next", ScriptValue::Pointer(details.next));
    set_property(&mut fields, "size", ScriptValue::Uint(details.size));
    set_property(&mut fields, "mnemonic", ScriptValue::Text(details.mnemonic));
    set_property(&mut fields, "opStr", ScriptValue::Text(details.op_str));
    set_property(&mut fields, "operands", operands_to_js(details.operands));
    let ghost inner_wanted = seq![
        ("read"@, Shown::List(texts_shown(details.regs_accessed_read@))),
        ("written"@, Shown::List(texts_shown(details.regs_accessed_written@))),
    ];
    let mut inner: Vec<Field> = Vec::new();
    set_property(&mut inner, "read", string_array_to_js(details.regs_accessed_read));
    set_property(&mut inner, "written", string_array_to_js(details.regs_accessed_written));
    assert(shown_fields(inner, inner@.len()) =~= inner_wanted);
    set_property(&mut fields, "regsAccessed", ScriptValue::Object(inner));
    set_property(&mut fields, "regsRead", string_array_to_js(details.regs_read));
    set_property(&mut fields, "regsWritten", string_array_to_js(details.regs_written));
    set_property(&mut fields, "groups", string_array_to_js(details.groups));
    assert(shown_fields(fields, fields@.len()) =~= wanted);
    ScriptValue::Object(fields)
}

/// What a script sees of a function that a query has found.
pub open spec fn match_shown(found: ApiResolverMatch) -> Shown {
    Shown::Object(
        seq![("name"@, Shown::Text(found.name@)), ("address"@, Shown::Pointer(found.address))]
            + optional_field(
            "size"@,
            match found.size {
                Some(size) => Some(Shown::Int(size as int)),
                None => None,
            },
        ),
    )
}

/// What a script sees of functions that a query has found.
pub open spec fn matches_shown(found: Seq<ApiResolverMatch>) -> Seq<Shown> {
    Seq::new(found.len(), |i: int| match_shown(found[i]))
}

/// The functions that a query has found, for a script.
pub fn api_matches_to_js(found: Vec<ApiResolverMatch>) -> (value: ScriptValue)
    ensures
        shown(value) == Shown::List(matches_shown(found@)),
{
    let ghost all = found@;
    let mut items: Vec<ScriptValue> = Vec::new();
    assert(shown_list(items, items@.len()) =~= matches_shown(all).take(0));
    for entry in it: found
        invariant
            it.seq() == all,
            shown_list(items, items@.len()) == matches_shown(all).take(it.index() as int),
    {
        let ghost wanted = match_shown(entry)->Object_0;
        let mut fields: Vec<Field> = Vec::new();
        set_property(&mut fields, "name", ScriptValue::Text(entry.name));
        set_property(&mut fields, "address", ScriptValue::Pointer(entry.address));
        match entry.size {
            Some(size) => {
                set_property(&mut fields, "size", ScriptValue::Uint(size));
            },
            None => {},
        }
        assert(shown_fields(fields, fields@.len()) =~= wanted);
        push_value(&mut items, ScriptValue::Object(fields));
        assert(shown_list(items, items@.len()) =~= matches_shown(all).take(
            it.index() as int + 1,
        ));
    }
    assert(shown_list(items, items@.len()) =~= matches_shown(all));
    ScriptValue::List(items)
}

/// What a script sees of an unsigned integer.
pub open spec fn u64_shown(number: u64) -> Shown {
    if number <= i64::MAX {
        Shown::Int(number as int)
    } else {
        Shown::Large(number)
    }
}

/// An unsigned integer for a script.
pub fn js_u64_value(number: u64) -> (value: ScriptValue)
    ensures
        shown(value) == u64_shown(number),
{
    if number <= 0x7fff_ffff_ffff_ffff {
        ScriptValue::Int64(number as i64)
    } else {
        ScriptValue::Large(number)
    }
}

/// What a script sees of a range of memory.
pub open spec fn range_shown(range: RangeView) -> Shown {
    Shown::Object(
        seq![
            ("base"@, Shown::Pointer(range.base)),
            ("size"@, u64_shown(range.size)),
            ("protection"@, Shown::Text(range.protection)),
        ] + optional_field(
            "file"@,
            match range.path {
                Some(path) => Some(Shown::Object(seq![("path"@, Shown::Text(path))])),
                None => None,
            },
        ),
    )
}

/// A range of memory for a script.
pub fn process_range_to_js(range: ProcessRangeRecord) -> (value: ScriptValue)
    ensures
        shown(value) == range_shown(range@),
{
    let ghost wanted = range_shown(range@)->Object_0;
    let mut fields: Vec<Field> = Vec::new();
    set_property(&mut fields, "base", ScriptValue::Pointer(range.base));
    set_property(&mut fields, "size", js_u64_value(range.size));
    set_property(&mut fields, "protection", ScriptValue::Text(range.protection));
    match range.path {
        Some(path) => {
            let ghost inner_wanted = seq![("path"@, Shown::Text(path@))];
            let mut inner: Vec<Field> = Vec::new();
            set_property(&mut inner, "path", ScriptValue::Text(path));
            assert(shown_fields(inner, inner@.len()) =~= inner_wanted);
            set_property(&mut fields, "file", ScriptValue::Object(inner));
        },
        None => {},
    }
    assert(shown_fields(fields, fields@.len()) =~= wanted);
    ScriptValue::Object(fields)
}

/// What a script sees of a thread.
pub open spec fn thread_shown(id: Shown, name: Option<Seq<char>>, state: Seq<char>) -> Shown {
    Shown::Object(
        seq![("id"@, id)] + optional_field("name"@, maybe_text(name)) + seq![
            ("state"@, Shown::Text(state)),
        ],
    )
}

fn thread_fields(id: ScriptValue, name: Option<String>, state: String) -> (value: ScriptValue)
    ensures
        shown(value) == thread_shown(shown(id), optional_text(name), state@),
{
    let ghost wanted = thread_shown(shown(id), optional_text(name), state@)->Object_0;
    let mut fields: Vec<Field> = Vec::new();
    set_property(&mut fields, "id", id);
    match name {
        Some(name) => {
            set_property(&mut fields, "name", ScriptValue::Text(name));
        },
        None => {},
    }
    set_property(&mut fields, "state", ScriptValue::Text(state));
    assert(shown_fields(fields, fields@.len()) =~= wanted);
    ScriptValue::Object(fields)
}

/// A thread of the process for a script.
pub fn process_thread_to_js(thread: ProcessThread) -> (value: ScriptValue)
    ensures
        shown(value) == thread_shown(
            Shown::Int(thread.tid as int),
            optional_text(thread.name),
            thread.state@,
        ),
{
    thread_fields(
        ScriptValue::Int(thread.tid),
        thread.name,
        String::from_str(thread.state),
    )
}

/// A thread that an observer is told of, for a script.
pub fn thread_details_to_js(thread: ProcessThreadDetails) -> (value: ScriptValue)
    ensures
        shown(value) == thread_shown(
            u64_shown(thread.id),
            optional_text(thread.name),
            thread.state@,
        ),
{
    thread_fields(js_u64_value(thread.id), thread.name, thread.state)
}

/// Whether an object has a field with a value.
pub open spec fn has_field(object: Shown, name: Seq<char>, value: Shown) -> bool {
    object is Object && object->Object_0.contains((name, value))
}

proof fn lemma_field(object: Shown, at: int, name: Seq<char>, value: Shown)
    requires
        object is Object,
        0 <= at < object->Object_0.len(),
        object->Object_0[at] == (name, value),
    ensures
        has_field(object, name, value),
{
}

/// A symbol shows each of its details under its name, with null for what is not known.
pub proof fn symbols_show_their_details(details: SymbolView)
    ensures
        symbol_shown(details)->Object_0.len() == 6,
        has_field(symbol_shown(details), "address"@, Shown::Pointer(details.address)),
        details.name matches Some(text) ==> has_field(
            symbol_shown(details),
            "name"@,
            Shown::Text(text),
        ),
        details.name is None ==> has_field(symbol_shown(details), "name"@, Shown::Null),
        details.module_name matches Some(text) ==> has_field(
            symbol_shown(details),
            "moduleName"@,
            Shown::Text(text),
        ),
        details.module_name is None ==> has_field(symbol_shown(details), "moduleName"@, Shown::Null),
        details.file_name matches Some(text) ==> has_field(
            symbol_shown(details),
            "fileName"@,
            Shown::Text(text),
        ),
        details.file_name is None ==> has_field(symbol_shown(details), "fileName"@, Shown::Null),
        details.line_number matches Some(number) ==> has_field(
            symbol_shown(details),
            "lineNumber"@,
            Shown::Int(number as int),
        ),
        details.line_number is None ==> has_field(symbol_shown(details), "lineNumber"@, Shown::Null),
        details.column matches Some(number) ==> has_field(
            symbol_shown(details),
            "column"@,
            Shown::Int(number as int),
        ),
        details.column is None ==> has_field(symbol_shown(details), "column"@, Shown::Null),
{
    let object = symbol_shown(details);
    let fields = object->Object_0;
    lemma_field(object, 0, fields[0].0, fields[0].1);
    lemma_field(object, 1, fields[1].0, fields[1].1);
    lemma_field(object, 2, fields[2].0, fields[2].1);
    lemma_field(object, 3, fields[3].0, fields[3].1);
    lemma_field(object, 4, fields[4].0, fields[4].1);
    lemma_field(object, 5, fields[5].0, fields[5].1);
}

/// An address in an operand shows the registers that it has under their names, and always
/// the displacement.
pub proof fn memory_operands_show_their_parts(
    base: Option<Seq<char>>,
    index: Option<Seq<char>>,
    disp: i32,
)
    ensures
        ({
            let object = memory_shown(base, index, disp);
            let count: int = 1 + (if base is Some {
                1int
            } else {
                0
            }) + (if index is Some {
                1int
            } else {
                0
            });
            &&& object->Object_0.len() == count
            &&& base matches Some(name) ==> has_field(object, "base"@, Shown::Text(name))
            &&& index matches Some(name) ==> has_field(object, "index"@, Shown::Text(name))
            &&& has_field(object, "disp"@, Shown::Int(disp as int))
        }),
{
    let object = memory_shown(base, index, disp);
    let fields = object->Object_0;
    let at: int = if base is Some {
        1
    } else {
        0
    };
    if base is Some {
        lemma_field(object, 0, "base"@, Shown::Text(base->0));
    }
    if index is Some {
        lemma_field(object, at, "index"@, Shown::Text(index->0));
    }
    let last = fields.len() - 1;
    lemma_field(object, last, "disp"@, Shown::Int(disp as int));
}

/// An operand shows its kind, its value and its access, and of the rest what it has.
pub proof fn operands_show_their_parts(operand: OperandView)
    ensures
        ({
            let object = operand_shown(operand);
            &&& has_field(object, "type"@, Shown::Text(operand.kind))
            &&& has_field(object, "access"@, Shown::Text(operand.access))
            &&& operand.value matches OperandValueView::Register(name) ==> has_field(
                object,
                "value"@,
                Shown::Text(name),
            )
            &&& operand.value matches OperandValueView::Immediate(number) ==> has_field(
                object,
                "value"@,
                Shown::BigInt(number as int),
            )
            &&& operand.value matches OperandValueView::Float(bits) ==> has_field(
                object,
                "value"@,
                Shown::Float(bits),
            )
            &&& operand.value matches OperandValueView::Integer(number) ==> has_field(
                object,
                "value"@,
                Shown::Int(number as int),
            )
            &&& operand.value matches OperandValueView::Memory(base, index, disp) ==> has_field(
                object,
                "value"@,
                memory_shown(base, index, disp),
            )
            &&& operand.shift matches Some(shift) ==> has_field(
                object,
                "shift"@,
                Shown::Object(
                    seq![("type"@, Shown::Text(shift.0)), ("value"@, Shown::Int(shift.1 as int))],
                ),
            )
            &&& operand.ext matches Some(ext) ==> has_field(object, "ext"@, Shown::Text(ext))
            &&& operand.vas matches Some(vas) ==> has_field(object, "vas"@, Shown::Text(vas))
            &&& operand.vector_index matches Some(index) ==> has_field(
                object,
                "vectorIndex"@,
                Shown::Int(index as int),
            )
            &&& object->Object_0.len() == 3 + (if operand.shift is Some {
                1int
            } else {
                0
            }) + (if operand.ext is Some {
                1int
            } else {
                0
            }) + (if operand.vas is Some {
                1int
            } else {
                0
            }) + (if operand.vector_index is Some {
                1int
            } else {
                0
            })
        }),
{
    let object = operand_shown(operand);
    let fields = object->Object_0;
    lemma_field(object, 0, fields[0].0, fields[0].1);
    lemma_field(object, 1, fields[1].0, fields[1].1);
    lemma_field(object, fields.len() - 1, "access"@, Shown::Text(operand.access));
    let a: int = 2;
    let b: int = a + if operand.shift is Some {
        1int
    } else {
        0
    };
    let c: int = b + if operand.ext is Some {
        1int
    } else {
        0
    };
    let d: int = c + if operand.vas is Some {
        1int
    } else {
        0
    };
    if operand.shift is Some {
        lemma_field(object, a, "shift"@, shift_shown(operand.shift->0));
    }
    if operand.ext is Some {
        lemma_field(object, b, "ext"@, Shown::Text(operand.ext->0));
    }
    if operand.vas is Some {
        lemma_field(object, c, "vas"@, Shown::Text(operand.vas->0));
    }
    if operand.vector_index is Some {
        lemma_field(object, d, "vectorIndex"@, Shown::Int(operand.vector_index->0 as int));
    }
}

/// An instruction shows each of its details under its name.
pub proof fn instructions_show_their_details(details: InstructionDetails)
    ensures
        ({
            let object = instruction_shown(details);
            let accessed = Shown::Object(
                seq![
                    ("read"@, Shown::List(texts_shown(details.regs_accessed_read@))),
                    ("written"@, Shown::List(texts_shown(details.regs_accessed_written@))),
                ],
            );
            &&& object->Object_0.len() == 10
            &&& has_field(object, "address"@, Shown::Pointer(details.address))
            &&& has_field(object, "next"@, Shown::Pointer(details.next))
            &&& has_field(object, "size"@, Shown::Int(details.size as int))
            &&& has_field(object, "mnemonic"@, Shown::Text(details.mnemonic@))
            &&& has_field(object, "opStr"@, Shown::Text(details.op_str@))
            &&& has_field(
                object,
                "operands"@,
                Shown::List(operands_shown(viewed(details.operands@))),
            )
            &&& has_field(object, "regsAccessed"@, accessed)
            &&& has_field(object, "regsRead"@, Shown::List(texts_shown(details.regs_read@)))
            &&& has_field(object, "regsWritten"@, Shown::List(texts_shown(details.regs_written@)))
            &&& has_field(object, "groups"@, Shown::List(texts_shown(details.groups@)))
        }),
{
    let object = instruction_shown(details);
    let fields = object->Object_0;
    lemma_field(object, 0, fields[0].0, fields[0].1);
    lemma_field(object, 1, fields[1].0, fields[1].1);
    lemma_field(object, 2, fields[2].0, fields[2].1);
    lemma_field(object, 3, fields[3].0, fields[3].1);
    lemma_field(object, 4, fields[4].0, fields[4].1);
    lemma_field(object, 5, fields[5].0, fields[5].1);
    lemma_field(object, 6, fields[6].0, fields[6].1);
    lemma_field(object, 7, fields[7].0, fields[7].1);
    lemma_field(object, 8, fields[8].0, fields[8].1);
    lemma_field(object, 9, fields[9].0, fields[9].1);
}

/// A function that was found shows its name and address, and its size if that is known.
pub proof fn matches_show_their_details(found: ApiResolverMatch)
    ensures
        has_field(match_shown(found), "name"@, Shown::Text(found.name@)),
        has_field(match_shown(found), "address"@, Shown::Pointer(found.address)),
        found.size matches Some(size) ==> has_field(
            match_shown(found),
            "size"@,
            Shown::Int(size as int),
        ),
        match_shown(found)->Object_0.len() == if found.size is Some {
            3int
        } else {
            2
        },
{
    let object = match_shown(found);
    lemma_field(object, 0, "name"@, Shown::Text(found.name@));
    lemma_field(object, 1, "address"@, Shown::Pointer(found.address));
    if found.size is Some {
        lemma_field(object, 2, "size"@, Shown::Int(found.size->0 as int));
    }
}

/// A range shows its base, size and protection, and the path of its file if it has one. A
/// size beyond the signed integers is shown as a large number.
pub proof fn ranges_show_their_details(range: RangeView)
    ensures
        has_field(range_shown(range), "base"@, Shown::Pointer(range.base)),
        range.size <= 0x7fff_ffff_ffff_ffff ==> has_field(
            range_shown(range),
            "size"@,
            Shown::Int(range.size as int),
        ),
        range.size > 0x7fff_ffff_ffff_ffff ==> has_field(
            range_shown(range),
            "size"@,
            Shown::Large(range.size),
        ),
        has_field(range_shown(range), "protection"@, Shown::Text(range.protection)),
        range.path matches Some(path) ==> has_field(
            range_shown(range),
            "file"@,
            Shown::Object(seq![("path"@, Shown::Text(path))]),
        ),
        range_shown(range)->Object_0.len() == if range.path is Some {
            4int
        } else {
            3
        },
{
    let object = range_shown(range);
    lemma_field(object, 0, "base"@, Shown::Pointer(range.base));
    lemma_field(object, 1, "size"@, u64_shown(range.size));
    lemma_field(object, 2, "protection"@, Shown::Text(range.protection));
    if range.path is Some {
        lemma_field(
            object,
            3,
            "file"@,
            Shown::Object(seq![("path"@, Shown::Text(range.path->0))]),
        );
    }
}

/// A thread shows its number and its state, and its name if it has one.
pub proof fn threads_show_their_details(id: Shown, name: Option<Seq<char>>, state: Seq<char>)
    ensures
        has_field(thread_shown(id, name, state), "id"@, id),
        name matches Some(text) ==> has_field(
            thread_shown(id, name, state),
            "name"@,
            Shown::Text(text),
        ),
        has_field(thread_shown(id, name, state), "state"@, Shown::Text(state)),
        thread_shown(id, name, state)->Object_0.len() == if name is Some {
            3int
        } else {
            2
        },
{
    let object = thread_shown(id, name, state);
    let fields = object->Object_0;
    lemma_field(object, 0, "id"@, id);
    lemma_field(object, fields.len() - 1, "state"@, Shown::Text(state));
    if name is Some {
        lemma_field(object, 1, "name"@, Shown::Text(name->0));
    }
}

/// Lists show their members in their order.
pub proof fn lists_keep_their_order(addresses: Seq<u64>, texts: Seq<String>, at: int)
    ensures
        addresses_shown(addresses).len() == addresses.len(),
        0 <= at < addresses.len() ==> addresses_shown(addresses)[at] == Shown::Pointer(
            addresses[at],
        ),
        texts_shown(texts).len() == texts.len(),
        0 <= at < texts.len() ==> texts_shown(texts)[at] == Shown::Text(texts[at]@),
{
}

} // verus!
