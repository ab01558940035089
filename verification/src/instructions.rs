//! Decoded machine instructions as scripts see them.

use crate::text::{numeral, numerals_spell_their_values, optional_text, push_numeral, spells};
use vstd::prelude::*;
use vstd::string::*;

verus! {

/// The decoder's answer that all is well.
pub const DECODER_OK: u32 = 0;

/// An operand is read.
pub const ACCESS_READ: u8 = 1;

/// An operand is written.
pub const ACCESS_WRITE: u8 = 2;

/// A register as the decoder numbers and names it; zero is no register.
#[derive(Debug)]
pub struct DecodedRegister {
    pub number: u32,
    pub name: String,
}

/// What the decoder says of the kind and the value of an operand.
#[derive(Debug)]
pub enum DecodedValue {
    Register(DecodedRegister),
    Immediate(i64),
    Memory { base: DecodedRegister, index: DecodedRegister, displacement: i32 },
    /// The bits of a floating-point number.
    Float(u64),
    CoprocessorImmediate(i64),
    SystemRegisterRead(DecodedRegister),
    SystemRegisterWrite(DecodedRegister),
    ProcessorState(u32),
    System(u32),
    Prefetch(u32),
    Barrier(u32),
    StreamingControl(u32),
    MatrixIndex { register: DecodedRegister, base: DecodedRegister, displacement: i32 },
    Other,
}

/// How an operand is shifted.
#[derive(Clone, Copy, Debug, PartialEq, Eq, Structural)]
pub enum Shifter {
    Lsl,
    Msl,
    Lsr,
    Asr,
    Ror,
    Other,
}

/// How an operand is widened.
#[derive(Clone, Copy, Debug, PartialEq, Eq, Structural)]
pub enum Extender {
    Uxtb,
    Uxth,
    Uxtw,
    Uxtx,
    Sxtb,
    Sxth,
    Sxtw,
    Sxtx,
    Other,
}

/// How a vector register is divided: the number of lanes and their width.
#[derive(Clone, Copy, Debug, PartialEq, Eq, Structural)]
pub enum Arrangement {
    Bytes16,
    Bytes8,
    Bytes4,
    Bytes1,
    Halves8,
    Halves4,
    Halves2,
    Halves1,
    Singles4,
    Singles2,
    Singles1,
    Doubles2,
    Doubles1,
    Quads1,
    Other,
}

/// An operand as the decoder gives it.
#[derive(Debug)]
pub struct DecodedOperand {
    pub value: DecodedValue,
    pub shifter: Shifter,
    pub shift_amount: u32,
    pub extender: Extender,
    pub arrangement: Arrangement,
    /// Minus one if the operand is no lane of a vector.
    pub vector_index: i32,
    pub access: u8,
}

/// A shift of an operand.
#[derive(Debug, PartialEq, Eq)]
pub struct InstructionShift {
    pub kind: String,
    pub value: u32,
}

/// An operand in memory.
#[derive(Debug, PartialEq, Eq)]
pub struct InstructionMemoryOperand {
    pub base: Option<String>,
    pub index: Option<String>,
    pub displacement: i32,
}

/// The value of an operand.
#[derive(Debug, PartialEq, Eq)]
pub enum InstructionOperandValue {
    Register(String),
    Immediate(i64),
    Memory(InstructionMemoryOperand),
    /// The bits of a floating-point number.
    Float(u64),
    Integer(i64),
}

/// An operand as a script sees it.
#[derive(Debug, PartialEq, Eq)]
pub struct InstructionOperand {
    pub kind: String,
    pub value: InstructionOperandValue,
    pub shift: Option<InstructionShift>,
    pub ext: Option<String>,
    pub vas: Option<String>,
    pub vector_index: Option<i32>,
    pub access: String,
}

/// An instruction as a script sees it.
#[derive(Debug, PartialEq, Eq)]
pub struct InstructionDetails {
    pub address: u64,
    pub next: u64,
    pub size: u32,
    pub mnemonic: String,
    pub op_str: String,
    pub operands: Vec<InstructionOperand>,
    pub regs_accessed_read: Vec<String>,
    pub regs_accessed_written: Vec<String>,
    pub regs_read: Vec<String>,
    pub regs_written: Vec<String>,
    pub groups: Vec<String>,
}

/// What a contract says of the value of an operand.
pub ghost enum OperandValueView {
    Register(Seq<char>),
    Immediate(i64),
    Memory(Option<Seq<char>>, Option<Seq<char>>, i32),
    Float(u64),
    Integer(i64),
}

/// What a contract says of an operand.
pub ghost struct OperandView {
    pub kind: Seq<char>,
    pub value: OperandValueView,
    pub shift: Option<(Seq<char>, u32)>,
    pub ext: Option<Seq<char>>,
    pub vas: Option<Seq<char>>,
    pub vector_index: Option<i32>,
    pub access: Seq<char>,
}

impl InstructionOperandValue {
    pub open spec fn view(&self) -> OperandValueView {
        match *self {
            InstructionOperandValue::Register(name) => OperandValueView::Register(name@),
            InstructionOperandValue::Immediate(value) => OperandValueView::Immediate(value),
            InstructionOperandValue::Memory(memory) => OperandValueView::Memory(
                optional_text(memory.base),
                optional_text(memory.index),
                memory.displacement,
            ),
            InstructionOperandValue::Float(bits) => OperandValueView::Float(bits),
            InstructionOperandValue::Integer(value) => OperandValueView::Integer(value),
        }
    }
}

impl InstructionOperand {
    pub open spec fn view(&self) -> OperandView {
        OperandView {
            kind: self.kind@,
            value: self.value@,
            shift: match self.shift {
                Some(shift) => Some((shift.kind@, shift.value)),
                None => None,
            },
            ext: optional_text(self.ext),
            vas: optional_text(self.vas),
            vector_index: self.vector_index,
            access: self.access@,
        }
    }
}

/// Text that may be missing, as characters.
pub open spec fn optional_str(text: Option<&'static str>) -> Option<Seq<char>> {
    match text {
        Some(text) => Some(text@),
        None => None,
    }
}

/// How an operand is accessed, in letters.
pub open spec fn access_text(access: u8) -> Seq<char> {
    if access == ACCESS_READ {
        "r"@
    } else if access == ACCESS_WRITE {
        "w"@
    } else if access == ACCESS_READ + ACCESS_WRITE {
        "rw"@
    } else {
        ""@
    }
}

/// How an operand is accessed, in letters.
pub fn access_name(access: u8) -> (name: &'static str)
    ensures
        name@ == access_text(access),
{
    if access == ACCESS_READ {
        "r"
    } else if access == ACCESS_WRITE {
        "w"
    } else if access == ACCESS_READ + ACCESS_WRITE {
        "rw"
    } else {
        ""
    }
}

/// The name of a shift.
pub open spec fn shift_text(kind: Shifter) -> Option<Seq<char>> {
    match kind {
        Shifter::Lsl => Some("lsl"@),
        Shifter::Msl => Some("msl"@),
        Shifter::Lsr => Some("lsr"@),
        Shifter::Asr => Some("asr"@),
        Shifter::Ror => Some("ror"@),
        Shifter::Other => None,
    }
}

/// The name of a shift.
pub fn shift_name(kind: Shifter) -> (name: Option<&'static str>)
    ensures
        optional_str(name) == shift_text(kind),
{
    match kind {
        Shifter::Lsl => Some("lsl"),
        Shifter::Msl => Some("msl"),
        Shifter::Lsr => Some("lsr"),
        Shifter::Asr => Some("asr"),
        Shifter::Ror => Some("ror"),
        Shifter::Other => None,
    }
}

/// The name of a widening.
pub open spec fn extender_text(ext: Extender) -> Option<Seq<char>> {
    match ext {
        Extender::Uxtb => Some("uxtb"@),
        Extender::Uxth => Some("uxth"@),
        Extender::Uxtw => Some("uxtw"@),
        Extender::Uxtx => Some("uxtx"@),
        Extender::Sxtb => Some("sxtb"@),
        Extender::Sxth => Some("sxth"@),
        Extender::Sxtw => Some("sxtw"@),
        Extender::Sxtx => Some("sxtx"@),
        Extender::Other => None,
    }
}

/// The name of a widening.
pub fn extender_name(ext: Extender) -> (name: Option<&'static str>)
    ensures
        optional_str(name) == extender_text(ext),
{
    match ext {
        Extender::Uxtb => Some("uxtb"),
        Extender::Uxth => Some("uxth"),
        Extender::Uxtw => Some("uxtw"),
        Extender::Uxtx => Some("uxtx"),
        Extender::Sxtb => Some("sxtb"),
        Extender::Sxth => Some("sxth"),
        Extender::Sxtw => Some("sxtw"),
        Extender::Sxtx => Some("sxtx"),
        Extender::Other => None,
    }
}

/// The number of lanes and the letter of their width.
pub open spec fn lanes(vas: Arrangement) -> Option<(nat, char)> {
    match vas {
        Arrangement::Bytes16 => Some((16, 'b')),
        Arrangement::Bytes8 => Some((8, 'b')),
        Arrangement::Bytes4 => Some((4, 'b')),
        Arrangement::Bytes1 => Some((1, 'b')),
        Arrangement::Halves8 => Some((8, 'h')),
        Arrangement::Halves4 => Some((4, 'h')),
        Arrangement::Halves2 => Some((2, 'h')),
        Arrangement::Halves1 => Some((1, 'h')),
        Arrangement::Singles4 => Some((4, 's')),
        Arrangement::Singles2 => Some((2, 's')),
        Arrangement::Singles1 => Some((1, 's')),
        Arrangement::Doubles2 => Some((2, 'd')),
        Arrangement::Doubles1 => Some((1, 'd')),
        Arrangement::Quads1 => Some((1, 'q')),
        Arrangement::Other => None,
    }
}

/// The name of an arrangement: how many lanes it has, then the letter of their width.
pub open spec fn vas_text(vas: Arrangement) -> Option<Seq<char>> {
    match lanes(vas) {
        Some((count, width)) => Some(numeral(count, 10).push(width)),
        None => None,
    }
}

/// The name of an arrangement.
pub fn vas_name(vas: Arrangement) -> (name: Option<String>)
    ensures
        optional_text(name) == vas_text(vas),
{
    let (count, width): (u64, char) = match vas {
        Arrangement::Bytes16 => (16, 'b'),
        Arrangement::Bytes8 => (8, 'b'),
        Arrangement::Bytes4 => (4, 'b'),
        Arrangement::Bytes1 => (1, 'b'),
        Arrangement::Halves8 => (8, 'h'),
        Arrangement::Halves4 => (4, 'h'),
        Arrangement::Halves2 => (2, 'h'),
        Arrangement::Halves1 => (1, 'h'),
        Arrangement::Singles4 => (4, 's'),
        Arrangement::Singles2 => (2, 's'),
        Arrangement::Singles1 => (1, 's'),
        Arrangement::Doubles2 => (2, 'd'),
        Arrangement::Doubles1 => (1, 'd'),
        Arrangement::Quads1 => (1, 'q'),
        Arrangement::Other => {
            return None;
        },
    };
    let mut name: String = String::new();
    push_numeral(&mut name, count, 10);
    name.push(width);
    proof {
        assert(Seq::<char>::empty() + numeral(count as nat, 10) =~= numeral(count as nat, 10));
    }
    Some(name)
}

/// The name of a register, if there is one.
pub open spec fn register_text(register: DecodedRegister) -> Option<Seq<char>> {
    if register.number == 0 {
        None
    } else {
        Some(register.name@)
    }
}

fn register_name(register: DecodedRegister) -> (name: Option<String>)
    ensures
        optional_text(name) == register_text(register),
{
    if register.number == 0 {
        None
    } else {
        Some(register.name)
    }
}

/// What a script sees of the kind and the value of an operand.
pub open spec fn value_view(value: DecodedValue) -> Option<(Seq<char>, OperandValueView)> {
    match value {
        DecodedValue::Register(register) => Some(
            ("reg"@, OperandValueView::Register(register.name@)),
        ),
        DecodedValue::Immediate(number) => Some(("imm"@, OperandValueView::Immediate(number))),
        DecodedValue::Memory { base, index, displacement } => Some(
            (
                "mem"@,
                OperandValueView::Memory(
                    register_text(base),
                    register_text(index),
                    displacement,
                ),
            ),
        ),
        DecodedValue::Float(bits) => Some(("fp"@, OperandValueView::Float(bits))),
        DecodedValue::CoprocessorImmediate(number) => Some(
            ("cimm"@, OperandValueView::Immediate(number)),
        ),
        DecodedValue::SystemRegisterRead(register) => Some(
            ("reg-mrs"@, OperandValueView::Register(register.name@)),
        ),
        DecodedValue::SystemRegisterWrite(register) => Some(
            ("reg-msr"@, OperandValueView::Register(register.name@)),
        ),
        DecodedValue::ProcessorState(number) => Some(
            ("pstate"@, OperandValueView::Integer(number as i64)),
        ),
        DecodedValue::System(number) => Some(("sys"@, OperandValueView::Integer(number as i64))),
        DecodedValue::Prefetch(number) => Some(
            ("prefetch"@, OperandValueView::Integer(number as i64)),
        ),
        DecodedValue::Barrier(number) => Some(
            ("barrier"@, OperandValueView::Integer(number as i64)),
        ),
        DecodedValue::StreamingControl(number) => Some(
            ("svcr"@, OperandValueView::Integer(number as i64)),
        ),
        DecodedValue::MatrixIndex { register, base, displacement } => Some(
            (
                "sme-index"@,
                OperandValueView::Memory(
                    register_text(register),
                    register_text(base),
                    displacement,
                ),
            ),
        ),
        DecodedValue::Other => None,
    }
}

/// What a script sees of an operand; none of an operand of another kind.
pub open spec fn operand_view(operand: DecodedOperand) -> Option<OperandView> {
    match value_view(operand.value) {
        Some((kind, value)) => Some(
            OperandView {
                kind,
                value,
                shift: match shift_text(operand.shifter) {
                    Some(shift) => Some((shift, operand.shift_amount)),
                    None => None,
                },
                ext: extender_text(operand.extender),
                vas: vas_text(operand.arrangement),
                vector_index: if operand.vector_index == -1 {
                    None
                } else {
                    Some(operand.vector_index)
                },
                access: access_text(operand.access),
            },
        ),
        None => None,
    }
}

/// What a script sees of an operand, unless it is of another kind.
pub fn parse_operand(operand: DecodedOperand) -> (parsed: Option<InstructionOperand>)
    ensures
        parsed is Some <==> operand_view(operand) is Some,
        parsed matches Some(p) ==> Some(p@) == operand_view(operand),
{
    let (kind, value): (&'static str, InstructionOperandValue) = match operand.value {
        DecodedValue::Register(register) => (
            "reg",
            InstructionOperandValue::Register(register.name),
        ),
        DecodedValue::Immediate(number) => ("imm", InstructionOperandValue::Immediate(number)),
        DecodedValue::Memory { base, index, displacement } => (
            "mem",
            InstructionOperandValue::Memory(
                InstructionMemoryOperand {
                    base: register_name(base),
                    index: register_name(index),
                    displacement,
                },
            ),
        ),
        DecodedValue::Float(bits) => ("fp", InstructionOperandValue::Float(bits)),
        DecodedValue::CoprocessorImmediate(number) => (
            "cimm",
            InstructionOperandValue::Immediate(number),
        ),
        DecodedValue::SystemRegisterRead(register) => (
            "reg-mrs",
            InstructionOperandValue::Register(register.name),
        ),
        DecodedValue::SystemRegisterWrite(register) => (
            "reg-msr",
            InstructionOperandValue::Register(register.name),
        ),
        DecodedValue::ProcessorState(number) => (
            "pstate",
            InstructionOperandValue::Integer(number as i64),
        ),
        DecodedValue::System(number) => ("sys", InstructionOperandValue::Integer(number as i64)),
        DecodedValue::Prefetch(number) => (
            "prefetch",
            InstructionOperandValue::Integer(number as i64),
        ),
        DecodedValue::Barrier(number) => (
            "barrier",
            InstructionOperandValue::Integer(number as i64),
        ),
        DecodedValue::StreamingControl(number) => (
            "svcr",
            InstructionOperandValue::Integer(number as i64),
        ),
        DecodedValue::MatrixIndex { register, base, displacement } => (
            "sme-index",
            InstructionOperandValue::Memory(
                InstructionMemoryOperand {
                    base: register_name(register),
                    index: register_name(base),
                    displacement,
                },
            ),
        ),
        DecodedValue::Other => {
            return None;
        },
    };
    let shift: Option<InstructionShift> = match shift_name(operand.shifter) {
        Some(name) => Some(
            InstructionShift { kind: String::from_str(name), value: operand.shift_amount },
        ),
        None => None,
    };
    let ext: Option<String> = match extender_name(operand.extender) {
        Some(name) => Some(String::from_str(name)),
        None => None,
    };
    let vector_index: Option<i32> = if operand.vector_index != -1 {
        Some(operand.vector_index)
    } else {
        None
    };
    Some(
        InstructionOperand {
            kind: String::from_str(kind),
            value,
            shift,
            ext,
            vas: vas_name(operand.arrangement),
            vector_index,
            access: String::from_str(access_name(operand.access)),
        },
    )
}

/// What the decoder says of an instruction beyond its text. The lists are as long as the
/// decoder has room for; the counts say how much of them holds.
#[derive(Debug)]
pub struct InstructionDetail {
    pub op_count: u8,
    pub operands: Vec<DecodedOperand>,
    /// The decoder's answer when it was asked for the registers that are accessed.
    pub access_error: u32,
    pub accessed_read_count: u8,
    pub accessed_read: Vec<String>,
    pub accessed_written_count: u8,
    pub accessed_written: Vec<String>,
    pub read_count: u8,
    pub read: Vec<String>,
    pub written_count: u8,
    pub written: Vec<String>,
    pub group_count: u8,
    pub groups: Vec<String>,
}

/// An instruction as the decoder gives it.
#[derive(Debug)]
pub struct DecodedInstruction {
    pub address: u64,
    pub size: u16,
    pub mnemonic: String,
    pub op_str: String,
    pub detail: Option<InstructionDetail>,
}

/// What a script sees of operands; those of another kind are left out.
pub open spec fn operand_views(operands: Seq<DecodedOperand>) -> Seq<OperandView>
    decreases operands.len(),
{
    if operands.len() == 0 {
        seq![]
    } else {
        match operand_view(operands.last()) {
            Some(view) => operand_views(operands.drop_last()).push(view),
            None => operand_views(operands.drop_last()),
        }
    }
}

/// The operands of an instruction, by their views.
pub open spec fn viewed(operands: Seq<InstructionOperand>) -> Seq<OperandView> {
    Seq::new(operands.len(), |i: int| operands[i]@)
}

/// The part of a list that holds.
pub open spec fn held<T>(list: Seq<T>, count: u8) -> Seq<T> {
    list.take(if count <= list.len() {
        count as int
    } else {
        list.len() as int
    })
}

fn held_operands(mut operands: Vec<DecodedOperand>, count: u8) -> (parsed: Vec<InstructionOperand>)
    ensures
        viewed(parsed@) == operand_views(held(operands@, count)),
{
    let ghost list = held(operands@, count);
    operands.truncate(count as usize);
    assert(operands@ =~= list);
    let mut parsed: Vec<InstructionOperand> = Vec::new();
    assert(list.take(0) =~= seq![]);
    assert(viewed(parsed@) =~= operand_views(list.take(0)));
    for operand in it: operands
        invariant
            it.seq() == list,
            viewed(parsed@) == operand_views(list.take(it.index() as int)),
    {
        let ghost done = it.index() as int;
        assert(list.take(done + 1).drop_last() =~= list.take(done));
        assert(list.take(done + 1).last() == operand);
        match parse_operand(operand) {
            Some(view) => {
                let ghost before = parsed@;
                parsed.push(view);
                assert(viewed(parsed@) =~= viewed(before).push(view@));
            },
            None => {},
        }
    }
    assert(list.take(list.len() as int) =~= list);
    parsed
}

fn held_names(mut names: Vec<String>, count: u8) -> (list: Vec<String>)
    ensures
        list@ == held(names@, count),
{
    let ghost all = names@;
    names.truncate(count as usize);
    assert(names@ =~= held(all, count));
    names
}

/// What goes wrong with an instruction, in the order of the checks.
pub open spec fn instruction_problem(decoded: Option<DecodedInstruction>) -> Option<Seq<char>> {
    match decoded {
        None => Some("invalid instruction"@),
        Some(instruction) => match instruction.detail {
            None => Some("ARM64 instruction details are unavailable"@),
            Some(detail) => if detail.access_error != DECODER_OK {
                Some(
                    "unable to compute ARM64 register access: Capstone error "@ + numeral(
                        detail.access_error as nat,
                        10,
                    ),
                )
            } else {
                None
            },
        },
    }
}

/// What a script sees of the instruction at an address, if the decoder found one.
pub fn parse_instruction(address: u64, decoded: Option<DecodedInstruction>) -> (result: Result<
    InstructionDetails,
    String,
>)
    ensures
        result is Err <==> instruction_problem(decoded) is Some,
        result matches Err(error) ==> Some(error@) == instruction_problem(decoded),
        result matches Ok(details) ==> {
            let instruction = decoded->0;
            let detail = instruction.detail->0;
            &&& details.address == instruction.address
            &&& details.next == (address + instruction.size) % 0x1_0000_0000_0000_0000
            &&& details.size == instruction.size
            &&& details.mnemonic@ == instruction.mnemonic@
            &&& details.op_str@ == instruction.op_str@
            &&& viewed(details.operands@) == operand_views(
                held(detail.operands@, detail.op_count),
            )
            &&& details.regs_accessed_read@ == held(
                detail.accessed_read@,
                detail.accessed_read_count,
            )
            &&& details.regs_accessed_written@ == held(
                detail.accessed_written@,
                detail.accessed_written_count,
            )
            &&& details.regs_read@ == held(detail.read@, detail.read_count)
            &&& details.regs_written@ == held(detail.written@, detail.written_count)
            &&& details.groups@ == held(detail.groups@, detail.group_count)
        },
{
    let instruction: DecodedInstruction = match decoded {
        Some(instruction) => instruction,
        None => {
            return Err(String::from_str("invalid instruction"));
        },
    };
    let detail: InstructionDetail = match instruction.detail {
        Some(detail) => detail,
        None => {
            return Err(String::from_str("ARM64 instruction details are unavailable"));
        },
    };
    if detail.access_error != DECODER_OK {
        let mut error: String = String::from_str(
            "unable to compute ARM64 register access: Capstone error ",
        );
        push_numeral(&mut error, detail.access_error as u64, 10);
        return Err(error);
    }
    Ok(
        InstructionDetails {
            address: instruction.address,
            next: address.wrapping_add(instruction.size as u64),
            size: instruction.size as u32,
            mnemonic: instruction.mnemonic,
            op_str: instruction.op_str,
            operands: held_operands(detail.operands, detail.op_count),
            regs_accessed_read: held_names(detail.accessed_read, detail.accessed_read_count),
            regs_accessed_written: held_names(
                detail.accessed_written,
                detail.accessed_written_count,
            ),
            regs_read: held_names(detail.read, detail.read_count),
            regs_written: held_names(detail.written, detail.written_count),
            groups: held_names(detail.groups, detail.group_count),
        },
    )
}

/// What the decoder answers while it is set up.
#[derive(Clone, Copy, Debug, PartialEq, Eq, Structural)]
pub struct DecoderSetup {
    /// Its answer when it was opened.
    pub open: u32,
    /// Its answer when it was asked for details, if it was opened.
    pub detail: u32,
}

/// A decoder that could not be set up.
#[derive(Debug)]
pub struct DecoderFailure {
    pub message: String,
    /// Whether it was opened and has to be closed again.
    pub close: bool,
}

/// Whether the decoder is ready.
pub fn decoder_ready(setup: DecoderSetup) -> (result: Result<(), DecoderFailure>)
    ensures
        result is Ok <==> setup.open == DECODER_OK && setup.detail == DECODER_OK,
        result matches Err(failure) ==> {
            &&& failure.close == (setup.open == DECODER_OK)
            &&& failure.message@ == if setup.open != DECODER_OK {
                "unable to initialize ARM64 disassembler: Capstone error "@ + numeral(
                    setup.open as nat,
                    10,
                )
            } else {
                "unable to enable ARM64 instruction details: Capstone error "@ + numeral(
                    setup.detail as nat,
                    10,
                )
            }
        },
{
    if setup.open != DECODER_OK {
        let mut message: String = String::from_str(
            "unable to initialize ARM64 disassembler: Capstone error ",
        );
        push_numeral(&mut message, setup.open as u64, 10);
        return Err(DecoderFailure { message, close: false });
    }
    if setup.detail != DECODER_OK {
        let mut message: String = String::from_str(
            "unable to enable ARM64 instruction details: Capstone error ",
        );
        push_numeral(&mut message, setup.detail as u64, 10);
        return Err(DecoderFailure { message, close: true });
    }
    Ok(())
}

/// The operands of an instruction that a script sees are those of the decoder, each in its
/// place, if the decoder has none of another kind.
pub proof fn operands_keep_their_places(operands: Seq<DecodedOperand>)
    requires
        forall|i: int| 0 <= i < operands.len() ==> operand_view(#[trigger] operands[i]) is Some,
    ensures
        operand_views(operands).len() == operands.len(),
        forall|i: int|
            0 <= i < operands.len() ==> Some(#[trigger] operand_views(operands)[i])
                == operand_view(operands[i]),
    decreases operands.len(),
{
    if operands.len() > 0 {
        let front = operands.drop_last();
        assert forall|i: int| 0 <= i < front.len() implies operand_view(#[trigger] front[i]) is Some by {
            assert(operand_view(operands[i]) is Some);
        }
        operands_keep_their_places(front);
        assert(operand_view(operands[operands.len() - 1]) is Some);
        assert forall|i: int| 0 <= i < operands.len() implies Some(
            #[trigger] operand_views(operands)[i],
        ) == operand_view(operands[i]) by {
            if i < front.len() {
                assert(Some(operand_views(front)[i]) == operand_view(front[i]));
            }
        }
    }
}

/// Shifts, widenings and accesses go by their usual names; a widening's name begins with
/// `s` if it keeps the sign and with `u` if not, and ends with the letter of its width.
pub proof fn names_are_those_of_the_architecture()
    ensures
        shift_text(Shifter::Lsl) == Some("lsl"@),
        shift_text(Shifter::Msl) == Some("msl"@),
        shift_text(Shifter::Lsr) == Some("lsr"@),
        shift_text(Shifter::Asr) == Some("asr"@),
        shift_text(Shifter::Ror) == Some("ror"@),
        shift_text(Shifter::Other) is None,
        extender_text(Extender::Uxtb) == Some("uxt"@.push('b')),
        extender_text(Extender::Uxth) == Some("uxt"@.push('h')),
        extender_text(Extender::Uxtw) == Some("uxt"@.push('w')),
        extender_text(Extender::Uxtx) == Some("uxt"@.push('x')),
        extender_text(Extender::Sxtb) == Some("sxt"@.push('b')),
        extender_text(Extender::Sxth) == Some("sxt"@.push('h')),
        extender_text(Extender::Sxtw) == Some("sxt"@.push('w')),
        extender_text(Extender::Sxtx) == Some("sxt"@.push('x')),
        extender_text(Extender::Other) is None,
        access_text(1) == "r"@,
        access_text(2) == "w"@,
        access_text(3) == "rw"@,
        forall|access: u8|
            access == 0 || access > 3 ==> #[trigger] access_text(access) == ""@,
{
    reveal_strlit("uxt");
    reveal_strlit("sxt");
    reveal_strlit("uxtb");
    reveal_strlit("uxth");
    reveal_strlit("uxtw");
    reveal_strlit("uxtx");
    reveal_strlit("sxtb");
    reveal_strlit("sxth");
    reveal_strlit("sxtw");
    reveal_strlit("sxtx");
    assert("uxtb"@ =~= "uxt"@.push('b'));
    assert("uxth"@ =~= "uxt"@.push('h'));
    assert("uxtw"@ =~= "uxt"@.push('w'));
    assert("uxtx"@ =~= "uxt"@.push('x'));
    assert("sxtb"@ =~= "sxt"@.push('b'));
    assert("sxth"@ =~= "sxt"@.push('h'));
    assert("sxtw"@ =~= "sxt"@.push('w'));
    assert("sxtx"@ =~= "sxt"@.push('x'));
}

/// The name of an arrangement is the number of its lanes and the letter of their width.
pub proof fn arrangements_name_their_lanes(vas: Arrangement)
    ensures
        vas_text(vas) is None <==> vas is Other,
        vas is Bytes16 || vas is Bytes8 || vas is Bytes4 || vas is Bytes1 ==> vas_text(
            vas,
        )->0.last() == 'b',
        vas is Halves8 || vas is Halves4 || vas is Halves2 || vas is Halves1 ==> vas_text(
            vas,
        )->0.last() == 'h',
        vas is Singles4 || vas is Singles2 || vas is Singles1 ==> vas_text(vas)->0.last() == 's',
        vas is Doubles2 || vas is Doubles1 ==> vas_text(vas)->0.last() == 'd',
        vas is Quads1 ==> vas_text(vas)->0.last() == 'q',
        vas is Bytes16 ==> spells(vas_text(vas)->0.drop_last(), 16, 10, 1),
        vas is Bytes8 || vas is Halves8 ==> spells(vas_text(vas)->0.drop_last(), 8, 10, 1),
        vas is Bytes4 || vas is Halves4 || vas is Singles4 ==> spells(
            vas_text(vas)->0.drop_last(),
            4,
            10,
            1,
        ),
        vas is Halves2 || vas is Singles2 || vas is Doubles2 ==> spells(
            vas_text(vas)->0.drop_last(),
            2,
            10,
            1,
        ),
        vas is Bytes1 || vas is Halves1 || vas is Singles1 || vas is Doubles1 || vas is Quads1
            ==> spells(vas_text(vas)->0.drop_last(), 1, 10, 1),
{
    if lanes(vas) is Some {
        let (count, width) = lanes(vas)->0;
        numerals_spell_their_values(count, 10, 1);
        assert(vas_text(vas)->0.drop_last() =~= numeral(count, 10));
    }
}

/// Each kind of operand has its name, and what a script sees of its value is what the
/// decoder gives: a register's name, a number, or the parts of an address, of which those
/// without a register are missing.
pub proof fn operands_show_their_values(value: DecodedValue)
    ensures
        value_view(value) is None <==> value is Other,
        value matches DecodedValue::Register(register) ==> value_view(value)->0 == (
            "reg"@,
            OperandValueView::Register(register.name@),
        ),
        value matches DecodedValue::Immediate(number) ==> value_view(value)->0 == (
            "imm"@,
            OperandValueView::Immediate(number),
        ),
        value matches DecodedValue::CoprocessorImmediate(number) ==> value_view(value)->0 == (
            "cimm"@,
            OperandValueView::Immediate(number),
        ),
        value matches DecodedValue::Float(bits) ==> value_view(value)->0 == (
            "fp"@,
            OperandValueView::Float(bits),
        ),
        value matches DecodedValue::SystemRegisterRead(register) ==> value_view(value)->0 == (
            "reg-mrs"@,
            OperandValueView::Register(register.name@),
        ),
        value matches DecodedValue::SystemRegisterWrite(register) ==> value_view(value)->0 == (
            "reg-msr"@,
            OperandValueView::Register(register.name@),
        ),
        value matches DecodedValue::ProcessorState(number) ==> value_view(value)->0 == (
            "pstate"@,
            OperandValueView::Integer(number as i64),
        ),
        value matches DecodedValue::System(number) ==> value_view(value)->0 == (
            "sys"@,
            OperandValueView::Integer(number as i64),
        ),
        value matches DecodedValue::Prefetch(number) ==> value_view(value)->0 == (
            "prefetch"@,
            OperandValueView::Integer(number as i64),
        ),
        value matches DecodedValue::Barrier(number) ==> value_view(value)->0 == (
            "barrier"@,
            OperandValueView::Integer(number as i64),
        ),
        value matches DecodedValue::StreamingControl(number) ==> value_view(value)->0 == (
            "svcr"@,
            OperandValueView::Integer(number as i64),
        ),
        value matches DecodedValue::Memory { base, index, displacement } ==> {
            let view = value_view(value)->0;
            &&& view.0 == "mem"@
            &&& view.1 is Memory
            &&& view.1->Memory_0 is None <==> base.number == 0
            &&& base.number != 0 ==> view.1->Memory_0->0 == base.name@
            &&& view.1->Memory_1 is None <==> index.number == 0
            &&& index.number != 0 ==> view.1->Memory_1->0 == index.name@
            &&& view.1->Memory_2 == displacement
        },
        value matches DecodedValue::MatrixIndex { register, base, displacement } ==> {
            let view = value_view(value)->0;
            &&& view.0 == "sme-index"@
            &&& view.1 is Memory
            &&& view.1->Memory_0 is None <==> register.number == 0
            &&& register.number != 0 ==> view.1->Memory_0->0 == register.name@
            &&& view.1->Memory_1 is None <==> base.number == 0
            &&& base.number != 0 ==> view.1->Memory_1->0 == base.name@
            &&& view.1->Memory_2 == displacement
        },
{
}

/// An operand shows a shift, a widening, an arrangement and a lane only where it has one,
/// each with what the decoder says of it.
pub proof fn operands_show_what_they_have(operand: DecodedOperand)
    requires
        !(operand.value is Other),
    ensures
        operand_view(operand) is Some,
        ({
            let view = operand_view(operand)->0;
            &&& view.shift is None <==> operand.shifter is Other
            &&& view.shift matches Some(shift) ==> Some(shift.0) == shift_text(operand.shifter)
                && shift.1 == operand.shift_amount
            &&& view.ext is None <==> operand.extender is Other
            &&& view.ext == extender_text(operand.extender)
            &&& view.vas == vas_text(operand.arrangement)
            &&& operand.vector_index == -1 ==> view.vector_index is None
            &&& operand.vector_index != -1 ==> view.vector_index == Some(operand.vector_index)
            &&& view.access == access_text(operand.access)
        }),
{
}

/// Of a list as many values hold as its count says, if it has as many.
pub proof fn counts_cut_lists<T>(list: Seq<T>, count: u8)
    ensures
        count <= list.len() ==> held(list, count).len() == count,
        count > list.len() ==> held(list, count) == list,
        forall|i: int|
            0 <= i < held(list, count).len() ==> #[trigger] held(list, count)[i] == list[i],
{
    if count > list.len() {
        assert(held(list, count) =~= list);
    }
}

/// An instruction is shown if the decoder found one with its details and could tell which
/// registers it accesses.
pub proof fn instructions_need_their_details(decoded: Option<DecodedInstruction>)
    ensures
        instruction_problem(decoded) is None <==> decoded is Some && decoded->0.detail is Some
            && decoded->0.detail->0.access_error == 0,
{
}

} // verus!
