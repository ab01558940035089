//! The ARM64 writer and relocator operations that scripts reach through a
//! transform iterator or a standalone writer.
//!
//! A script names an operation and passes a flat row of 64-bit slots. Decoding
//! turns the row into a call with typed operands, or refuses it; the embedder
//! performs the call, and completing it turns the reply into the status and the
//! value that the script sees.

use crate::bytes::casts_keep_the_low_bits;
use crate::text::{numeral, numerals_spell_their_values, push_numeral, spells};
use vstd::prelude::*;
use vstd::string::*;

verus! {

/// Argument kind of a register in a packed argument list.
pub const ARG_KIND_REGISTER: u64 = 0;

/// Argument kind of an address in a packed argument list.
pub const ARG_KIND_ADDRESS: u64 = 1;

/// One operation of the ARM64 writer.
#[derive(Clone, Copy, Debug, PartialEq, Eq, Structural)]
pub enum WriterOp {
    Base,
    Code,
    Pc,
    Offset,
    CanBranchDirectlyBetween,
    Flush,
    Reset,
    Skip,
    Sign,
    PutLabel,
    PutCallAddressWithArguments,
    PutCallRegWithArguments,
    PutBranchAddress,
    PutBImm,
    PutBLabel,
    PutBCondLabel,
    PutBlImm,
    PutBlLabel,
    PutBrReg,
    PutBrRegNoAuth,
    PutBlrReg,
    PutBlrRegNoAuth,
    PutRet,
    PutRetReg,
    PutCbzRegImm,
    PutCbnzRegImm,
    PutCbzRegLabel,
    PutCbnzRegLabel,
    PutTbzRegImmImm,
    PutTbnzRegImmImm,
    PutTbzRegImmLabel,
    PutTbnzRegImmLabel,
    PutPushRegReg,
    PutPopRegReg,
    PutPushAllXRegisters,
    PutPopAllXRegisters,
    PutPushAllQRegisters,
    PutPopAllQRegisters,
    PutLdrRegAddress,
    PutLdrRegU32,
    PutLdrRegU64,
    PutLdrRegU32Ptr,
    PutLdrRegU64Ptr,
    PutLdrRegRef,
    PutLdrRegValue,
    PutLdrRegReg,
    PutLdrRegRegOffset,
    PutLdrRegRegOffsetMode,
    PutLdrswRegRegOffset,
    PutAdrpRegAddress,
    PutStrRegReg,
    PutStrRegRegOffset,
    PutStrRegRegOffsetMode,
    PutLdpRegRegRegOffset,
    PutStpRegRegRegOffset,
    PutMovRegReg,
    PutMovRegNzcv,
    PutMovNzcvReg,
    PutUxtwRegReg,
    PutAddRegRegImm,
    PutAddRegRegReg,
    PutSubRegRegImm,
    PutSubRegRegReg,
    PutAndRegRegImm,
    PutEorRegRegReg,
    PutUbfm,
    PutLslRegImm,
    PutLsrRegImm,
    PutTstRegImm,
    PutCmpRegReg,
    PutXpaciReg,
    PutNop,
    PutBrkImm,
    PutMrs,
    PutInstruction,
    PutBytes,
}

/// What one slot of an operation means.
#[derive(Clone, Copy, Debug, PartialEq, Eq, Structural)]
pub enum OperandKind {
    Register,
    Address,
    Label,
    Word,
    Double,
    Signed,
    Half,
    Byte,
    Condition,
    IndexMode,
    Length,
}

/// One decoded operand.
#[derive(Clone, Copy, Debug, PartialEq, Eq, Structural)]
pub enum Operand {
    Register(u32),
    Address(u64),
    Label(u64),
    Word(u32),
    Double(u64),
    Signed(i64),
    Half(u16),
    Byte(u8),
    Condition(u32),
    IndexMode(u32),
    Length(u32),
}

/// One argument of an emitted call.
#[derive(Clone, Copy, Debug, PartialEq, Eq, Structural)]
pub enum GumArgument {
    Register(i32),
    Address(u64),
}

/// What the embedder's reply to an operation stands for.
#[derive(Clone, Copy, Debug, PartialEq, Eq, Structural)]
pub enum ReplyKind {
    /// The reply is a value for the script; the status is one.
    Value,
    /// The reply is the status itself.
    Status,
    /// There is no reply; the status is one.
    Done,
}

/// A decoded operation that is ready to be performed.
#[derive(Debug)]
pub struct WriterCall {
    pub op: WriterOp,
    pub operands: Vec<Operand>,
    pub arguments: Vec<GumArgument>,
}

/// The status of an operation and the value it stores, if any.
#[derive(Clone, Copy, Debug, PartialEq, Eq, Structural)]
pub struct InvokeResult {
    pub status: i32,
    pub stored: Option<u64>,
}

/// The status of a refused operation.
pub const REFUSED: i32 = -1;

/// The meaning of each slot of an operation, in order. The packed argument list
/// of the two call operations follows these slots.
pub open spec fn operand_kinds(op: WriterOp) -> Seq<OperandKind> {
    match op {
        WriterOp::Base
        | WriterOp::Code
        | WriterOp::Pc
        | WriterOp::Offset
        | WriterOp::Flush
        | WriterOp::PutRet
        | WriterOp::PutPushAllXRegisters
        | WriterOp::PutPopAllXRegisters
        | WriterOp::PutPushAllQRegisters
        | WriterOp::PutPopAllQRegisters
        | WriterOp::PutNop => Seq::empty(),
        WriterOp::CanBranchDirectlyBetween => seq![OperandKind::Address, OperandKind::Address],
        WriterOp::Reset
        | WriterOp::Sign
        | WriterOp::PutCallAddressWithArguments
        | WriterOp::PutBranchAddress
        | WriterOp::PutBImm
        | WriterOp::PutBlImm => seq![OperandKind::Address],
        WriterOp::Skip
        | WriterOp::PutInstruction => seq![OperandKind::Word],
        WriterOp::PutLabel
        | WriterOp::PutBLabel
        | WriterOp::PutBlLabel => seq![OperandKind::Label],
        WriterOp::PutCallRegWithArguments
        | WriterOp::PutBrReg
        | WriterOp::PutBrRegNoAuth
        | WriterOp::PutBlrReg
        | WriterOp::PutBlrRegNoAuth
        | WriterOp::PutRetReg
        | WriterOp::PutLdrRegRef
        | WriterOp::PutMovRegNzcv
        | WriterOp::PutMovNzcvReg
        | WriterOp::PutXpaciReg => seq![OperandKind::Register],
        WriterOp::PutBCondLabel => seq![OperandKind::Condition, OperandKind::Label],
        WriterOp::PutCbzRegImm
        | WriterOp::PutCbnzRegImm
        | WriterOp::PutLdrRegAddress
        | WriterOp::PutLdrRegU32Ptr
        | WriterOp::PutLdrRegU64Ptr
        | WriterOp::PutAdrpRegAddress => seq![OperandKind::Register, OperandKind::Address],
        WriterOp::PutCbzRegLabel
        | WriterOp::PutCbnzRegLabel => seq![OperandKind::Register, OperandKind::Label],
        WriterOp::PutTbzRegImmImm
        | WriterOp::PutTbnzRegImmImm => seq![OperandKind::Register, OperandKind::Word, OperandKind::Address],
        WriterOp::PutTbzRegImmLabel
        | WriterOp::PutTbnzRegImmLabel => seq![OperandKind::Register, OperandKind::Word, OperandKind::Label],
        WriterOp::PutPushRegReg
        | WriterOp::PutPopRegReg
        | WriterOp::PutLdrRegReg
        | WriterOp::PutStrRegReg
        | WriterOp::PutMovRegReg
        | WriterOp::PutUxtwRegReg
        | WriterOp::PutCmpRegReg => seq![OperandKind::Register, OperandKind::Register],
        WriterOp::PutLdrRegU32 => seq![OperandKind::Register, OperandKind::Word],
        WriterOp::PutLdrRegU64
        | WriterOp::PutTstRegImm => seq![OperandKind::Register, OperandKind::Double],
        WriterOp::PutLdrRegValue => seq![OperandKind::Word, OperandKind::Address],
        WriterOp::PutLdrRegRegOffset
        | WriterOp::PutLdrswRegRegOffset
        | WriterOp::PutStrRegRegOffset
        | WriterOp::PutAddRegRegImm
        | WriterOp::PutSubRegRegImm
        | WriterOp::PutAndRegRegImm => seq![OperandKind::Register, OperandKind::Register, OperandKind::Double],
        WriterOp::PutLdrRegRegOffsetMode
        | WriterOp::PutStrRegRegOffsetMode => seq![OperandKind::Register, OperandKind::Register, OperandKind::Signed, OperandKind::IndexMode],
        WriterOp::PutLdpRegRegRegOffset
        | WriterOp::PutStpRegRegRegOffset => seq![OperandKind::Register, OperandKind::Register, OperandKind::Register, OperandKind::Signed, OperandKind::IndexMode],
        WriterOp::PutAddRegRegReg
        | WriterOp::PutSubRegRegReg
        | WriterOp::PutEorRegRegReg => seq![OperandKind::Register, OperandKind::Register, OperandKind::Register],
        WriterOp::PutUbfm => seq![OperandKind::Register, OperandKind::Register, OperandKind::Byte, OperandKind::Byte],
        WriterOp::PutLslRegImm
        | WriterOp::PutLsrRegImm => seq![OperandKind::Register, OperandKind::Register, OperandKind::Byte],
        WriterOp::PutBrkImm => seq![OperandKind::Half],
        WriterOp::PutMrs => seq![OperandKind::Register, OperandKind::Half],
        WriterOp::PutBytes => seq![OperandKind::Address, OperandKind::Length],
    }
}

/// Whether a packed argument list follows the operands.
pub open spec fn takes_arguments(op: WriterOp) -> bool {
    op == WriterOp::PutCallAddressWithArguments || op == WriterOp::PutCallRegWithArguments
}

/// What the reply to an operation stands for.
pub open spec fn reply_kind(op: WriterOp) -> ReplyKind {
    match op {
        WriterOp::Base
        | WriterOp::Code
        | WriterOp::Pc
        | WriterOp::Offset
        | WriterOp::Sign
        | WriterOp::PutLdrRegRef => ReplyKind::Value,
        WriterOp::Reset
        | WriterOp::Skip
        | WriterOp::PutCallAddressWithArguments
        | WriterOp::PutCallRegWithArguments
        | WriterOp::PutBranchAddress
        | WriterOp::PutBLabel
        | WriterOp::PutBCondLabel
        | WriterOp::PutBlLabel
        | WriterOp::PutRet
        | WriterOp::PutCbzRegLabel
        | WriterOp::PutCbnzRegLabel
        | WriterOp::PutTbzRegImmLabel
        | WriterOp::PutTbnzRegImmLabel
        | WriterOp::PutPushAllXRegisters
        | WriterOp::PutPopAllXRegisters
        | WriterOp::PutPushAllQRegisters
        | WriterOp::PutPopAllQRegisters
        | WriterOp::PutLdrRegValue
        | WriterOp::PutMovRegNzcv
        | WriterOp::PutMovNzcvReg
        | WriterOp::PutNop
        | WriterOp::PutBrkImm
        | WriterOp::PutInstruction => ReplyKind::Done,
        _ => ReplyKind::Status,
    }
}

/// A slot read as an operand of the given kind; narrower kinds keep the low bits.
pub open spec fn operand_from(kind: OperandKind, slot: u64) -> Operand {
    match kind {
        OperandKind::Register => Operand::Register(slot as u32),
        OperandKind::Address => Operand::Address(slot),
        OperandKind::Label => Operand::Label(slot),
        OperandKind::Word => Operand::Word(slot as u32),
        OperandKind::Double => Operand::Double(slot),
        OperandKind::Signed => Operand::Signed(slot as i64),
        OperandKind::Half => Operand::Half(slot as u16),
        OperandKind::Byte => Operand::Byte(slot as u8),
        OperandKind::Condition => Operand::Condition(slot as u32),
        OperandKind::IndexMode => Operand::IndexMode(slot as u32),
        OperandKind::Length => Operand::Length(slot as u32),
    }
}

/// Whether `raw` is a packed argument list: a count, then a kind and a value for
/// each argument.
pub open spec fn is_argument_list(raw: Seq<u64>) -> bool {
    &&& raw.len() >= 1
    &&& raw.len() >= 1 + 2 * raw[0]
    &&& forall|i: int|
        0 <= i < raw[0] ==> (#[trigger] raw[1 + 2 * i] == ARG_KIND_REGISTER || raw[1 + 2 * i]
            == ARG_KIND_ADDRESS)
}

/// One argument of a packed argument list.
pub open spec fn argument_at(raw: Seq<u64>, i: int) -> GumArgument {
    if raw[1 + 2 * i] == ARG_KIND_REGISTER {
        GumArgument::Register(raw[2 + 2 * i] as i32)
    } else {
        GumArgument::Address(raw[2 + 2 * i])
    }
}

/// The arguments of a packed argument list.
pub open spec fn argument_list(raw: Seq<u64>) -> Seq<GumArgument> {
    Seq::new(raw[0] as nat, |i: int| argument_at(raw, i))
}

/// Decodes a count followed by a kind and a value for each argument.
pub fn decode_gum_arguments(raw: &[u64]) -> (arguments: Option<Vec<GumArgument>>)
    ensures
        arguments is Some <==> is_argument_list(raw@),
        arguments matches Some(list) ==> list@ == argument_list(raw@),
{
    if raw.len() == 0 {
        return None;
    }
    let count: u64 = raw[0];
    let mut list: Vec<GumArgument> = Vec::new();
    let mut index: u64 = 0;
    while index < count
        invariant
            raw@.len() >= 1,
            raw@.len() <= usize::MAX,
            count == raw@[0],
            index <= count,
            raw@.len() >= 1 + 2 * index,
            forall|i: int|
                0 <= i < index ==> (#[trigger] raw@[1 + 2 * i] == ARG_KIND_REGISTER || raw@[1 + 2
                    * i] == ARG_KIND_ADDRESS),
            list@ == Seq::new(index as nat, |i: int| argument_at(raw@, i)),
        decreases count - index,
    {
        let position: usize = 1 + 2 * (index as usize);
        if raw.len() - position < 2 {
            return None;
        }
        let kind: u64 = raw[position];
        let value: u64 = raw[position + 1];
        assert(kind == raw@[1 + 2 * (index as int)]);
        if kind == ARG_KIND_REGISTER {
            list.push(GumArgument::Register(value as i32));
        } else if kind == ARG_KIND_ADDRESS {
            list.push(GumArgument::Address(value));
        } else {
            assert(!is_argument_list(raw@));
            return None;
        }
        index = index + 1;
        assert(list@ =~= Seq::new(index as nat, |i: int| argument_at(raw@, i)));
    }
    Some(list)
}

/// The meaning of each slot of an operation.
pub fn slots_of(op: WriterOp) -> (kinds: Vec<OperandKind>)
    ensures
        kinds@ == operand_kinds(op),
{
    match op {
        WriterOp::Base
        | WriterOp::Code
        | WriterOp::Pc
        | WriterOp::Offset
        | WriterOp::Flush
        | WriterOp::PutRet
        | WriterOp::PutPushAllXRegisters
        | WriterOp::PutPopAllXRegisters
        | WriterOp::PutPushAllQRegisters
        | WriterOp::PutPopAllQRegisters
        | WriterOp::PutNop => Vec::new(),
        WriterOp::CanBranchDirectlyBetween => vec![OperandKind::Address, OperandKind::Address],
        WriterOp::Reset
        | WriterOp::Sign
        | WriterOp::PutCallAddressWithArguments
        | WriterOp::PutBranchAddress
        | WriterOp::PutBImm
        | WriterOp::PutBlImm => vec![OperandKind::Address],
        WriterOp::Skip
        | WriterOp::PutInstruction => vec![OperandKind::Word],
        WriterOp::PutLabel
        | WriterOp::PutBLabel
        | WriterOp::PutBlLabel => vec![OperandKind::Label],
        WriterOp::PutCallRegWithArguments
        | WriterOp::PutBrReg
        | WriterOp::PutBrRegNoAuth
        | WriterOp::PutBlrReg
        | WriterOp::PutBlrRegNoAuth
        | WriterOp::PutRetReg
        | WriterOp::PutLdrRegRef
        | WriterOp::PutMovRegNzcv
        | WriterOp::PutMovNzcvReg
        | WriterOp::PutXpaciReg => vec![OperandKind::Register],
        WriterOp::PutBCondLabel => vec![OperandKind::Condition, OperandKind::Label],
        WriterOp::PutCbzRegImm
        | WriterOp::PutCbnzRegImm
        | WriterOp::PutLdrRegAddress
        | WriterOp::PutLdrRegU32Ptr
        | WriterOp::PutLdrRegU64Ptr
        | WriterOp::PutAdrpRegAddress => vec![OperandKind::Register, OperandKind::Address],
        WriterOp::PutCbzRegLabel
        | WriterOp::PutCbnzRegLabel => vec![OperandKind::Register, OperandKind::Label],
        WriterOp::PutTbzRegImmImm
        | WriterOp::PutTbnzRegImmImm => vec![OperandKind::Register, OperandKind::Word, OperandKind::Address],
        WriterOp::PutTbzRegImmLabel
        | WriterOp::PutTbnzRegImmLabel => vec![OperandKind::Register, OperandKind::Word, OperandKind::Label],
        WriterOp::PutPushRegReg
        | WriterOp::PutPopRegReg
        | WriterOp::PutLdrRegReg
        | WriterOp::PutStrRegReg
        | WriterOp::PutMovRegReg
        | WriterOp::PutUxtwRegReg
        | WriterOp::PutCmpRegReg => vec![OperandKind::Register, OperandKind::Register],
        WriterOp::PutLdrRegU32 => vec![OperandKind::Register, OperandKind::Word],
        WriterOp::PutLdrRegU64
        | WriterOp::PutTstRegImm => vec![OperandKind::Register, OperandKind::Double],
        WriterOp::PutLdrRegValue => vec![OperandKind::Word, OperandKind::Address],
        WriterOp::PutLdrRegRegOffset
        | WriterOp::PutLdrswRegRegOffset
        | WriterOp::PutStrRegRegOffset
        | WriterOp::PutAddRegRegImm
        | WriterOp::PutSubRegRegImm
        | WriterOp::PutAndRegRegImm => vec![OperandKind::Register, OperandKind::Register, OperandKind::Double],
        WriterOp::PutLdrRegRegOffsetMode
        | WriterOp::PutStrRegRegOffsetMode => vec![OperandKind::Register, OperandKind::Register, OperandKind::Signed, OperandKind::IndexMode],
        WriterOp::PutLdpRegRegRegOffset
        | WriterOp::PutStpRegRegRegOffset => vec![OperandKind::Register, OperandKind::Register, OperandKind::Register, OperandKind::Signed, OperandKind::IndexMode],
        WriterOp::PutAddRegRegReg
        | WriterOp::PutSubRegRegReg
        | WriterOp::PutEorRegRegReg => vec![OperandKind::Register, OperandKind::Register, OperandKind::Register],
        WriterOp::PutUbfm => vec![OperandKind::Register, OperandKind::Register, OperandKind::Byte, OperandKind::Byte],
        WriterOp::PutLslRegImm
        | WriterOp::PutLsrRegImm => vec![OperandKind::Register, OperandKind::Register, OperandKind::Byte],
        WriterOp::PutBrkImm => vec![OperandKind::Half],
        WriterOp::PutMrs => vec![OperandKind::Register, OperandKind::Half],
        WriterOp::PutBytes => vec![OperandKind::Address, OperandKind::Length],
    }
}

/// What the reply to an operation stands for.
pub fn reply_of(op: WriterOp) -> (kind: ReplyKind)
    ensures
        kind == reply_kind(op),
{
    match op {
        WriterOp::Base
        | WriterOp::Code
        | WriterOp::Pc
        | WriterOp::Offset
        | WriterOp::Sign
        | WriterOp::PutLdrRegRef => ReplyKind::Value,
        WriterOp::Reset
        | WriterOp::Skip
        | WriterOp::PutCallAddressWithArguments
        | WriterOp::PutCallRegWithArguments
        | WriterOp::PutBranchAddress
        | WriterOp::PutBLabel
        | WriterOp::PutBCondLabel
        | WriterOp::PutBlLabel
        | WriterOp::PutRet
        | WriterOp::PutCbzRegLabel
        | WriterOp::PutCbnzRegLabel
        | WriterOp::PutTbzRegImmLabel
        | WriterOp::PutTbnzRegImmLabel
        | WriterOp::PutPushAllXRegisters
        | WriterOp::PutPopAllXRegisters
        | WriterOp::PutPushAllQRegisters
        | WriterOp::PutPopAllQRegisters
        | WriterOp::PutLdrRegValue
        | WriterOp::PutMovRegNzcv
        | WriterOp::PutMovNzcvReg
        | WriterOp::PutNop
        | WriterOp::PutBrkImm
        | WriterOp::PutInstruction => ReplyKind::Done,
        _ => ReplyKind::Status,
    }
}

/// A slot read as an operand of the given kind.
pub fn decode_operand(kind: OperandKind, slot: u64) -> (operand: Operand)
    ensures
        operand == operand_from(kind, slot),
{
    match kind {
        OperandKind::Register => Operand::Register(slot as u32),
        OperandKind::Address => Operand::Address(slot),
        OperandKind::Label => Operand::Label(slot),
        OperandKind::Word => Operand::Word(slot as u32),
        OperandKind::Double => Operand::Double(slot),
        OperandKind::Signed => Operand::Signed(slot as i64),
        OperandKind::Half => Operand::Half(slot as u16),
        OperandKind::Byte => Operand::Byte(slot as u8),
        OperandKind::Condition => Operand::Condition(slot as u32),
        OperandKind::IndexMode => Operand::IndexMode(slot as u32),
        OperandKind::Length => Operand::Length(slot as u32),
    }
}

/// Whether a row of slots has the shape that an operation asks for.
pub open spec fn encodes(op: WriterOp, args: Seq<u64>) -> bool {
    let fixed = operand_kinds(op).len();
    if takes_arguments(op) {
        &&& args.len() > fixed
        &&& args.len() == fixed + 1 + 2 * args[fixed as int]
    } else {
        args.len() == fixed
    }
}

/// Whether an operation on `writer` is performed: the writer exists, the slots
/// have the operation's shape, a packed argument list is well formed, and a block
/// of bytes has an address and a length that fits in thirty-two bits.
pub open spec fn writer_accepts(writer: u64, op: WriterOp, args: Seq<u64>) -> bool {
    &&& writer != 0
    &&& encodes(op, args)
    &&& takes_arguments(op) ==> is_argument_list(args.skip(operand_kinds(op).len() as int))
    &&& op == WriterOp::PutBytes ==> args[0] != 0 && args[1] <= u32::MAX
}

/// The call that a row of slots stands for.
pub open spec fn decoded_call(op: WriterOp, args: Seq<u64>, call: WriterCall) -> bool {
    let kinds = operand_kinds(op);
    &&& call.op == op
    &&& call.operands@ == Seq::new(kinds.len(), |i: int| operand_from(kinds[i], args[i]))
    &&& call.arguments@ == if takes_arguments(op) {
        argument_list(args.skip(kinds.len() as int))
    } else {
        Seq::empty()
    }
}

/// Decodes one writer operation. `op` is `None` where the opcode names no method;
/// `writer` is zero where there is no writer. `None` means that the operation is
/// refused with the status [`REFUSED`] and nothing is emitted.
pub fn writer_invoke(writer: u64, op: Option<WriterOp>, args: &[u64]) -> (call: Option<WriterCall>)
    ensures
        call is Some <==> op is Some && writer_accepts(writer, op->0, args@),
        call matches Some(c) ==> decoded_call(op->0, args@, c),
{
    let op: WriterOp = match op {
        Some(op) => op,
        None => {
            return None;
        },
    };
    if writer == 0 {
        return None;
    }
    let kinds: Vec<OperandKind> = slots_of(op);
    let fixed: usize = kinds.len();
    let variadic: bool = matches!(
        op,
        WriterOp::PutCallAddressWithArguments | WriterOp::PutCallRegWithArguments
    );
    if args.len() < fixed {
        return None;
    }
    let rest: &[u64] = vstd::slice::slice_subrange(args, fixed, args.len());
    assert(rest@ == args@.skip(fixed as int));
    let mut arguments: Vec<GumArgument> = Vec::new();
    if variadic {
        if rest.len() == 0 {
            return None;
        }
        assert(rest@[0] == args@[fixed as int]);
        match decode_gum_arguments(rest) {
            None => {
                return None;
            },
            Some(list) => {
                if rest.len() != 1 + 2 * list.len() {
                    return None;
                }
                arguments = list;
            },
        }
    } else if rest.len() != 0 {
        return None;
    }
    if matches!(op, WriterOp::PutBytes) {
        if args[0] == 0 || args[1] > u32::MAX as u64 {
            return None;
        }
    }
    let mut operands: Vec<Operand> = Vec::new();
    let mut i: usize = 0;
    while i < fixed
        invariant
            i <= fixed,
            fixed == kinds@.len(),
            fixed <= args@.len(),
            operands@ == Seq::new(i as nat, |k: int| operand_from(kinds@[k], args@[k])),
        decreases fixed - i,
    {
        operands.push(decode_operand(kinds[i], args[i]));
        i = i + 1;
        assert(operands@ =~= Seq::new(i as nat, |k: int| operand_from(kinds@[k], args@[k])));
    }
    Some(WriterCall { op, operands, arguments })
}

/// The result of a performed operation: `value` is the reply where the operation
/// yields a value, `status` the reply where it yields a status.
pub fn writer_finish(op: WriterOp, status: i32, value: u64) -> (result: InvokeResult)
    ensures
        reply_kind(op) == ReplyKind::Value ==> result.status == 1 && result.stored == Some(value),
        reply_kind(op) == ReplyKind::Done ==> result.status == 1 && result.stored is None,
        reply_kind(op) == ReplyKind::Status ==> result.status == status && result.stored is None,
{
    match reply_of(op) {
        ReplyKind::Value => InvokeResult { status: 1, stored: Some(value) },
        ReplyKind::Done => InvokeResult { status: 1, stored: None },
        ReplyKind::Status => InvokeResult { status, stored: None },
    }
}

/// The numbers by which the code generator knows the registers, conditions and
/// index modes that scripts name.
#[derive(Clone, Copy, Debug)]
pub struct Arm64Codes {
    pub x: [u32; 31],
    pub w: [u32; 31],
    /// `sp`, `lr`, `fp`, `wsp`, `wzr`, `xzr`, `nzcv`, `ip0`, `ip1`.
    pub special: [u32; 9],
    /// First register of each contiguously numbered vector bank.
    pub s0: u32,
    pub d0: u32,
    pub q0: u32,
    pub conditions: [u32; 16],
    /// Post-adjust, signed-offset, pre-adjust.
    pub index_modes: [u32; 3],
}

/// The names that scripts may use for registers, conditions and index modes.
#[derive(Debug)]
pub struct StalkerWriterEnums {
    pub registers: Vec<(String, u32)>,
    pub conditions: Vec<(String, u32)>,
    pub index_modes: Vec<(String, u32)>,
}

/// A list of named numbers, with the names as characters.
pub open spec fn named(entries: Seq<(String, u32)>) -> Seq<(Seq<char>, u32)> {
    Seq::new(entries.len(), |i: int| (entries[i].0@, entries[i].1))
}

/// The registers with names of their own.
pub open spec fn special_register_name(index: int) -> Seq<char> {
    if index == 0 {
        "sp"@
    } else if index == 1 {
        "lr"@
    } else if index == 2 {
        "fp"@
    } else if index == 3 {
        "wsp"@
    } else if index == 4 {
        "wzr"@
    } else if index == 5 {
        "xzr"@
    } else if index == 6 {
        "nzcv"@
    } else if index == 7 {
        "ip0"@
    } else {
        "ip1"@
    }
}

fn special_register_text(index: usize) -> (name: String)
    requires
        index < 9,
    ensures
        name@ == special_register_name(index as int),
{
    match index {
        0 => String::from_str("sp"),
        1 => String::from_str("lr"),
        2 => String::from_str("fp"),
        3 => String::from_str("wsp"),
        4 => String::from_str("wzr"),
        5 => String::from_str("xzr"),
        6 => String::from_str("nzcv"),
        7 => String::from_str("ip0"),
        _ => String::from_str("ip1"),
    }
}

/// The condition codes, in the order of their encoding.
pub open spec fn condition_name(index: int) -> Seq<char> {
    if index == 0 {
        "eq"@
    } else if index == 1 {
        "ne"@
    } else if index == 2 {
        "hs"@
    } else if index == 3 {
        "lo"@
    } else if index == 4 {
        "mi"@
    } else if index == 5 {
        "pl"@
    } else if index == 6 {
        "vs"@
    } else if index == 7 {
        "vc"@
    } else if index == 8 {
        "hi"@
    } else if index == 9 {
        "ls"@
    } else if index == 10 {
        "ge"@
    } else if index == 11 {
        "lt"@
    } else if index == 12 {
        "gt"@
    } else if index == 13 {
        "le"@
    } else if index == 14 {
        "al"@
    } else {
        "nv"@
    }
}

fn condition_text(index: usize) -> (name: String)
    requires
        index < 16,
    ensures
        name@ == condition_name(index as int),
{
    match index {
        0 => String::from_str("eq"),
        1 => String::from_str("ne"),
        2 => String::from_str("hs"),
        3 => String::from_str("lo"),
        4 => String::from_str("mi"),
        5 => String::from_str("pl"),
        6 => String::from_str("vs"),
        7 => String::from_str("vc"),
        8 => String::from_str("hi"),
        9 => String::from_str("ls"),
        10 => String::from_str("ge"),
        11 => String::from_str("lt"),
        12 => String::from_str("gt"),
        13 => String::from_str("le"),
        14 => String::from_str("al"),
        _ => String::from_str("nv"),
    }
}

/// The index modes.
pub open spec fn index_mode_name(index: int) -> Seq<char> {
    if index == 0 {
        "post-adjust"@
    } else if index == 1 {
        "signed-offset"@
    } else {
        "pre-adjust"@
    }
}

fn index_mode_text(index: usize) -> (name: String)
    requires
        index < 3,
    ensures
        name@ == index_mode_name(index as int),
{
    match index {
        0 => String::from_str("post-adjust"),
        1 => String::from_str("signed-offset"),
        _ => String::from_str("pre-adjust"),
    }
}

/// The register with the given position in the list: the general registers by
/// width, the special ones, then the vector banks side by side.
pub open spec fn register_entry(codes: Arm64Codes, i: int) -> (Seq<char>, u32) {
    if i < 31 {
        (seq!['x'] + numeral(i as nat, 10), codes.x@[i])
    } else if i < 62 {
        (seq!['w'] + numeral((i - 31) as nat, 10), codes.w@[i - 31])
    } else if i < 71 {
        (special_register_name(i - 62), codes.special@[i - 62])
    } else {
        let index = ((i - 71) / 3) as nat;
        let bank = (i - 71) % 3;
        if bank == 0 {
            (seq!['s'] + numeral(index, 10), (codes.s0 + index) as u32)
        } else if bank == 1 {
            (seq!['d'] + numeral(index, 10), (codes.d0 + index) as u32)
        } else {
            (seq!['q'] + numeral(index, 10), (codes.q0 + index) as u32)
        }
    }
}

/// The number of registers that have a name.
pub open spec fn register_count() -> nat {
    167
}

fn numbered_name(prefix: char, index: u64) -> (name: String)
    ensures
        name@ == seq![prefix] + numeral(index as nat, 10),
{
    let mut name: String = String::new();
    name.push(prefix);
    push_numeral(&mut name, index, 10);
    name
}

proof fn lemma_named_push(entries: Seq<(String, u32)>, entry: (String, u32))
    ensures
        named(entries.push(entry)) == named(entries).push((entry.0@, entry.1)),
{
    assert(named(entries.push(entry)) =~= named(entries).push((entry.0@, entry.1)));
}

fn push_entry(entries: &mut Vec<(String, u32)>, name: String, value: u32)
    ensures
        named(final(entries)@) == named(old(entries)@).push((name@, value)),
{
    proof {
        lemma_named_push(entries@, (name, value));
    }
    entries.push((name, value));
}

fn writer_registers(codes: &Arm64Codes) -> (registers: Vec<(String, u32)>)
    requires
        codes.s0 <= u32::MAX - 31,
        codes.d0 <= u32::MAX - 31,
        codes.q0 <= u32::MAX - 31,
    ensures
        named(registers@) == Seq::new(register_count(), |i: int| register_entry(*codes, i)),
{
    let mut registers: Vec<(String, u32)> = Vec::new();
    assert(named(registers@) =~= Seq::new(0, |i: int| register_entry(*codes, i)));
    let mut index: usize = 0;
    while index < 71
        invariant
            index <= 71,
            named(registers@) == Seq::new(index as nat, |i: int| register_entry(*codes, i)),
        decreases 71 - index,
    {
        if index < 31 {
            push_entry(&mut registers, numbered_name('x', index as u64), codes.x[index]);
        } else if index < 62 {
            push_entry(
                &mut registers,
                numbered_name('w', (index - 31) as u64),
                codes.w[index - 31],
            );
        } else {
            push_entry(
                &mut registers,
                special_register_text(index - 62),
                codes.special[index - 62],
            );
        }
        index = index + 1;
        assert(named(registers@) =~= Seq::new(index as nat, |i: int| register_entry(*codes, i)));
    }
    let mut bank: u32 = 0;
    while bank < 32
        invariant
            bank <= 32,
            codes.s0 <= u32::MAX - 31,
            codes.d0 <= u32::MAX - 31,
            codes.q0 <= u32::MAX - 31,
            named(registers@) == Seq::new(
                (71 + 3 * bank) as nat,
                |i: int| register_entry(*codes, i),
            ),
        decreases 32 - bank,
    {
        push_entry(&mut registers, numbered_name('s', bank as u64), codes.s0 + bank);
        push_entry(&mut registers, numbered_name('d', bank as u64), codes.d0 + bank);
        push_entry(&mut registers, numbered_name('q', bank as u64), codes.q0 + bank);
        assert(((71 + 3 * bank) - 71) / 3 == bank && ((71 + 3 * bank) - 71) % 3 == 0);
        assert(((71 + 3 * bank + 1) - 71) / 3 == bank && ((71 + 3 * bank + 1) - 71) % 3 == 1);
        assert(((71 + 3 * bank + 2) - 71) / 3 == bank && ((71 + 3 * bank + 2) - 71) % 3 == 2);
        bank = bank + 1;
        assert(named(registers@) =~= Seq::new(
            (71 + 3 * bank) as nat,
            |i: int| register_entry(*codes, i),
        ));
    }
    registers
}

/// Register, condition and index-mode names accepted by scripts, with the numbers
/// that they stand for. The last register of each vector bank has a number that
/// fits in thirty-two bits.
pub fn writer_enums(codes: &Arm64Codes) -> (enums: StalkerWriterEnums)
    requires
        codes.s0 <= u32::MAX - 31,
        codes.d0 <= u32::MAX - 31,
        codes.q0 <= u32::MAX - 31,
    ensures
        named(enums.registers@) == Seq::new(
            register_count(),
            |i: int| register_entry(*codes, i),
        ),
        named(enums.conditions@) == Seq::new(
            16,
            |i: int| (condition_name(i), codes.conditions@[i]),
        ),
        named(enums.index_modes@) == Seq::new(
            3,
            |i: int| (index_mode_name(i), codes.index_modes@[i]),
        ),
{
    let registers: Vec<(String, u32)> = writer_registers(codes);
    let mut conditions: Vec<(String, u32)> = Vec::new();
    let mut index: usize = 0;
    assert(named(conditions@) =~= Seq::new(0, |i: int| (condition_name(i), codes.conditions@[i])));
    while index < 16
        invariant
            index <= 16,
            named(conditions@) == Seq::new(
                index as nat,
                |i: int| (condition_name(i), codes.conditions@[i]),
            ),
        decreases 16 - index,
    {
        push_entry(&mut conditions, condition_text(index), codes.conditions[index]);
        index = index + 1;
        assert(named(conditions@) =~= Seq::new(
            index as nat,
            |i: int| (condition_name(i), codes.conditions@[i]),
        ));
    }
    let mut index_modes: Vec<(String, u32)> = Vec::new();
    let mut mode: usize = 0;
    assert(named(index_modes@) =~= Seq::new(
        0,
        |i: int| (index_mode_name(i), codes.index_modes@[i]),
    ));
    while mode < 3
        invariant
            mode <= 3,
            named(index_modes@) == Seq::new(
                mode as nat,
                |i: int| (index_mode_name(i), codes.index_modes@[i]),
            ),
        decreases 3 - mode,
    {
        push_entry(&mut index_modes, index_mode_text(mode), codes.index_modes[mode]);
        mode = mode + 1;
        assert(named(index_modes@) =~= Seq::new(
            mode as nat,
            |i: int| (index_mode_name(i), codes.index_modes@[i]),
        ));
    }
    StalkerWriterEnums { registers, conditions, index_modes }
}

/// A code writer owned by a script object. Labels that are still unresolved when
/// it is released are never flushed on its behalf.
#[derive(Clone, Copy, Debug, PartialEq, Eq, Structural)]
pub struct StandaloneWriter {
    pub handle: u64,
    pub flush_on_destroy: bool,
    /// The program counter to set in place of the writer's own.
    pub pc: Option<u64>,
}

/// Takes over a new writer for the code at `code_address`; `handle` is zero where
/// none could be made. The embedder makes no writer for a null address.
pub fn standalone_writer_create(code_address: u64, handle: u64, pc: Option<u64>) -> (writer: Option<
    StandaloneWriter,
>)
    ensures
        writer == if code_address == 0 || handle == 0 {
            None
        } else {
            Some(StandaloneWriter { handle, flush_on_destroy: false, pc })
        },
{
    if code_address == 0 || handle == 0 {
        return None;
    }
    Some(StandaloneWriter { handle, flush_on_destroy: false, pc })
}

/// One step of pointing a standalone writer at a new output buffer.
#[derive(Clone, Copy, Debug, PartialEq, Eq, Structural)]
pub enum WriterResetStep {
    /// Flush the pending labels and report whether that worked.
    Flush,
    /// Replace the output buffer, then set the program counter if one is given.
    Replace { code_address: u64, pc: Option<u64> },
    /// Give up with the status [`REFUSED`].
    Refuse,
}

/// What to do next when a standalone writer is reset: `flushed` is `None` until the
/// pending labels have been flushed. The old buffer is always flushed first.
pub fn standalone_writer_reset(
    writer: u64,
    code_address: u64,
    pc: Option<u64>,
    flushed: Option<bool>,
) -> (step: WriterResetStep)
    ensures
        step == if writer == 0 || code_address == 0 || flushed == Some(false) {
            WriterResetStep::Refuse
        } else if flushed is None {
            WriterResetStep::Flush
        } else {
            WriterResetStep::Replace { code_address, pc }
        },
{
    if writer == 0 || code_address == 0 {
        return WriterResetStep::Refuse;
    }
    match flushed {
        None => WriterResetStep::Flush,
        Some(done) => if done {
            WriterResetStep::Replace { code_address, pc }
        } else {
            WriterResetStep::Refuse
        },
    }
}

/// One operation of the relocator.
#[derive(Clone, Copy, Debug, PartialEq, Eq, Structural)]
pub enum RelocatorOp {
    Eob,
    Eoi,
    Input,
    PeekNextWriteInsn,
    PeekNextWriteSource,
    ReadOne,
    Reset,
    SkipOne,
    WriteAll,
    WriteOne,
}

/// A relocator and how far it has read.
#[derive(Clone, Copy, Debug, PartialEq, Eq, Structural)]
pub struct RelocatorHandle {
    pub relocator: u64,
    pub input_start: u64,
    pub input_cursor: u64,
}

/// A relocator operation that is ready to be performed.
#[derive(Clone, Copy, Debug, PartialEq, Eq, Structural)]
pub enum RelocatorCall {
    Eob,
    Eoi,
    /// Answered from the handle, without a call.
    Input,
    PeekNextWriteInsn,
    PeekNextWriteSource,
    ReadOne,
    Reset { input_code: u64, output: u64 },
    SkipOne,
    WriteAll,
    WriteOne,
}

/// The call for an operation, or `None` where its slots do not fit: `Reset` takes
/// the new input and output addresses, neither of them null, and the others take
/// nothing.
pub open spec fn relocator_call(op: RelocatorOp, args: Seq<u64>) -> Option<RelocatorCall> {
    if op == RelocatorOp::Reset {
        if args.len() == 2 && args[0] != 0 && args[1] != 0 {
            Some(RelocatorCall::Reset { input_code: args[0], output: args[1] })
        } else {
            None
        }
    } else if args.len() != 0 {
        None
    } else {
        Some(
            match op {
                RelocatorOp::Eob => RelocatorCall::Eob,
                RelocatorOp::Eoi => RelocatorCall::Eoi,
                RelocatorOp::Input => RelocatorCall::Input,
                RelocatorOp::PeekNextWriteInsn => RelocatorCall::PeekNextWriteInsn,
                RelocatorOp::PeekNextWriteSource => RelocatorCall::PeekNextWriteSource,
                RelocatorOp::ReadOne => RelocatorCall::ReadOne,
                RelocatorOp::SkipOne => RelocatorCall::SkipOne,
                RelocatorOp::WriteAll => RelocatorCall::WriteAll,
                _ => RelocatorCall::WriteOne,
            },
        )
    }
}

impl RelocatorHandle {
    /// The cursor is never in front of the input.
    pub open spec fn wf(&self) -> bool {
        &&& self.relocator != 0
        &&& self.input_start != 0
        &&& self.input_cursor >= self.input_start
    }

    /// Takes over a new relocator from `input_code` to `writer`; `relocator` is zero
    /// where none could be made.
    pub fn create(writer: u64, input_code: u64, relocator: u64) -> (handle: Option<RelocatorHandle>)
        ensures
            handle == if writer == 0 || input_code == 0 || relocator == 0 {
                None
            } else {
                Some(
                    RelocatorHandle {
                        relocator,
                        input_start: input_code,
                        input_cursor: input_code,
                    },
                )
            },
            handle matches Some(h) ==> h.wf(),
    {
        if writer == 0 || input_code == 0 || relocator == 0 {
            return None;
        }
        Some(RelocatorHandle { relocator, input_start: input_code, input_cursor: input_code })
    }

    /// Takes in the reply to a performed operation. Reading moves the cursor to the
    /// given number of bytes behind the start of the input; a reset moves both.
    pub fn finish(&mut self, call: RelocatorCall, status: i32, value: u64) -> (result: InvokeResult)
        requires
            old(self).wf(),
            call matches RelocatorCall::Reset { input_code, .. } ==> input_code != 0,
        ensures
            final(self).wf(),
            final(self).relocator == old(self).relocator,
            match call {
                RelocatorCall::Reset { input_code, .. } => {
                    &&& final(self).input_start == input_code
                    &&& final(self).input_cursor == input_code
                    &&& result == (InvokeResult { status: 1, stored: None })
                },
                RelocatorCall::ReadOne => {
                    &&& final(self).input_start == old(self).input_start
                    &&& final(self).input_cursor == if old(self).input_start + value > u64::MAX {
                        u64::MAX as int
                    } else {
                        old(self).input_start + value
                    }
                    &&& result == (InvokeResult { status: 1, stored: Some(value) })
                },
                RelocatorCall::Input => {
                    &&& *final(self) == *old(self)
                    &&& result == (InvokeResult { status: 1, stored: Some(old(self).input_cursor) })
                },
                RelocatorCall::PeekNextWriteInsn | RelocatorCall::PeekNextWriteSource => {
                    &&& *final(self) == *old(self)
                    &&& result == (InvokeResult { status: 1, stored: Some(value) })
                },
                RelocatorCall::WriteAll => {
                    &&& *final(self) == *old(self)
                    &&& result == (InvokeResult { status: 1, stored: None })
                },
                _ => {
                    &&& *final(self) == *old(self)
                    &&& result == (InvokeResult { status, stored: None })
                },
            },
    {
        match call {
            RelocatorCall::Eob
            | RelocatorCall::Eoi
            | RelocatorCall::SkipOne
            | RelocatorCall::WriteOne => InvokeResult { status, stored: None },
            RelocatorCall::Input => InvokeResult { status: 1, stored: Some(self.input_cursor) },
            RelocatorCall::PeekNextWriteInsn | RelocatorCall::PeekNextWriteSource => InvokeResult {
                status: 1,
                stored: Some(value),
            },
            RelocatorCall::ReadOne => {
                self.input_cursor = self.input_start.saturating_add(value);
                InvokeResult { status: 1, stored: Some(value) }
            },
            RelocatorCall::Reset { input_code, output } => {
                self.input_start = input_code;
                self.input_cursor = input_code;
                InvokeResult { status: 1, stored: None }
            },
            RelocatorCall::WriteAll => InvokeResult { status: 1, stored: None },
        }
    }
}

/// Decodes one relocator operation. `op` is `None` where the opcode names no
/// method; `handle` is zero where there is no relocator. `None` means that the
/// operation is refused with the status [`REFUSED`].
pub fn relocator_invoke(handle: u64, op: Option<RelocatorOp>, args: &[u64]) -> (call: Option<
    RelocatorCall,
>)
    ensures
        call == if op is Some && handle != 0 {
            relocator_call(op->0, args@)
        } else {
            None
        },
{
    let op: RelocatorOp = match op {
        Some(op) => op,
        None => {
            return None;
        },
    };
    if handle == 0 {
        return None;
    }
    if matches!(op, RelocatorOp::Reset) {
        if args.len() != 2 || args[0] == 0 || args[1] == 0 {
            return None;
        }
        return Some(RelocatorCall::Reset { input_code: args[0], output: args[1] });
    }
    if args.len() != 0 {
        return None;
    }
    Some(
        match op {
            RelocatorOp::Eob => RelocatorCall::Eob,
            RelocatorOp::Eoi => RelocatorCall::Eoi,
            RelocatorOp::Input => RelocatorCall::Input,
            RelocatorOp::PeekNextWriteInsn => RelocatorCall::PeekNextWriteInsn,
            RelocatorOp::PeekNextWriteSource => RelocatorCall::PeekNextWriteSource,
            RelocatorOp::ReadOne => RelocatorCall::ReadOne,
            RelocatorOp::SkipOne => RelocatorCall::SkipOne,
            RelocatorOp::WriteAll => RelocatorCall::WriteAll,
            _ => RelocatorCall::WriteOne,
        },
    )
}

/// How many slots each operation takes and what stands in them: a destination comes first,
/// sources follow, and numbers, labels and modes come last.
pub proof fn operations_take_their_operands(op: WriterOp)
    ensures
        op is Base || op is Code || op is Pc || op is Offset || op is Flush || op is PutRet
            || op is PutPushAllXRegisters || op is PutPopAllXRegisters
            || op is PutPushAllQRegisters || op is PutPopAllQRegisters || op is PutNop
            ==> operand_kinds(op).len() == 0,
        op is CanBranchDirectlyBetween
            ==> operand_kinds(op).len() == 2 && operand_kinds(op)[0] is Address
            && operand_kinds(op)[1] is Address,
        op is Reset || op is Sign || op is PutCallAddressWithArguments || op is PutBranchAddress
            || op is PutBImm || op is PutBlImm
            ==> operand_kinds(op).len() == 1 && operand_kinds(op)[0] is Address,
        op is Skip || op is PutInstruction
            ==> operand_kinds(op).len() == 1 && operand_kinds(op)[0] is Word,
        op is PutLabel || op is PutBLabel || op is PutBlLabel
            ==> operand_kinds(op).len() == 1 && operand_kinds(op)[0] is Label,
        op is PutCallRegWithArguments || op is PutBrReg || op is PutBrRegNoAuth || op is PutBlrReg
            || op is PutBlrRegNoAuth || op is PutRetReg || op is PutLdrRegRef
            || op is PutMovRegNzcv || op is PutMovNzcvReg || op is PutXpaciReg
            ==> operand_kinds(op).len() == 1 && operand_kinds(op)[0] is Register,
        op is PutBCondLabel
            ==> operand_kinds(op).len() == 2 && operand_kinds(op)[0] is Condition
            && operand_kinds(op)[1] is Label,
        op is PutCbzRegImm || op is PutCbnzRegImm || op is PutLdrRegAddress
            || op is PutLdrRegU32Ptr || op is PutLdrRegU64Ptr || op is PutAdrpRegAddress
            ==> operand_kinds(op).len() == 2 && operand_kinds(op)[0] is Register
            && operand_kinds(op)[1] is Address,
        op is PutCbzRegLabel || op is PutCbnzRegLabel
            ==> operand_kinds(op).len() == 2 && operand_kinds(op)[0] is Register
            && operand_kinds(op)[1] is Label,
        op is PutTbzRegImmImm || op is PutTbnzRegImmImm
            ==> operand_kinds(op).len() == 3 && operand_kinds(op)[0] is Register
            && operand_kinds(op)[1] is Word && operand_kinds(op)[2] is Address,
        op is PutTbzRegImmLabel || op is PutTbnzRegImmLabel
            ==> operand_kinds(op).len() == 3 && operand_kinds(op)[0] is Register
            && operand_kinds(op)[1] is Word && operand_kinds(op)[2] is Label,
        op is PutPushRegReg || op is PutPopRegReg || op is PutLdrRegReg || op is PutStrRegReg
            || op is PutMovRegReg || op is PutUxtwRegReg || op is PutCmpRegReg
            ==> operand_kinds(op).len() == 2 && operand_kinds(op)[0] is Register
            && operand_kinds(op)[1] is Register,
        op is PutLdrRegU32
            ==> operand_kinds(op).len() == 2 && operand_kinds(op)[0] is Register
            && operand_kinds(op)[1] is Word,
        op is PutLdrRegU64 || op is PutTstRegImm
            ==> operand_kinds(op).len() == 2 && operand_kinds(op)[0] is Register
            && operand_kinds(op)[1] is Double,
        op is PutLdrRegValue
            ==> operand_kinds(op).len() == 2 && operand_kinds(op)[0] is Word
            && operand_kinds(op)[1] is Address,
        op is PutLdrRegRegOffset || op is PutLdrswRegRegOffset || op is PutStrRegRegOffset
            || op is PutAddRegRegImm || op is PutSubRegRegImm || op is PutAndRegRegImm
            ==> operand_kinds(op).len() == 3 && operand_kinds(op)[0] is Register
            && operand_kinds(op)[1] is Register && operand_kinds(op)[2] is Double,
        op is PutLdrRegRegOffsetMode || op is PutStrRegRegOffsetMode
            ==> operand_kinds(op).len() == 4 && operand_kinds(op)[0] is Register
            && operand_kinds(op)[1] is Register && operand_kinds(op)[2] is Signed
            && operand_kinds(op)[3] is IndexMode,
        op is PutLdpRegRegRegOffset || op is PutStpRegRegRegOffset
            ==> operand_kinds(op).len() == 5 && operand_kinds(op)[0] is Register
            && operand_kinds(op)[1] is Register && operand_kinds(op)[2] is Register
            && operand_kinds(op)[3] is Signed && operand_kinds(op)[4] is IndexMode,
        op is PutAddRegRegReg || op is PutSubRegRegReg || op is PutEorRegRegReg
            ==> operand_kinds(op).len() == 3 && operand_kinds(op)[0] is Register
            && operand_kinds(op)[1] is Register && operand_kinds(op)[2] is Register,
        op is PutUbfm
            ==> operand_kinds(op).len() == 4 && operand_kinds(op)[0] is Register
            && operand_kinds(op)[1] is Register && operand_kinds(op)[2] is Byte
            && operand_kinds(op)[3] is Byte,
        op is PutLslRegImm || op is PutLsrRegImm
            ==> operand_kinds(op).len() == 3 && operand_kinds(op)[0] is Register
            && operand_kinds(op)[1] is Register && operand_kinds(op)[2] is Byte,
        op is PutBrkImm ==> operand_kinds(op).len() == 1 && operand_kinds(op)[0] is Half,
        op is PutMrs
            ==> operand_kinds(op).len() == 2 && operand_kinds(op)[0] is Register
            && operand_kinds(op)[1] is Half,
        op is PutBytes
            ==> operand_kinds(op).len() == 2 && operand_kinds(op)[0] is Address
            && operand_kinds(op)[1] is Length,
{
}

/// A slot keeps its low bits: registers, words, conditions, modes and lengths thirty-two,
/// halves sixteen and bytes eight; addresses, labels and doubles are kept whole, and signed
/// numbers are those that differ by a multiple of two to the sixty-fourth.
pub proof fn slots_keep_their_low_bits(slot: u64)
    ensures
        operand_from(OperandKind::Register, slot) matches Operand::Register(value) && value == slot
            % 0x1_0000_0000,
        operand_from(OperandKind::Word, slot) matches Operand::Word(value) && value == slot
            % 0x1_0000_0000,
        operand_from(OperandKind::Condition, slot) matches Operand::Condition(value) && value
            == slot % 0x1_0000_0000,
        operand_from(OperandKind::IndexMode, slot) matches Operand::IndexMode(value) && value
            == slot % 0x1_0000_0000,
        operand_from(OperandKind::Length, slot) matches Operand::Length(value) && value == slot
            % 0x1_0000_0000,
        operand_from(OperandKind::Half, slot) matches Operand::Half(value) && value == slot
            % 0x1_0000,
        operand_from(OperandKind::Byte, slot) matches Operand::Byte(value) && value == slot % 0x100,
        operand_from(OperandKind::Address, slot) == Operand::Address(slot),
        operand_from(OperandKind::Label, slot) == Operand::Label(slot),
        operand_from(OperandKind::Double, slot) == Operand::Double(slot),
        operand_from(OperandKind::Signed, slot) matches Operand::Signed(value) && (value == slot
            || value == slot - 0x1_0000_0000_0000_0000),
{
    casts_keep_the_low_bits(slot, 0);
}

/// An argument list gives a count, and then for each argument whether it is a register or
/// an address, and its value.
pub proof fn arguments_are_pairs(raw: Seq<u64>, at: int)
    requires
        is_argument_list(raw),
        0 <= at < raw[0],
    ensures
        argument_list(raw).len() == raw[0],
        raw.len() >= 2 * raw[0] + 1,
        raw[2 * at + 1] == 0 || raw[2 * at + 1] == 1,
        raw[2 * at + 1] == 0 ==> argument_list(raw)[at] is Register,
        raw[2 * at + 1] == 1 ==> argument_list(raw)[at] == GumArgument::Address(raw[2 * at + 2]),
        raw[2 * at + 1] == 0 && raw[2 * at + 2] <= 0x7fff_ffff ==> argument_list(raw)[at]
            == GumArgument::Register(raw[2 * at + 2] as i32),
{
    assert(raw[1 + 2 * at] == ARG_KIND_REGISTER || raw[1 + 2 * at] == ARG_KIND_ADDRESS);
}

/// The names of registers: `x0` to `x30`, `w0` to `w30`, the special ones, and then `s`, `d`
/// and `q` of each number up to 31.
pub proof fn registers_are_named_by_bank(codes: Arm64Codes, number: int)
    ensures
        0 <= number < 31 ==> {
            let (name, code) = register_entry(codes, number);
            name[0] == 'x' && spells(name.skip(1), number as nat, 10, 1) && code == codes.x@[number]
        },
        0 <= number < 31 ==> {
            let (name, code) = register_entry(codes, 31 + number);
            name[0] == 'w' && spells(name.skip(1), number as nat, 10, 1) && code == codes.w@[number]
        },
        0 <= number < 9 ==> register_entry(codes, 62 + number).1 == codes.special@[number],
        register_entry(codes, 62).0 == "sp"@,
        register_entry(codes, 63).0 == "lr"@,
        register_entry(codes, 64).0 == "fp"@,
        register_entry(codes, 65).0 == "wsp"@,
        register_entry(codes, 66).0 == "wzr"@,
        register_entry(codes, 67).0 == "xzr"@,
        register_entry(codes, 68).0 == "nzcv"@,
        register_entry(codes, 69).0 == "ip0"@,
        register_entry(codes, 70).0 == "ip1"@,
        0 <= number < 32 && codes.s0 + 31 <= u32::MAX ==> {
            let (name, code) = register_entry(codes, 71 + 3 * number);
            name[0] == 's' && spells(name.skip(1), number as nat, 10, 1) && code == codes.s0
                + number
        },
        0 <= number < 32 && codes.d0 + 31 <= u32::MAX ==> {
            let (name, code) = register_entry(codes, 72 + 3 * number);
            name[0] == 'd' && spells(name.skip(1), number as nat, 10, 1) && code == codes.d0
                + number
        },
        0 <= number < 32 && codes.q0 + 31 <= u32::MAX ==> {
            let (name, code) = register_entry(codes, 73 + 3 * number);
            name[0] == 'q' && spells(name.skip(1), number as nat, 10, 1) && code == codes.q0
                + number
        },
        register_count() == 31 + 31 + 9 + 3 * 32,
{
    if 0 <= number < 32 {
        let digits = numeral(number as nat, 10);
        numerals_spell_their_values(number as nat, 10, 1);
        assert((seq!['x'] + digits).skip(1) =~= digits);
        assert((seq!['w'] + digits).skip(1) =~= digits);
        assert((seq!['s'] + digits).skip(1) =~= digits);
        assert((seq!['d'] + digits).skip(1) =~= digits);
        assert((seq!['q'] + digits).skip(1) =~= digits);
    }
}

/// Conditions go by their usual names in the order of their encoding, in which a condition
/// and its opposite are neighbours; index modes follow the order of theirs.
pub proof fn conditions_come_in_pairs()
    ensures
        condition_name(0) == "eq"@ && condition_name(1) == "ne"@,
        condition_name(2) == "hs"@ && condition_name(3) == "lo"@,
        condition_name(4) == "mi"@ && condition_name(5) == "pl"@,
        condition_name(6) == "vs"@ && condition_name(7) == "vc"@,
        condition_name(8) == "hi"@ && condition_name(9) == "ls"@,
        condition_name(10) == "ge"@ && condition_name(11) == "lt"@,
        condition_name(12) == "gt"@ && condition_name(13) == "le"@,
        condition_name(14) == "al"@ && condition_name(15) == "nv"@,
        index_mode_name(0) == "post-adjust"@,
        index_mode_name(1) == "signed-offset"@,
        index_mode_name(2) == "pre-adjust"@,
{
}

/// Only a reset of the relocator takes addresses, the input and then the output, neither of
/// them null; every other operation takes nothing and is the call of its name.
pub proof fn relocators_take_addresses_to_reset(op: RelocatorOp, args: Seq<u64>)
    ensures
        op is Reset ==> (relocator_call(op, args) is Some <==> args.len() == 2 && args[0] != 0
            && args[1] != 0),
        op is Reset && relocator_call(op, args) is Some ==> relocator_call(op, args)->0 == (
        RelocatorCall::Reset { input_code: args[0], output: args[1] }),
        !(op is Reset) ==> (relocator_call(op, args) is Some <==> args.len() == 0),
        args.len() == 0 ==> {
            let call = relocator_call(op, args);
            &&& op is Eob ==> call->0 is Eob
            &&& op is Eoi ==> call->0 is Eoi
            &&& op is Input ==> call->0 is Input
            &&& op is PeekNextWriteInsn ==> call->0 is PeekNextWriteInsn
            &&& op is PeekNextWriteSource ==> call->0 is PeekNextWriteSource
            &&& op is ReadOne ==> call->0 is ReadOne
            &&& op is SkipOne ==> call->0 is SkipOne
            &&& op is WriteAll ==> call->0 is WriteAll
            &&& op is WriteOne ==> call->0 is WriteOne
        },
{
}

/// What the replies stand for: a value where something is asked of the writer, nothing where
/// an operation always succeeds, and else whether it succeeded.
pub proof fn replies_follow_their_operation(op: WriterOp)
    ensures
        op is Base || op is Code || op is Pc || op is Offset || op is Sign || op is PutLdrRegRef
            <==> reply_kind(op) is Value,
        op is Reset || op is Skip || op is PutCallAddressWithArguments || op
            is PutCallRegWithArguments || op is PutBranchAddress || op is PutBLabel || op
            is PutBCondLabel || op is PutBlLabel || op is PutRet || op is PutCbzRegLabel || op
            is PutCbnzRegLabel || op is PutTbzRegImmLabel || op is PutTbnzRegImmLabel || op
            is PutPushAllXRegisters || op is PutPopAllXRegisters || op is PutPushAllQRegisters || op
            is PutPopAllQRegisters || op is PutLdrRegValue || op is PutMovRegNzcv || op
            is PutMovNzcvReg || op is PutNop || op is PutBrkImm || op is PutInstruction
            <==> reply_kind(op) is Done,
{
}

/// An operation is performed on a writer with as many slots as it has operands; only the two
/// calls take more, a packed list of arguments. Bytes need an address.
pub proof fn operations_need_their_slots(writer: u64, op: WriterOp, args: Seq<u64>)
    ensures
        writer == 0 ==> !writer_accepts(writer, op, args),
        op is PutCallAddressWithArguments || op is PutCallRegWithArguments <==> takes_arguments(op),
        writer != 0 && !takes_arguments(op) && !(op is PutBytes) ==> (writer_accepts(
            writer,
            op,
            args,
        ) <==> args.len() == operand_kinds(op).len()),
        op is PutBytes ==> (writer_accepts(writer, op, args) <==> writer != 0 && args.len() == 2
            && args[0] != 0 && args[1] < 0x1_0000_0000),
        takes_arguments(op) ==> (writer_accepts(writer, op, args) <==> writer != 0 && args.len()
            >= 2 && args.len() == 2 + 2 * args[1] && forall|i: int|
            0 <= i < args[1] ==> (#[trigger] args[2 + 2 * i] == 0 || args[2 + 2 * i] == 1)),
{
    if takes_arguments(op) && args.len() >= 2 {
        let rest = args.skip(1);
        assert(rest[0] == args[1]);
        if is_argument_list(rest) {
            assert forall|i: int| 0 <= i < args[1] implies (#[trigger] args[2 + 2 * i] == 0 || args[
            2 + 2 * i] == 1) by {
                assert(rest[1 + 2 * i] == args[2 + 2 * i]);
            }
        }
        if args.len() == 2 + 2 * args[1] && (forall|i: int|
            0 <= i < args[1] ==> (#[trigger] args[2 + 2 * i] == 0 || args[2 + 2 * i] == 1)) {
            assert forall|i: int| 0 <= i < rest[0] implies (#[trigger] rest[1 + 2 * i]
                == ARG_KIND_REGISTER || rest[1 + 2 * i] == ARG_KIND_ADDRESS) by {
                assert(rest[1 + 2 * i] == args[2 + 2 * i]);
            }
        }
    }
}

/// A call has an operand for each slot, of the kind that the operation gives it, and behind
/// them the packed arguments if it takes any.
pub proof fn calls_have_an_operand_for_each_slot(
    op: WriterOp,
    args: Seq<u64>,
    call: WriterCall,
    at: int,
)
    requires
        decoded_call(op, args, call),
        0 <= at < operand_kinds(op).len(),
    ensures
        call.op == op,
        call.operands@.len() == operand_kinds(op).len(),
        call.operands@[at] == operand_from(operand_kinds(op)[at], args[at]),
        takes_arguments(op) ==> call.arguments@ == argument_list(args.skip(1)),
        !takes_arguments(op) ==> call.arguments@.len() == 0,
{
}

} // verus!
