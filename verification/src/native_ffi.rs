//! Signatures of native functions that scripts call, and the layout of their values.

use crate::bytes::{
    casts_keep_the_low_bits, le_bytes, le_bytes_keep_the_low_bytes, le_value, lemma_byte_ranges,
    lemma_le_bytes_len, push_le, read_le,
};
use crate::script::{
    internal_error, joined, range_error, type_error, ErrorKind, ScriptError, ScriptType,
};
use crate::text::same_text;
use vstd::prelude::*;
use vstd::string::*;

verus! {

/// The only calling convention of the platform.
pub const FFI_SYSV: u32 = 1;

/// The type code of a structure.
pub const FFI_TYPE_STRUCT: u16 = 13;

/// Most elements of an array of types or values.
pub const MAX_ARGUMENTS: usize = 256;

/// Size of the memory block behind a closure.
pub const FFI_CLOSURE_SIZE_ARM64: usize = 48;

/// A type as the foreign-function library reads it. The pointer is an address.
#[derive(Clone, Copy, Debug, PartialEq, Eq, Structural)]
pub struct FfiType {
    pub size: u64,
    pub alignment: u16,
    pub kind: u16,
    pub elements: u64,
}

/// A call interface as the foreign-function library reads it. The pointers are
/// addresses.
#[derive(Clone, Copy, Debug, PartialEq, Eq, Structural)]
pub struct FfiCif {
    pub abi: u32,
    pub nargs: u32,
    pub arg_types: u64,
    pub return_type: u64,
    pub bytes: u32,
    pub flags: u32,
}

/// Size of a type in memory.
pub const FFI_TYPE_SIZE: usize = 24;

/// Size of a call interface in memory.
pub const FFI_CIF_SIZE: usize = 32;

/// A type in memory: four bytes of padding stand in front of the pointer.
pub open spec fn type_layout(kind: FfiType) -> Seq<u8> {
    le_bytes(kind.size as nat, 8) + le_bytes(kind.alignment as nat, 2) + le_bytes(
        kind.kind as nat,
        2,
    ) + le_bytes(0, 4) + le_bytes(kind.elements as nat, 8)
}

/// A call interface in memory.
pub open spec fn interface_layout(cif: FfiCif) -> Seq<u8> {
    le_bytes(cif.abi as nat, 4) + le_bytes(cif.nargs as nat, 4) + le_bytes(
        cif.arg_types as nat,
        8,
    ) + le_bytes(cif.return_type as nat, 8) + le_bytes(cif.bytes as nat, 4) + le_bytes(
        cif.flags as nat,
        4,
    )
}

impl FfiType {
    /// The type as it lies in memory.
    pub fn laid_out(&self) -> (bytes: Vec<u8>)
        ensures
            bytes@ == type_layout(*self),
            bytes@.len() == FFI_TYPE_SIZE,
    {
        let mut bytes: Vec<u8> = Vec::new();
        push_le(&mut bytes, self.size, 8);
        push_le(&mut bytes, self.alignment as u64, 2);
        push_le(&mut bytes, self.kind as u64, 2);
        push_le(&mut bytes, 0, 4);
        push_le(&mut bytes, self.elements, 8);
        proof {
            lemma_le_bytes_len(self.size as nat, 8);
            lemma_le_bytes_len(self.alignment as nat, 2);
            lemma_le_bytes_len(self.kind as nat, 2);
            lemma_le_bytes_len(0, 4);
            lemma_le_bytes_len(self.elements as nat, 8);
        }
        assert(bytes@ =~= type_layout(*self));
        bytes
    }
}

impl FfiCif {
    /// The call interface as it lies in memory.
    pub fn laid_out(&self) -> (bytes: Vec<u8>)
        ensures
            bytes@ == interface_layout(*self),
            bytes@.len() == FFI_CIF_SIZE,
    {
        let mut bytes: Vec<u8> = Vec::new();
        push_le(&mut bytes, self.abi as u64, 4);
        push_le(&mut bytes, self.nargs as u64, 4);
        push_le(&mut bytes, self.arg_types, 8);
        push_le(&mut bytes, self.return_type, 8);
        push_le(&mut bytes, self.bytes as u64, 4);
        push_le(&mut bytes, self.flags as u64, 4);
        proof {
            lemma_le_bytes_len(self.abi as nat, 4);
            lemma_le_bytes_len(self.nargs as nat, 4);
            lemma_le_bytes_len(self.arg_types as nat, 8);
            lemma_le_bytes_len(self.return_type as nat, 8);
            lemma_le_bytes_len(self.bytes as nat, 4);
            lemma_le_bytes_len(self.flags as nat, 4);
        }
        assert(bytes@ =~= interface_layout(*self));
        bytes
    }
}

/// A type without parts.
#[derive(Clone, Copy, Debug, PartialEq, Eq, Structural)]
pub enum ScalarType {
    Void,
    Bool,
    Signed(u8),
    Unsigned(u8),
    Pointer,
    Float,
    Double,
}

/// A scalar or a structure of types.
#[derive(Debug)]
pub enum TypePlan {
    Scalar(ScalarType),
    Structure(Vec<TypePlan>),
}

/// The scalar that a type name stands for, other than `void`.
pub open spec fn scalar_type_named(name: Seq<char>) -> Option<ScalarType> {
    if name == "bool"@ {
        Some(ScalarType::Bool)
    } else if name == "char"@ || name == "int8"@ {
        Some(ScalarType::Signed(1))
    } else if name == "uchar"@ || name == "uint8"@ {
        Some(ScalarType::Unsigned(1))
    } else if name == "short"@ || name == "int16"@ {
        Some(ScalarType::Signed(2))
    } else if name == "ushort"@ || name == "uint16"@ {
        Some(ScalarType::Unsigned(2))
    } else if name == "int"@ || name == "int32"@ {
        Some(ScalarType::Signed(4))
    } else if name == "uint"@ || name == "uint32"@ {
        Some(ScalarType::Unsigned(4))
    } else if name == "long"@ || name == "int64"@ || name == "ssize_t"@ {
        Some(ScalarType::Signed(8))
    } else if name == "ulong"@ || name == "uint64"@ || name == "size_t"@ {
        Some(ScalarType::Unsigned(8))
    } else if name == "pointer"@ {
        Some(ScalarType::Pointer)
    } else if name == "float"@ {
        Some(ScalarType::Float)
    } else if name == "double"@ {
        Some(ScalarType::Double)
    } else {
        None
    }
}

/// What a type name stands for: `void` only where it is allowed.
pub open spec fn scalar_type_of(name: Seq<char>, allow_void: bool) -> Result<ScalarType, Seq<char>> {
    if name == "void"@ && allow_void {
        Ok(ScalarType::Void)
    } else if name == "void"@ {
        Err("'void' can only be the return type"@)
    } else {
        match scalar_type_named(name) {
            Some(kind) => Ok(kind),
            None => Err("unknown type '"@ + name + "'"@),
        }
    }
}

/// What a type name stands for.
pub fn scalar_type(name: &str, allow_void: bool) -> (result: Result<ScalarType, String>)
    ensures
        match (result, scalar_type_of(name@, allow_void)) {
            (Ok(kind), Ok(expected)) => kind == expected,
            (Err(message), Err(expected)) => message@ == expected,
            _ => false,
        },
{
    if same_text(name, "void") {
        if allow_void {
            return Ok(ScalarType::Void);
        }
        return Err(String::from_str("'void' can only be the return type"));
    }
    if same_text(name, "bool") {
        Ok(ScalarType::Bool)
    } else if same_text(name, "char") || same_text(name, "int8") {
        Ok(ScalarType::Signed(1))
    } else if same_text(name, "uchar") || same_text(name, "uint8") {
        Ok(ScalarType::Unsigned(1))
    } else if same_text(name, "short") || same_text(name, "int16") {
        Ok(ScalarType::Signed(2))
    } else if same_text(name, "ushort") || same_text(name, "uint16") {
        Ok(ScalarType::Unsigned(2))
    } else if same_text(name, "int") || same_text(name, "int32") {
        Ok(ScalarType::Signed(4))
    } else if same_text(name, "uint") || same_text(name, "uint32") {
        Ok(ScalarType::Unsigned(4))
    } else if same_text(name, "long") || same_text(name, "int64") || same_text(name, "ssize_t") {
        Ok(ScalarType::Signed(8))
    } else if same_text(name, "ulong") || same_text(name, "uint64") || same_text(name, "size_t") {
        Ok(ScalarType::Unsigned(8))
    } else if same_text(name, "pointer") {
        Ok(ScalarType::Pointer)
    } else if same_text(name, "float") {
        Ok(ScalarType::Float)
    } else if same_text(name, "double") {
        Ok(ScalarType::Double)
    } else {
        let mut message: String = joined("unknown type '", name);
        message.append("'");
        Err(message)
    }
}

/// The size and alignment of a scalar.
pub open spec fn scalar_size(kind: ScalarType) -> nat {
    match kind {
        ScalarType::Void | ScalarType::Bool => 1,
        ScalarType::Signed(size) | ScalarType::Unsigned(size) => if size == 1 || size == 2 || size
            == 4 {
            size as nat
        } else {
            8
        },
        ScalarType::Pointer | ScalarType::Double => 8,
        ScalarType::Float => 4,
    }
}

/// The smallest multiple of `unit` that is not below `value`.
pub open spec fn round_up(value: nat, unit: nat) -> nat {
    if unit == 0 || value % unit == 0 {
        value
    } else {
        (value + unit - value % unit) as nat
    }
}

/// The alignment of a type: that of its most aligned part.
pub open spec fn plan_alignment(plan: TypePlan) -> nat
    decreases plan, 0nat,
{
    match plan {
        TypePlan::Scalar(kind) => scalar_size(kind),
        TypePlan::Structure(fields) => fields_alignment(fields, fields@.len()),
    }
}

/// The alignment of the first `count` fields of a structure.
pub open spec fn fields_alignment(fields: Vec<TypePlan>, count: nat) -> nat
    decreases fields, count,
{
    if count == 0 || count > fields@.len() {
        1
    } else {
        let front = fields_alignment(fields, (count - 1) as nat);
        let last = plan_alignment(fields@[count - 1]);
        if front >= last {
            front
        } else {
            last
        }
    }
}

/// The size of a type. A structure ends at a multiple of its alignment and is never
/// empty.
pub open spec fn plan_size(plan: TypePlan) -> nat
    decreases plan, 0nat,
{
    match plan {
        TypePlan::Scalar(kind) => scalar_size(kind),
        TypePlan::Structure(fields) => {
            let size = round_up(
                fields_end(fields, fields@.len()),
                fields_alignment(fields, fields@.len()),
            );
            if size == 0 {
                1
            } else {
                size
            }
        },
    }
}

/// Where the first `count` fields of a structure end.
pub open spec fn fields_end(fields: Vec<TypePlan>, count: nat) -> nat
    decreases fields, count,
{
    if count == 0 || count > fields@.len() {
        0
    } else {
        round_up(
            fields_end(fields, (count - 1) as nat),
            plan_alignment(fields@[count - 1]),
        ) + plan_size(fields@[count - 1])
    }
}

/// Where the field at `index` of a structure begins.
pub open spec fn field_offset(fields: Vec<TypePlan>, index: nat) -> nat {
    round_up(fields_end(fields, index), plan_alignment(fields@[index as int]))
}

/// Every alignment is between one and eight.
pub proof fn alignment_is_small(plan: TypePlan)
    ensures
        1 <= plan_alignment(plan) <= 8,
    decreases plan, 0nat,
{
    match plan {
        TypePlan::Scalar(_) => {},
        TypePlan::Structure(fields) => {
            lemma_fields_alignment_small(fields, fields@.len());
        },
    }
}

proof fn lemma_fields_alignment_small(fields: Vec<TypePlan>, count: nat)
    ensures
        1 <= fields_alignment(fields, count) <= 8,
    decreases fields, count,
{
    if count == 0 || count > fields@.len() {
    } else {
        lemma_fields_alignment_small(fields, (count - 1) as nat);
        alignment_is_small(fields@[count - 1]);
    }
}

proof fn lemma_round_up(value: nat, unit: nat)
    requires
        unit > 0,
    ensures
        value <= round_up(value, unit) < value + unit,
        round_up(value, unit) % unit == 0,
{
    let v = value as int;
    let u = unit as int;
    vstd::arithmetic::div_mod::lemma_fundamental_div_mod(v, u);
    vstd::arithmetic::div_mod::lemma_mod_multiples_basic(v / u + 1, u);
    assert((v / u + 1) * u == u * (v / u) + u) by (nonlinear_arith);
}

/// Fields follow one another: none begins before the one in front of it ends.
pub proof fn fields_do_not_overlap(fields: Vec<TypePlan>, small: nat, large: nat)
    requires
        small <= large <= fields@.len(),
    ensures
        fields_end(fields, small) <= fields_end(fields, large),
        small < large ==> fields_end(fields, small) <= field_offset(fields, small) && field_offset(
            fields,
            small,
        ) + plan_size(fields@[small as int]) <= fields_end(fields, large),
    decreases large,
{
    if small < large {
        let last = (large - 1) as nat;
        alignment_is_small(fields@[last as int]);
        lemma_round_up(fields_end(fields, last), plan_alignment(fields@[last as int]));
        fields_do_not_overlap(fields, small, last);
        if small == last {
        }
    }
}

/// A structure holds all of its fields.
pub proof fn structure_holds_its_fields(fields: Vec<TypePlan>, index: nat)
    requires
        index < fields@.len(),
    ensures
        field_offset(fields, index) + plan_size(fields@[index as int]) <= plan_size(
            TypePlan::Structure(fields),
        ),
        fields_end(fields, fields@.len()) <= plan_size(TypePlan::Structure(fields)),
        field_offset(fields, index) % plan_alignment(fields@[index as int]) == 0,
{
    fields_do_not_overlap(fields, index, fields@.len());
    lemma_fields_alignment_small(fields, fields@.len());
    lemma_round_up(fields_end(fields, fields@.len()), fields_alignment(fields, fields@.len()));
    alignment_is_small(fields@[index as int]);
    lemma_round_up(fields_end(fields, index), plan_alignment(fields@[index as int]));
}

fn next_multiple(value: usize, unit: usize) -> (rounded: usize)
    requires
        unit > 0,
        round_up(value as nat, unit as nat) <= usize::MAX,
    ensures
        rounded == round_up(value as nat, unit as nat),
{
    let rest: usize = value % unit;
    if rest == 0 {
        value
    } else {
        value + (unit - rest)
    }
}

fn checked_multiple(value: usize, unit: usize) -> (rounded: Option<usize>)
    requires
        unit > 0,
    ensures
        rounded is Some <==> round_up(value as nat, unit as nat) <= usize::MAX,
        rounded matches Some(r) ==> r == round_up(value as nat, unit as nat),
{
    let rest: usize = value % unit;
    if rest == 0 {
        Some(value)
    } else {
        value.checked_add(unit - rest)
    }
}

fn scalar_width(kind: ScalarType) -> (width: usize)
    ensures
        width == scalar_size(kind),
        1 <= width <= 8,
{
    match kind {
        ScalarType::Void | ScalarType::Bool => 1,
        ScalarType::Signed(size) | ScalarType::Unsigned(size) => {
            if size == 1 || size == 2 || size == 4 {
                size as usize
            } else {
                8
            }
        },
        ScalarType::Pointer | ScalarType::Double => 8,
        ScalarType::Float => 4,
    }
}

impl TypePlan {
    /// The alignment of the type.
    pub fn alignment(&self) -> (alignment: usize)
        ensures
            alignment == plan_alignment(*self),
            1 <= alignment <= 8,
        decreases self,
    {
        match self {
            TypePlan::Scalar(kind) => scalar_width(*kind),
            TypePlan::Structure(fields) => {
                let mut alignment: usize = 1;
                let mut i: usize = 0;
                while i < fields.len()
                    invariant
                        i <= fields@.len(),
                        *self == TypePlan::Structure(*fields),
                        alignment == fields_alignment(*fields, i as nat),
                        1 <= alignment <= 8,
                    decreases fields@.len() - i,
                {
                    assert(decreases_to!(*self => self->Structure_0));
                    assert(decreases_to!(*fields => fields@[i as int]));
                    let next: usize = fields[i].alignment();
                    if next > alignment {
                        alignment = next;
                    }
                    i = i + 1;
                }
                alignment
            },
        }
    }

    /// The size of the type, if it can be counted.
    pub fn checked_size(&self) -> (size: Option<usize>)
        ensures
            size is Some <==> plan_size(*self) <= usize::MAX,
            size matches Some(s) ==> s == plan_size(*self),
        decreases self,
    {
        match self {
            TypePlan::Scalar(kind) => Some(scalar_width(*kind)),
            TypePlan::Structure(fields) => {
                let mut end: usize = 0;
                let mut i: usize = 0;
                while i < fields.len()
                    invariant
                        i <= fields@.len(),
                        *self == TypePlan::Structure(*fields),
                        end == fields_end(*fields, i as nat),
                    decreases fields@.len() - i,
                {
                    proof {
                        structure_holds_its_fields(*fields, i as nat);
                        fields_do_not_overlap(*fields, (i + 1) as nat, fields@.len());
                    }
                    let alignment: usize = fields[i].alignment();
                    let offset: usize = match checked_multiple(end, alignment) {
                        Some(offset) => offset,
                        None => {
                            return None;
                        },
                    };
                    let size: usize = match fields[i].checked_size() {
                        Some(size) => size,
                        None => {
                            return None;
                        },
                    };
                    end = match offset.checked_add(size) {
                        Some(end) => end,
                        None => {
                            return None;
                        },
                    };
                    i = i + 1;
                }
                proof {
                    lemma_fields_alignment_small(*fields, fields@.len());
                    lemma_round_up(end as nat, fields_alignment(*fields, fields@.len()));
                }
                let alignment: usize = self.alignment();
                match checked_multiple(end, alignment) {
                    Some(size) => if size == 0 {
                        Some(1)
                    } else {
                        Some(size)
                    },
                    None => None,
                }
            },
        }
    }

    /// The size of the type.
    pub fn size(&self) -> (size: usize)
        requires
            plan_size(*self) <= usize::MAX,
        ensures
            size == plan_size(*self),
        decreases self,
    {
        match self {
            TypePlan::Scalar(kind) => scalar_width(*kind),
            TypePlan::Structure(fields) => {
                let mut end: usize = 0;
                let mut i: usize = 0;
                while i < fields.len()
                    invariant
                        i <= fields@.len(),
                        *self == TypePlan::Structure(*fields),
                        plan_size(*self) <= usize::MAX,
                        end == fields_end(*fields, i as nat),
                    decreases fields@.len() - i,
                {
                    proof {
                        structure_holds_its_fields(*fields, i as nat);
                    }
                    let alignment: usize = fields[i].alignment();
                    let offset: usize = next_multiple(end, alignment);
                    end = offset + fields[i].size();
                    i = i + 1;
                }
                proof {
                    lemma_fields_alignment_small(*fields, fields@.len());
                    lemma_round_up(end as nat, fields_alignment(*fields, fields@.len()));
                }
                let alignment: usize = self.alignment();
                let size: usize = next_multiple(end, alignment);
                if size == 0 {
                    1
                } else {
                    size
                }
            },
        }
    }
}

/// Why a script's type is refused.
pub open spec fn type_problem(value: ScriptType, allow_void: bool) -> Option<
    (ErrorKind, Seq<char>),
>
    decreases value, 0nat,
{
    match value {
        ScriptType::List(types) => if types@.len() > MAX_ARGUMENTS {
            Some((ErrorKind::RangeError, "invalid array length"@))
        } else {
            list_problem(types, types@.len())
        },
        ScriptType::Name(name) => match scalar_type_of(name@, allow_void) {
            Ok(_) => None,
            Err(message) => Some((ErrorKind::TypeError, message)),
        },
        ScriptType::Failed(error) => Some(error@),
        _ => Some((ErrorKind::TypeError, "invalid type specified"@)),
    }
}

/// The first of some types that is refused as the field of a structure.
pub open spec fn list_problem(types: Vec<ScriptType>, count: nat) -> Option<(ErrorKind, Seq<char>)>
    decreases types, count,
{
    if count == 0 || count > types@.len() {
        None
    } else {
        match list_problem(types, (count - 1) as nat) {
            Some(problem) => Some(problem),
            None => type_problem(types@[count - 1], false),
        }
    }
}

/// Whether a plan is the one for a script's type.
pub open spec fn describes(value: ScriptType, allow_void: bool, plan: TypePlan) -> bool
    decreases value,
{
    match (value, plan) {
        (ScriptType::Name(name), TypePlan::Scalar(kind)) => scalar_type_of(name@, allow_void) == Ok::<
            ScalarType,
            Seq<char>,
        >(kind),
        (ScriptType::List(types), TypePlan::Structure(fields)) => {
            &&& types@.len() == fields@.len()
            &&& forall|i: int|
                0 <= i < types@.len() ==> describes(types@[i], false, #[trigger] fields@[i])
        },
        _ => false,
    }
}

proof fn lemma_list_problem_stays(types: Vec<ScriptType>, small: nat, large: nat)
    requires
        small <= large <= types@.len(),
        list_problem(types, small) is Some,
    ensures
        list_problem(types, large) == list_problem(types, small),
    decreases large,
{
    if small < large {
        lemma_list_problem_stays(types, small, (large - 1) as nat);
    }
}

/// Reads a script's type.
pub fn parse_type(value: &ScriptType, allow_void: bool) -> (result: Result<TypePlan, ScriptError>)
    ensures
        result is Err <==> type_problem(*value, allow_void) is Some,
        result matches Err(error) ==> type_problem(*value, allow_void) == Some(error@),
        result matches Ok(plan) ==> describes(*value, allow_void, plan),
    decreases value,
{
    match value {
        ScriptType::List(types) => {
            if types.len() > MAX_ARGUMENTS {
                return Err(range_error("invalid array length"));
            }
            let mut fields: Vec<TypePlan> = Vec::new();
            let mut i: usize = 0;
            while i < types.len()
                invariant
                    i <= types@.len() <= MAX_ARGUMENTS,
                    *value == ScriptType::List(*types),
                    fields@.len() == i,
                    list_problem(*types, i as nat) is None,
                    forall|k: int|
                        0 <= k < i ==> describes(types@[k], false, #[trigger] fields@[k]),
                decreases types@.len() - i,
            {
                match parse_type(&types[i], false) {
                    Ok(field) => {
                        fields.push(field);
                    },
                    Err(error) => {
                        proof {
                            lemma_list_problem_stays(*types, (i + 1) as nat, types@.len());
                        }
                        return Err(error);
                    },
                }
                i = i + 1;
            }
            Ok(TypePlan::Structure(fields))
        },
        ScriptType::Name(name) => match scalar_type(name.as_str(), allow_void) {
            Ok(kind) => Ok(TypePlan::Scalar(kind)),
            Err(message) => Err(ScriptError { kind: ErrorKind::TypeError, message }),
        },
        ScriptType::Failed(error) => Err(error.again()),
        _ => Err(type_error("invalid type specified")),
    }
}

/// The scalar that a variadic argument is passed as.
pub open spec fn promoted_scalar(kind: ScalarType) -> ScalarType {
    match kind {
        ScalarType::Bool => ScalarType::Signed(4),
        ScalarType::Signed(size) => if size < 4 {
            ScalarType::Signed(4)
        } else {
            kind
        },
        ScalarType::Unsigned(size) => if size < 4 {
            ScalarType::Unsigned(4)
        } else {
            kind
        },
        ScalarType::Float => ScalarType::Double,
        _ => kind,
    }
}

/// The type that a variadic argument is passed as.
pub open spec fn promoted_plan(plan: TypePlan) -> TypePlan {
    match plan {
        TypePlan::Scalar(kind) => TypePlan::Scalar(promoted_scalar(kind)),
        TypePlan::Structure(_) => plan,
    }
}

/// Promotion changes nothing the second time.
pub proof fn promotion_is_idempotent(plan: TypePlan)
    ensures
        promoted_plan(promoted_plan(plan)) == promoted_plan(plan),
{
}

impl TypePlan {
    /// The type that a variadic argument is passed as: small integers become `int`,
    /// and `float` becomes `double`.
    pub fn promoted(self) -> (plan: TypePlan)
        ensures
            plan == promoted_plan(self),
    {
        match self {
            TypePlan::Scalar(kind) => TypePlan::Scalar(
                match kind {
                    ScalarType::Bool => ScalarType::Signed(4),
                    ScalarType::Signed(size) => if size < 4 {
                        ScalarType::Signed(4)
                    } else {
                        ScalarType::Signed(size)
                    },
                    ScalarType::Unsigned(size) => if size < 4 {
                        ScalarType::Unsigned(4)
                    } else {
                        ScalarType::Unsigned(size)
                    },
                    ScalarType::Float => ScalarType::Double,
                    other => other,
                },
            ),
            TypePlan::Structure(fields) => TypePlan::Structure(fields),
        }
    }
}

/// Whether an argument type is the marker behind which the variadic types stand.
pub open spec fn is_marker(value: ScriptType) -> bool {
    value matches ScriptType::Name(name) && name@ == "..."@
}

/// Whether one of the first `count` types is the marker.
pub open spec fn marked(types: Seq<ScriptType>, count: int) -> bool {
    exists|i: int| 0 <= i < count && is_marker(#[trigger] types[i])
}

/// The first of the argument types that is refused, among the first `count`.
pub open spec fn arguments_problem(types: Seq<ScriptType>, count: nat) -> Option<
    (ErrorKind, Seq<char>),
>
    decreases count,
{
    if count == 0 || count > types.len() {
        None
    } else {
        let index = count - 1;
        match arguments_problem(types, index as nat) {
            Some(problem) => Some(problem),
            None => if is_marker(types[index]) {
                if index == 0 || marked(types, index) {
                    Some(
                        (
                            ErrorKind::TypeError,
                            "only one variadic marker may be specified, and it cannot be first"@,
                        ),
                    )
                } else {
                    None
                }
            } else {
                type_problem(types[index], false)
            },
        }
    }
}

/// Why a signature is refused.
pub open spec fn ffi_signature_error(return_type: ScriptType, arguments: ScriptType) -> Option<
    (ErrorKind, Seq<char>),
> {
    if type_problem(return_type, true) is Some {
        type_problem(return_type, true)
    } else {
        match arguments {
            ScriptType::List(types) => if types@.len() > MAX_ARGUMENTS {
                Some((ErrorKind::RangeError, "invalid array length"@))
            } else if arguments_problem(types@, types@.len()) is Some {
                arguments_problem(types@, types@.len())
            } else if types@.len() > 0 && is_marker(types@.last()) {
                Some(
                    (
                        ErrorKind::TypeError,
                        "variadic signature must provide at least one trailing type"@,
                    ),
                )
            } else {
                None
            },
            ScriptType::Failed(error) => Some(error@),
            _ => Some((ErrorKind::TypeError, "argument types must be an array"@)),
        }
    }
}

/// The signature of a native function.
#[derive(Debug)]
pub struct NativeFfiSignature {
    pub return_type: TypePlan,
    pub arguments: Vec<TypePlan>,
    pub fixed_count: usize,
    pub variadic: bool,
}

/// Whether a plan is the one for an argument type: variadic ones are promoted.
pub open spec fn describes_argument(value: ScriptType, variadic: bool, plan: TypePlan) -> bool {
    if variadic {
        exists|parsed: TypePlan| #[trigger]
            describes(value, false, parsed) && plan == promoted_plan(parsed)
    } else {
        describes(value, false, plan)
    }
}

impl NativeFfiSignature {
    /// A variadic signature has types behind its fixed arguments.
    pub open spec fn wf(&self) -> bool {
        &&& self.arguments@.len() <= MAX_ARGUMENTS
        &&& if self.variadic {
            0 < self.fixed_count < self.arguments@.len()
        } else {
            self.fixed_count == self.arguments@.len()
        }
    }

    /// Whether the arguments are those of a list of types: the types in order without
    /// the marker, those behind it promoted.
    pub open spec fn has_arguments(&self, types: Seq<ScriptType>) -> bool {
        &&& self.variadic == marked(types, types.len() as int)
        &&& if self.variadic {
            &&& self.fixed_count < types.len()
            &&& is_marker(types[self.fixed_count as int])
            &&& self.arguments@.len() == types.len() - 1
            &&& forall|i: int|
                0 <= i < self.fixed_count ==> describes_argument(
                    types[i],
                    false,
                    #[trigger] self.arguments@[i],
                )
            &&& forall|i: int|
                self.fixed_count <= i < self.arguments@.len() ==> describes_argument(
                    types[i + 1],
                    true,
                    #[trigger] self.arguments@[i],
                )
        } else {
            &&& self.arguments@.len() == types.len()
            &&& forall|i: int|
                0 <= i < types.len() ==> describes_argument(
                    types[i],
                    false,
                    #[trigger] self.arguments@[i],
                )
        }
    }
}

fn is_variadic_marker(value: &ScriptType) -> (marker: bool)
    ensures
        marker == is_marker(*value),
{
    match value {
        ScriptType::Name(name) => same_text(name.as_str(), "..."),
        _ => false,
    }
}

proof fn lemma_arguments_problem_stays(types: Seq<ScriptType>, small: nat, large: nat)
    requires
        small <= large <= types.len(),
        arguments_problem(types, small) is Some,
    ensures
        arguments_problem(types, large) == arguments_problem(types, small),
    decreases large,
{
    if small < large {
        lemma_arguments_problem_stays(types, small, (large - 1) as nat);
    }
}

impl NativeFfiSignature {
    /// Reads a signature. The foreign-function library has yet to accept it; see
    /// [`NativeFfiSignature::prepared`].
    pub fn parse(return_type: &ScriptType, arguments: &ScriptType) -> (result: Result<
        NativeFfiSignature,
        ScriptError,
    >)
        ensures
            result is Err <==> ffi_signature_error(*return_type, *arguments) is Some,
            result matches Err(error) ==> ffi_signature_error(*return_type, *arguments) == Some(
                error@,
            ),
            result matches Ok(signature) ==> {
                &&& signature.wf()
                &&& describes(*return_type, true, signature.return_type)
                &&& signature.has_arguments(arguments->List_0@)
            },
    {
        let return_plan: TypePlan = match parse_type(return_type, true) {
            Ok(plan) => plan,
            Err(error) => {
                return Err(error);
            },
        };
        let types: &Vec<ScriptType> = match arguments {
            ScriptType::List(types) => types,
            ScriptType::Failed(error) => {
                return Err(error.again());
            },
            _ => {
                return Err(type_error("argument types must be an array"));
            },
        };
        if types.len() > MAX_ARGUMENTS {
            return Err(range_error("invalid array length"));
        }
        let mut plans: Vec<TypePlan> = Vec::new();
        let mut fixed_count: usize = types.len();
        let mut variadic: bool = false;
        let mut i: usize = 0;
        while i < types.len()
            invariant
                i <= types@.len() <= MAX_ARGUMENTS,
                *arguments == ScriptType::List(*types),
                type_problem(*return_type, true) is None,
                describes(*return_type, true, return_plan),
                arguments_problem(types@, i as nat) is None,
                variadic == marked(types@, i as int),
                variadic ==> {
                    &&& 0 < fixed_count < i
                    &&& is_marker(types@[fixed_count as int])
                    &&& plans@.len() == i - 1
                    &&& forall|k: int|
                        0 <= k < fixed_count ==> describes_argument(
                            types@[k],
                            false,
                            #[trigger] plans@[k],
                        )
                    &&& forall|k: int|
                        fixed_count <= k < plans@.len() ==> describes_argument(
                            types@[k + 1],
                            true,
                            #[trigger] plans@[k],
                        )
                    &&& forall|k: int|
                        fixed_count < k < i ==> !is_marker(#[trigger] types@[k])
                },
                !variadic ==> {
                    &&& fixed_count == types@.len()
                    &&& plans@.len() == i
                    &&& forall|k: int|
                        0 <= k < i ==> describes_argument(
                            types@[k],
                            false,
                            #[trigger] plans@[k],
                        )
                },
            decreases types@.len() - i,
        {
            let ghost before = plans@;
            if is_variadic_marker(&types[i]) {
                if i == 0 || variadic {
                    proof {
                        lemma_arguments_problem_stays(types@, (i + 1) as nat, types@.len());
                    }
                    return Err(
                        type_error(
                            "only one variadic marker may be specified, and it cannot be first",
                        ),
                    );
                }
                fixed_count = plans.len();
                variadic = true;
                assert(is_marker(types@[i as int]));
                assert(marked(types@, i + 1));
            } else {
                match parse_type(&types[i], false) {
                    Err(error) => {
                        proof {
                            lemma_arguments_problem_stays(types@, (i + 1) as nat, types@.len());
                        }
                        return Err(error);
                    },
                    Ok(parsed) => {
                        assert(describes(types@[i as int], false, parsed));
                        if variadic {
                            plans.push(parsed.promoted());
                            assert(describes_argument(types@[i as int], true, plans@.last()));
                        } else {
                            plans.push(parsed);
                        }
                    },
                }
                assert(marked(types@, i + 1) == marked(types@, i as int)) by {
                    if marked(types@, i + 1) {
                        let k = choose|k: int| 0 <= k < i + 1 && is_marker(#[trigger] types@[k]);
                        assert(k != i);
                    }
                    if marked(types@, i as int) {
                        let k = choose|k: int| 0 <= k < i && is_marker(#[trigger] types@[k]);
                        assert(is_marker(types@[k]));
                    }
                }
            }
            i = i + 1;
        }
        if variadic && fixed_count == plans.len() {
            return Err(type_error("variadic signature must provide at least one trailing type"));
        }
        proof {
            if variadic {
                assert(!is_marker(types@[types@.len() - 1]));
            } else if types@.len() > 0 && is_marker(types@.last()) {
                assert(marked(types@, types@.len() as int));
            }
        }
        Ok(
            NativeFfiSignature {
                return_type: return_plan,
                arguments: plans,
                fixed_count,
                variadic,
            },
        )
    }

    /// Whether the sizes of all types can be counted.
    pub open spec fn countable(&self) -> bool {
        &&& plan_size(self.return_type) <= usize::MAX
        &&& forall|i: int|
            0 <= i < self.arguments@.len() ==> plan_size(#[trigger] self.arguments@[i])
                <= usize::MAX
    }

    /// Whether the sizes of all types can be counted. Those of any types that a script can
    /// hold are.
    pub fn is_countable(&self) -> (countable: bool)
        ensures
            countable == self.countable(),
    {
        if self.return_type.checked_size().is_none() {
            return false;
        }
        let mut i: usize = 0;
        while i < self.arguments.len()
            invariant
                i <= self.arguments@.len(),
                plan_size(self.return_type) <= usize::MAX,
                forall|k: int|
                    0 <= k < i ==> plan_size(#[trigger] self.arguments@[k]) <= usize::MAX,
            decreases self.arguments@.len() - i,
        {
            if self.arguments[i].checked_size().is_none() {
                assert(plan_size(self.arguments@[i as int]) > usize::MAX);
                return false;
            }
            i = i + 1;
        }
        true
    }

    /// Takes in whether the foreign-function library accepted the signature.
    pub fn prepared(self, accepted: bool) -> (result: Result<NativeFfiSignature, ScriptError>)
        ensures
            accepted ==> result == Ok::<NativeFfiSignature, ScriptError>(self),
            !accepted ==> result is Err && result->Err_0@ == (
                ErrorKind::InternalError,
                "failed to compile native call interface"@,
            ),
    {
        if accepted {
            Ok(self)
        } else {
            Err(internal_error("failed to compile native call interface"))
        }
    }

    /// Reads the signature of a callback, which cannot be variadic. Whether the
    /// foreign-function library accepted the signature is looked at before that.
    pub fn parse_callback(return_type: &ScriptType, arguments: &ScriptType, accepted: bool) -> (result:
        Result<NativeFfiSignature, ScriptError>)
        ensures
            ffi_signature_error(*return_type, *arguments) is Some ==> result is Err && Some(
                result->Err_0@,
            ) == ffi_signature_error(*return_type, *arguments),
            ffi_signature_error(*return_type, *arguments) is None ==> {
                let types = arguments->List_0@;
                &&& !accepted ==> result is Err && result->Err_0@ == (
                    ErrorKind::InternalError,
                    "failed to compile native call interface"@,
                )
                &&& accepted && marked(types, types.len() as int) ==> result is Err
                    && result->Err_0@ == (
                    ErrorKind::TypeError,
                    "NativeCallback does not support variadic signatures"@,
                )
                &&& accepted && !marked(types, types.len() as int) ==> {
                    &&& result is Ok
                    &&& result->Ok_0.wf()
                    &&& !result->Ok_0.variadic
                    &&& describes(*return_type, true, result->Ok_0.return_type)
                    &&& result->Ok_0.has_arguments(types)
                }
            },
    {
        let signature: NativeFfiSignature = match NativeFfiSignature::parse(return_type, arguments) {
            Err(error) => {
                return Err(error);
            },
            Ok(signature) => signature,
        };
        match signature.prepared(accepted) {
            Err(error) => Err(error),
            Ok(signature) => {
                if signature.variadic {
                    Err(type_error("NativeCallback does not support variadic signatures"))
                } else {
                    Ok(signature)
                }
            },
        }
    }

    /// Which of the argument types the value at a position has. Values behind the last
    /// type of a variadic signature take its variadic types in turn.
    pub open spec fn plan_index(&self, index: int) -> int {
        if index < self.arguments@.len() {
            index
        } else {
            self.fixed_count + (index - self.fixed_count) % (self.arguments@.len()
                - self.fixed_count)
        }
    }

    /// The type of the value at a position.
    pub fn plan_for_argument(&self, index: usize) -> (plan: &TypePlan)
        requires
            self.wf(),
            self.variadic || index < self.arguments@.len(),
        ensures
            0 <= self.plan_index(index as int) < self.arguments@.len(),
            *plan == self.arguments@[self.plan_index(index as int)],
    {
        if index < self.arguments.len() {
            &self.arguments[index]
        } else {
            let tail_count: usize = self.arguments.len() - self.fixed_count;
            let offset: usize = (index - self.fixed_count) % tail_count;
            &self.arguments[self.fixed_count + offset]
        }
    }

    /// How many native arguments a call has that gives `value_count` values.
    pub open spec fn native_count(&self, value_count: int) -> int {
        if self.variadic && value_count < self.arguments@.len() {
            self.arguments@.len() as int
        } else {
            value_count
        }
    }

    /// Whether a call may give that many values.
    pub open spec fn accepts_count(&self, value_count: int) -> bool {
        if self.variadic {
            value_count >= self.fixed_count
        } else {
            value_count == self.arguments@.len()
        }
    }

    /// Checks the number of values of a call. The result is the number of native
    /// arguments.
    pub fn check_count(&self, value_count: usize) -> (result: Result<usize, ScriptError>)
        ensures
            result is Ok <==> self.accepts_count(value_count as int),
            result matches Ok(count) ==> count == self.native_count(value_count as int),
            result matches Err(error) ==> error@ == (
                ErrorKind::TypeError,
                "bad native argument count"@,
            ),
    {
        if (!self.variadic && value_count != self.arguments.len()) || (self.variadic && value_count
            < self.fixed_count) {
            return Err(type_error("bad native argument count"));
        }
        if self.variadic && value_count < self.arguments.len() {
            Ok(self.arguments.len())
        } else {
            Ok(value_count)
        }
    }

    /// Whether a call needs an interface of its own, because it has more arguments than
    /// the signature has types.
    pub fn needs_own_interface(&self, native_count: usize) -> (needed: bool)
        ensures
            needed == (native_count > self.arguments@.len()),
    {
        native_count > self.arguments.len()
    }

    /// The call interface that the library fills in, for types at the given addresses.
    pub fn interface(&self, arg_types: u64, return_type: u64) -> (cif: FfiCif)
        requires
            self.wf(),
        ensures
            cif == (FfiCif {
                abi: FFI_SYSV,
                nargs: self.arguments@.len() as u32,
                arg_types,
                return_type,
                bytes: 0,
                flags: 0,
            }),
    {
        FfiCif {
            abi: FFI_SYSV,
            nargs: self.arguments.len() as u32,
            arg_types,
            return_type,
            bytes: 0,
            flags: 0,
        }
    }
}

/// The type of a structure whose parts are listed at an address; the library fills in
/// size and alignment.
pub fn structure_type(elements: u64) -> (kind: FfiType)
    ensures
        kind == (FfiType { size: 0, alignment: 0, kind: FFI_TYPE_STRUCT, elements }),
{
    FfiType { size: 0, alignment: 0, kind: FFI_TYPE_STRUCT, elements }
}

/// The number of 64-bit words that hold a value of the given size; never zero.
pub fn aligned_words(size: usize) -> (words: usize)
    ensures
        size <= 8 ==> words == 1,
        size > 8 ==> words == (size + 7) / 8,
{
    if size <= 8 {
        1
    } else if size % 8 == 0 {
        size / 8
    } else {
        size / 8 + 1
    }
}

/// A value on its way between a script and native memory. Floating-point values are
/// given by their bits.
#[derive(Debug)]
pub enum FfiValue {
    /// A value that could not be read, or did not convert to what its type asks for.
    Failed(ScriptError),
    Undefined,
    Bool(bool),
    Integer(i64),
    Address(u64),
    FloatBits(u32),
    DoubleBits(u64),
    List(Vec<FfiValue>),
}

/// Whether the script's value has been converted as its type asks for, or has failed to.
/// What is no integer stands for itself where one is asked for.
pub open spec fn converted(plan: TypePlan, value: FfiValue) -> bool
    decreases plan,
{
    match plan {
        TypePlan::Scalar(kind) => match kind {
            ScalarType::Void => true,
            ScalarType::Bool => value is Bool || value is Failed,
            ScalarType::Signed(_) => true,
            ScalarType::Unsigned(_) | ScalarType::Pointer => value is Address || value is Failed,
            ScalarType::Float => value is FloatBits || value is Failed,
            ScalarType::Double => value is DoubleBits || value is Failed,
        },
        TypePlan::Structure(fields) => value matches FfiValue::List(values) ==> (values@.len()
            == fields@.len() ==> forall|i: int|
            0 <= i < fields@.len() ==> converted(fields@[i], #[trigger] values@[i])),
    }
}

/// Why a value cannot be written.
pub open spec fn value_problem(plan: TypePlan, value: FfiValue) -> Option<(ErrorKind, Seq<char>)>
    decreases plan, 0nat,
{
    match plan {
        TypePlan::Scalar(kind) => if kind is Void {
            None
        } else if value is Failed {
            Some(value->Failed_0@)
        } else if kind is Signed && !(value is Integer) {
            Some((ErrorKind::TypeError, "native integer argument expected"@))
        } else {
            None
        },
        TypePlan::Structure(fields) => match value {
            FfiValue::Failed(error) => Some(error@),
            FfiValue::List(values) => if values@.len() > MAX_ARGUMENTS {
                Some((ErrorKind::RangeError, "invalid array length"@))
            } else if values@.len() != fields@.len() {
                Some(
                    (
                        ErrorKind::TypeError,
                        "provided array length does not match number of fields"@,
                    ),
                )
            } else {
                fields_problem(fields, values@, fields@.len())
            },
            _ => Some((ErrorKind::TypeError, "struct value must be an array"@)),
        },
    }
}

/// The first of some field values that cannot be written.
pub open spec fn fields_problem(fields: Vec<TypePlan>, values: Seq<FfiValue>, count: nat) -> Option<
    (ErrorKind, Seq<char>),
>
    decreases fields, count,
{
    if count == 0 || count > fields@.len() {
        None
    } else {
        match fields_problem(fields, values, (count - 1) as nat) {
            Some(problem) => Some(problem),
            None => value_problem(fields@[count - 1], values[count - 1]),
        }
    }
}

/// The bytes of a scalar.
pub open spec fn scalar_bytes(kind: ScalarType, value: FfiValue) -> Seq<u8> {
    match kind {
        ScalarType::Void => le_bytes(0, 1),
        ScalarType::Bool => le_bytes(
            if value->Bool_0 {
                1
            } else {
                0
            },
            1,
        ),
        ScalarType::Signed(_) => le_bytes(value->Integer_0 as u64 as nat, scalar_size(kind)),
        ScalarType::Unsigned(_) | ScalarType::Pointer => le_bytes(
            value->Address_0 as nat,
            scalar_size(kind),
        ),
        ScalarType::Float => le_bytes(value->FloatBits_0 as nat, 4),
        ScalarType::Double => le_bytes(value->DoubleBits_0 as nat, 8),
    }
}

/// Bytes with zeros behind them up to a length.
pub open spec fn zero_extended(bytes: Seq<u8>, length: nat) -> Seq<u8> {
    if bytes.len() >= length {
        bytes
    } else {
        bytes + Seq::new((length - bytes.len()) as nat, |i: int| 0u8)
    }
}

/// The bytes of a value; padding is zero.
pub open spec fn value_bytes(plan: TypePlan, value: FfiValue) -> Seq<u8>
    decreases plan, 0nat,
{
    match plan {
        TypePlan::Scalar(kind) => scalar_bytes(kind, value),
        TypePlan::Structure(fields) => zero_extended(
            fields_bytes(fields, value->List_0@, fields@.len()),
            plan_size(plan),
        ),
    }
}

/// The bytes of the first `count` fields of a structure.
pub open spec fn fields_bytes(fields: Vec<TypePlan>, values: Seq<FfiValue>, count: nat) -> Seq<u8>
    decreases fields, count,
{
    if count == 0 || count > fields@.len() {
        Seq::empty()
    } else {
        zero_extended(
            fields_bytes(fields, values, (count - 1) as nat),
            field_offset(fields, (count - 1) as nat),
        ) + value_bytes(fields@[count - 1], values[count - 1])
    }
}

/// The bytes of a value fill exactly the size of its type.
pub proof fn value_bytes_have_the_size(plan: TypePlan, value: FfiValue)
    ensures
        value_bytes(plan, value).len() == plan_size(plan),
    decreases plan, 0nat,
{
    match plan {
        TypePlan::Scalar(kind) => {
            lemma_le_bytes_len(0, 1);
            lemma_le_bytes_len(1, 1);
            lemma_le_bytes_len(value->Integer_0 as u64 as nat, scalar_size(kind));
            lemma_le_bytes_len(value->Address_0 as nat, scalar_size(kind));
            lemma_le_bytes_len(value->FloatBits_0 as nat, 4);
            lemma_le_bytes_len(value->DoubleBits_0 as nat, 8);
        },
        TypePlan::Structure(fields) => {
            lemma_fields_bytes_len(fields, value->List_0@, fields@.len());
            lemma_fields_alignment_small(fields, fields@.len());
            lemma_round_up(
                fields_end(fields, fields@.len()),
                fields_alignment(fields, fields@.len()),
            );
        },
    }
}

proof fn lemma_fields_bytes_len(fields: Vec<TypePlan>, values: Seq<FfiValue>, count: nat)
    requires
        count <= fields@.len(),
    ensures
        fields_bytes(fields, values, count).len() == fields_end(fields, count),
    decreases fields, count,
{
    if count > 0 {
        lemma_fields_bytes_len(fields, values, (count - 1) as nat);
        value_bytes_have_the_size(fields@[count - 1], values[count - 1]);
        alignment_is_small(fields@[count - 1]);
        lemma_round_up(
            fields_end(fields, (count - 1) as nat),
            plan_alignment(fields@[count - 1]),
        );
    }
}

/// The scalar that some bytes stand for.
pub open spec fn scalar_read(kind: ScalarType, bytes: Seq<u8>) -> FfiValue {
    let raw = le_value(bytes) as u64;
    match kind {
        ScalarType::Void => FfiValue::Undefined,
        ScalarType::Bool => FfiValue::Bool(bytes[0] != 0),
        ScalarType::Signed(size) => FfiValue::Integer(
            if size == 1 {
                raw as u8 as i8 as i64
            } else if size == 2 {
                raw as u16 as i16 as i64
            } else if size == 4 {
                raw as u32 as i32 as i64
            } else {
                raw as i64
            },
        ),
        ScalarType::Unsigned(_) | ScalarType::Pointer => FfiValue::Address(raw),
        ScalarType::Float => FfiValue::FloatBits(raw as u32),
        ScalarType::Double => FfiValue::DoubleBits(raw),
    }
}

/// Whether a value is the one that some bytes stand for.
pub open spec fn reads(plan: TypePlan, bytes: Seq<u8>, value: FfiValue) -> bool
    decreases plan,
{
    match plan {
        TypePlan::Scalar(kind) => value == scalar_read(kind, bytes.take(scalar_size(kind) as int)),
        TypePlan::Structure(fields) => {
            &&& value is List
            &&& value->List_0@.len() == fields@.len()
            &&& forall|i: int|
                0 <= i < fields@.len() ==> reads(
                    fields@[i],
                    #[trigger] field_slice(fields, bytes, i),
                    value->List_0@[i],
                )
        },
    }
}

/// The bytes of one field of a structure.
pub open spec fn field_slice(fields: Vec<TypePlan>, bytes: Seq<u8>, index: int) -> Seq<u8> {
    bytes.subrange(
        field_offset(fields, index as nat) as int,
        (field_offset(fields, index as nat) + plan_size(fields@[index])) as int,
    )
}

/// Whether a value that was read is the one that was written, cut to its type.
pub open spec fn agrees(plan: TypePlan, written: FfiValue, read: FfiValue) -> bool
    decreases plan,
{
    match plan {
        TypePlan::Scalar(kind) => match kind {
            ScalarType::Void => read is Undefined,
            ScalarType::Signed(size) => read == FfiValue::Integer(
                if size == 1 {
                    written->Integer_0 as i8 as i64
                } else if size == 2 {
                    written->Integer_0 as i16 as i64
                } else if size == 4 {
                    written->Integer_0 as i32 as i64
                } else {
                    written->Integer_0
                },
            ),
            ScalarType::Unsigned(size) => read == FfiValue::Address(
                if size == 1 {
                    written->Address_0 as u8 as u64
                } else if size == 2 {
                    written->Address_0 as u16 as u64
                } else if size == 4 {
                    written->Address_0 as u32 as u64
                } else {
                    written->Address_0
                },
            ),
            _ => read == written,
        },
        TypePlan::Structure(fields) => {
            &&& read is List
            &&& read->List_0@.len() == fields@.len()
            &&& forall|i: int|
                0 <= i < fields@.len() ==> agrees(
                    fields@[i],
                    written->List_0@[i],
                    #[trigger] read->List_0@[i],
                )
        },
    }
}

proof fn lemma_low_bytes(x: u64)
    ensures
        le_value(le_bytes(x as nat, 1)) == x % 0x100,
        le_value(le_bytes(x as nat, 2)) == x % 0x1_0000,
        le_value(le_bytes(x as nat, 4)) == x % 0x1_0000_0000,
        le_value(le_bytes(x as nat, 8)) == x,
{
    lemma_byte_ranges();
    le_bytes_keep_the_low_bytes(x as nat, 1);
    le_bytes_keep_the_low_bytes(x as nat, 2);
    le_bytes_keep_the_low_bytes(x as nat, 4);
    crate::bytes::le_bytes_read_back(x as nat, 8);
}

proof fn lemma_signed_agrees(size: u8, number: i64)
    ensures
        scalar_read(
            ScalarType::Signed(size),
            scalar_bytes(ScalarType::Signed(size), FfiValue::Integer(number)),
        ) == FfiValue::Integer(
            if size == 1 {
                number as i8 as i64
            } else if size == 2 {
                number as i16 as i64
            } else if size == 4 {
                number as i32 as i64
            } else {
                number
            },
        ),
{
    let x = number as u64;
    lemma_low_bytes(x);
    assert((x % 0x100) as u8 as i8 as i64 == number as i8 as i64) by (bit_vector)
        requires
            x == number as u64,
    ;
    assert((x % 0x1_0000) as u16 as i16 as i64 == number as i16 as i64) by (bit_vector)
        requires
            x == number as u64,
    ;
    assert((x % 0x1_0000_0000) as u32 as i32 as i64 == number as i32 as i64) by (bit_vector)
        requires
            x == number as u64,
    ;
    assert(x as i64 == number) by (bit_vector)
        requires
            x == number as u64,
    ;
}

proof fn lemma_unsigned_agrees(size: u8, address: u64)
    ensures
        scalar_read(
            ScalarType::Unsigned(size),
            scalar_bytes(ScalarType::Unsigned(size), FfiValue::Address(address)),
        ) == FfiValue::Address(
            if size == 1 {
                address as u8 as u64
            } else if size == 2 {
                address as u16 as u64
            } else if size == 4 {
                address as u32 as u64
            } else {
                address
            },
        ),
{
    lemma_low_bytes(address);
    assert(address % 0x100 == address as u8 as u64) by (bit_vector);
    assert(address % 0x1_0000 == address as u16 as u64) by (bit_vector);
    assert(address % 0x1_0000_0000 == address as u32 as u64) by (bit_vector);
}

proof fn lemma_scalar_agrees(kind: ScalarType, written: FfiValue)
    requires
        converted(TypePlan::Scalar(kind), written),
        value_problem(TypePlan::Scalar(kind), written) is None,
    ensures
        agrees(
            TypePlan::Scalar(kind),
            written,
            scalar_read(kind, scalar_bytes(kind, written)),
        ),
{
    let read = scalar_read(kind, scalar_bytes(kind, written));
    match kind {
        ScalarType::Void => {},
        ScalarType::Bool => {
            reveal_with_fuel(le_bytes, 2);
            assert(read == written);
        },
        ScalarType::Signed(size) => {
            lemma_signed_agrees(size, written->Integer_0);
        },
        ScalarType::Unsigned(size) => {
            lemma_unsigned_agrees(size, written->Address_0);
        },
        ScalarType::Pointer => {
            lemma_low_bytes(written->Address_0);
            assert(read == written);
        },
        ScalarType::Float => {
            lemma_low_bytes(written->FloatBits_0 as u64);
            assert(read == written);
        },
        ScalarType::Double => {
            lemma_low_bytes(written->DoubleBits_0);
            assert(read == written);
        },
    }
}

proof fn lemma_field_bytes_at(
    fields: Vec<TypePlan>,
    values: Seq<FfiValue>,
    count: nat,
    index: nat,
)
    requires
        index < count <= fields@.len(),
    ensures
        field_slice(fields, fields_bytes(fields, values, count), index as int) == value_bytes(
            fields@[index as int],
            values[index as int],
        ),
    decreases count,
{
    let last = (count - 1) as nat;
    let all = fields_bytes(fields, values, count);
    let front = fields_bytes(fields, values, last);
    lemma_fields_bytes_len(fields, values, last);
    lemma_fields_bytes_len(fields, values, count);
    fields_do_not_overlap(fields, last, count);
    value_bytes_have_the_size(fields@[last as int], values[last as int]);
    if index == last {
        assert(field_slice(fields, all, index as int) =~= value_bytes(
            fields@[index as int],
            values[index as int],
        ));
    } else {
        lemma_field_bytes_at(fields, values, last, index);
        fields_do_not_overlap(fields, index, last);
        assert(field_slice(fields, all, index as int) =~= field_slice(fields, front, index as int));
    }
}

proof fn lemma_no_field_problem(fields: Vec<TypePlan>, values: Seq<FfiValue>, count: nat, index: nat)
    requires
        index < count <= fields@.len(),
        fields_problem(fields, values, count) is None,
    ensures
        value_problem(fields@[index as int], values[index as int]) is None,
    decreases count,
{
    if index < count - 1 {
        lemma_no_field_problem(fields, values, (count - 1) as nat, index);
    }
}

proof fn lemma_structure_slice(fields: Vec<TypePlan>, written: FfiValue, index: int)
    requires
        0 <= index < fields@.len(),
    ensures
        field_slice(fields, value_bytes(TypePlan::Structure(fields), written), index)
            == value_bytes(fields@[index], written->List_0@[index]),
{
    let values = written->List_0@;
    let all = fields_bytes(fields, values, fields@.len());
    let bytes = value_bytes(TypePlan::Structure(fields), written);
    structure_holds_its_fields(fields, index as nat);
    lemma_field_bytes_at(fields, values, fields@.len(), index as nat);
    lemma_fields_bytes_len(fields, values, fields@.len());
    fields_do_not_overlap(fields, index as nat, fields@.len());
    assert(field_slice(fields, bytes, index) =~= field_slice(fields, all, index));
}

/// Reading a value gives back what was written, cut to its type, field by field.
pub proof fn read_gives_back_what_was_written(plan: TypePlan, written: FfiValue, read: FfiValue)
    requires
        converted(plan, written),
        value_problem(plan, written) is None,
        reads(plan, value_bytes(plan, written), read),
    ensures
        agrees(plan, written, read),
    decreases plan,
{
    match plan {
        TypePlan::Scalar(kind) => {
            value_bytes_have_the_size(plan, written);
            let bytes = scalar_bytes(kind, written);
            assert(bytes.take(scalar_size(kind) as int) =~= bytes);
            lemma_scalar_agrees(kind, written);
        },
        TypePlan::Structure(fields) => {
            let values = written->List_0@;
            assert(decreases_to!(plan => plan->Structure_0));
            assert forall|i: int| 0 <= i < fields@.len() implies agrees(
                fields@[i],
                values[i],
                #[trigger] read->List_0@[i],
            ) by {
                lemma_structure_slice(fields, written, i);
                lemma_no_field_problem(fields, values, fields@.len(), i as nat);
                assert(decreases_to!(fields => fields@[i]));
                assert(converted(fields@[i], values[i]));
                assert(reads(
                    fields@[i],
                    field_slice(fields, value_bytes(plan, written), i),
                    read->List_0@[i],
                ));
                read_gives_back_what_was_written(fields@[i], values[i], read->List_0@[i]);
            }
        },
    }
}

proof fn lemma_type_names()
    ensures
        scalar_type_named("char"@) == Some(ScalarType::Signed(1)),
        scalar_type_named("int8"@) == Some(ScalarType::Signed(1)),
        scalar_type_named("short"@) == Some(ScalarType::Signed(2)),
        scalar_type_named("int16"@) == Some(ScalarType::Signed(2)),
        scalar_type_named("int"@) == Some(ScalarType::Signed(4)),
        scalar_type_named("int32"@) == Some(ScalarType::Signed(4)),
        scalar_type_named("long"@) == Some(ScalarType::Signed(8)),
        scalar_type_named("int64"@) == Some(ScalarType::Signed(8)),
        scalar_type_named("ssize_t"@) == Some(ScalarType::Signed(8)),
        scalar_type_named("uchar"@) == Some(ScalarType::Unsigned(1)),
        scalar_type_named("uint8"@) == Some(ScalarType::Unsigned(1)),
        scalar_type_named("ushort"@) == Some(ScalarType::Unsigned(2)),
        scalar_type_named("uint16"@) == Some(ScalarType::Unsigned(2)),
        scalar_type_named("uint"@) == Some(ScalarType::Unsigned(4)),
        scalar_type_named("uint32"@) == Some(ScalarType::Unsigned(4)),
        scalar_type_named("ulong"@) == Some(ScalarType::Unsigned(8)),
        scalar_type_named("uint64"@) == Some(ScalarType::Unsigned(8)),
        scalar_type_named("size_t"@) == Some(ScalarType::Unsigned(8)),
        scalar_type_named("bool"@) == Some(ScalarType::Bool),
        scalar_type_named("pointer"@) == Some(ScalarType::Pointer),
        scalar_type_named("float"@) == Some(ScalarType::Float),
        scalar_type_named("double"@) == Some(ScalarType::Double),
        scalar_type_named("void"@) is None,
{
    reveal_strlit("bool");
    reveal_strlit("char");
    reveal_strlit("int8");
    reveal_strlit("uchar");
    reveal_strlit("uint8");
    reveal_strlit("short");
    reveal_strlit("int16");
    reveal_strlit("ushort");
    reveal_strlit("uint16");
    reveal_strlit("int");
    reveal_strlit("int32");
    reveal_strlit("uint");
    reveal_strlit("uint32");
    reveal_strlit("long");
    reveal_strlit("int64");
    reveal_strlit("ssize_t");
    reveal_strlit("ulong");
    reveal_strlit("uint64");
    reveal_strlit("size_t");
    reveal_strlit("pointer");
    reveal_strlit("float");
    reveal_strlit("double");
    reveal_strlit("void");
    assert("int"@.len() == 3);
    assert("bool"@.len() == 4);
    assert("char"@.len() == 4);
    assert("int8"@.len() == 4);
    assert("uint"@.len() == 4);
    assert("long"@.len() == 4);
    assert("void"@.len() == 4);
    assert("bool"@[0] != "char"@[0]);
    assert("bool"@[0] != "int8"@[0]);
    assert("bool"@[0] != "uint"@[0]);
    assert("bool"@[0] != "long"@[0]);
    assert("bool"@[0] != "void"@[0]);
    assert("char"@[0] != "int8"@[0]);
    assert("char"@[0] != "uint"@[0]);
    assert("char"@[0] != "long"@[0]);
    assert("char"@[0] != "void"@[0]);
    assert("int8"@[0] != "uint"@[0]);
    assert("int8"@[0] != "long"@[0]);
    assert("int8"@[0] != "void"@[0]);
    assert("uint"@[0] != "long"@[0]);
    assert("uint"@[0] != "void"@[0]);
    assert("long"@[0] != "void"@[0]);
    assert("uchar"@.len() == 5);
    assert("uint8"@.len() == 5);
    assert("short"@.len() == 5);
    assert("int16"@.len() == 5);
    assert("int32"@.len() == 5);
    assert("int64"@.len() == 5);
    assert("ulong"@.len() == 5);
    assert("float"@.len() == 5);
    assert("uchar"@[1] != "uint8"@[1]);
    assert("uchar"@[0] != "short"@[0]);
    assert("uchar"@[0] != "int16"@[0]);
    assert("uchar"@[0] != "int32"@[0]);
    assert("uchar"@[0] != "int64"@[0]);
    assert("uchar"@[1] != "ulong"@[1]);
    assert("uchar"@[0] != "float"@[0]);
    assert("uint8"@[0] != "short"@[0]);
    assert("uint8"@[0] != "int16"@[0]);
    assert("uint8"@[0] != "int32"@[0]);
    assert("uint8"@[0] != "int64"@[0]);
    assert("uint8"@[1] != "ulong"@[1]);
    assert("uint8"@[0] != "float"@[0]);
    assert("short"@[0] != "int16"@[0]);
    assert("short"@[0] != "int32"@[0]);
    assert("short"@[0] != "int64"@[0]);
    assert("short"@[0] != "ulong"@[0]);
    assert("short"@[0] != "float"@[0]);
    assert("int16"@[3] != "int32"@[3]);
    assert("int16"@[3] != "int64"@[3]);
    assert("int16"@[0] != "ulong"@[0]);
    assert("int16"@[0] != "float"@[0]);
    assert("int32"@[3] != "int64"@[3]);
    assert("int32"@[0] != "ulong"@[0]);
    assert("int32"@[0] != "float"@[0]);
    assert("int64"@[0] != "ulong"@[0]);
    assert("int64"@[0] != "float"@[0]);
    assert("ulong"@[0] != "float"@[0]);
    assert("ushort"@.len() == 6);
    assert("uint16"@.len() == 6);
    assert("uint32"@.len() == 6);
    assert("uint64"@.len() == 6);
    assert("size_t"@.len() == 6);
    assert("double"@.len() == 6);
    assert("ushort"@[1] != "uint16"@[1]);
    assert("ushort"@[1] != "uint32"@[1]);
    assert("ushort"@[1] != "uint64"@[1]);
    assert("ushort"@[0] != "size_t"@[0]);
    assert("ushort"@[0] != "double"@[0]);
    assert("uint16"@[4] != "uint32"@[4]);
    assert("uint16"@[4] != "uint64"@[4]);
    assert("uint16"@[0] != "size_t"@[0]);
    assert("uint16"@[0] != "double"@[0]);
    assert("uint32"@[4] != "uint64"@[4]);
    assert("uint32"@[0] != "size_t"@[0]);
    assert("uint32"@[0] != "double"@[0]);
    assert("uint64"@[0] != "size_t"@[0]);
    assert("uint64"@[0] != "double"@[0]);
    assert("size_t"@[0] != "double"@[0]);
    assert("ssize_t"@.len() == 7);
    assert("pointer"@.len() == 7);
    assert("ssize_t"@[0] != "pointer"@[0]);
}

/// Named types have the sizes that their names say: one byte for `int8`, `uint8`, `char`
/// and `uchar`, two for those of sixteen bits, four for those of thirty-two, and eight for
/// those of sixty-four and for those that are as wide as a pointer.
pub proof fn named_types_have_their_sizes(name: String, allow_void: bool, plan: TypePlan)
    requires
        describes(ScriptType::Name(name), allow_void, plan),
    ensures
        name@ == "int8"@ || name@ == "uint8"@ || name@ == "char"@ || name@ == "uchar"@ || name@
            == "bool"@ ==> plan_size(plan) == 1,
        name@ == "int16"@ || name@ == "uint16"@ || name@ == "short"@ || name@ == "ushort"@
            ==> plan_size(plan) == 2,
        name@ == "int32"@ || name@ == "uint32"@ || name@ == "int"@ || name@ == "uint"@ || name@
            == "float"@ ==> plan_size(plan) == 4,
        name@ == "int64"@ || name@ == "uint64"@ || name@ == "long"@ || name@ == "ulong"@ || name@
            == "size_t"@ || name@ == "ssize_t"@ || name@ == "pointer"@ || name@ == "double"@
            ==> plan_size(plan) == 8,
        plan_alignment(plan) == plan_size(plan),
{
    lemma_type_names();
}

/// The names of types, and no other text, stand for a type; `void` does so only where
/// nothing is returned. Of any other text the message tells which one it was.
pub proof fn only_type_names_stand_for_types(name: Seq<char>, allow_void: bool)
    ensures
        scalar_type_of(name, allow_void) is Ok <==> {
            ||| name == "bool"@
            ||| name == "char"@ || name == "short"@ || name == "int"@ || name == "long"@
            ||| name == "uchar"@ || name == "ushort"@ || name == "uint"@ || name == "ulong"@
            ||| name == "int8"@ || name == "int16"@ || name == "int32"@ || name == "int64"@
            ||| name == "uint8"@ || name == "uint16"@ || name == "uint32"@ || name == "uint64"@
            ||| name == "size_t"@ || name == "ssize_t"@ || name == "pointer"@
            ||| name == "float"@ || name == "double"@
            ||| (name == "void"@ && allow_void)
        },
        name == "void"@ && !allow_void ==> scalar_type_of(name, allow_void) == Err::<
            ScalarType,
            Seq<char>,
        >("'void' can only be the return type"@),
        name != "void"@ && scalar_type_of(name, allow_void) is Err ==> scalar_type_of(
            name,
            allow_void,
        )->Err_0 == "unknown type '"@ + name + "'"@,
{
    lemma_type_names();
}

/// What is written under the name of a signed type is read back unchanged if it is in the
/// range of that many bits, and comes back as the number of that range that differs by a
/// multiple of it otherwise.
pub proof fn signed_numbers_survive_under_their_names(
    name: String,
    allow_void: bool,
    plan: TypePlan,
    number: i64,
    read: FfiValue,
)
    requires
        describes(ScriptType::Name(name), allow_void, plan),
        reads(plan, value_bytes(plan, FfiValue::Integer(number)), read),
    ensures
        name@ == "int64"@ || name@ == "long"@ || name@ == "ssize_t"@ ==> read == FfiValue::Integer(
            number,
        ),
        name@ == "int32"@ || name@ == "int"@ ==> {
            &&& read is Integer
            &&& -0x8000_0000 <= read->Integer_0 < 0x8000_0000
            &&& (read->Integer_0 - number) % 0x1_0000_0000 == 0
            &&& -0x8000_0000 <= number < 0x8000_0000 ==> read->Integer_0 == number
        },
        name@ == "int16"@ || name@ == "short"@ ==> {
            &&& read is Integer
            &&& -0x8000 <= read->Integer_0 < 0x8000
            &&& (read->Integer_0 - number) % 0x1_0000 == 0
            &&& -0x8000 <= number < 0x8000 ==> read->Integer_0 == number
        },
        name@ == "int8"@ || name@ == "char"@ ==> {
            &&& read is Integer
            &&& -0x80 <= read->Integer_0 < 0x80
            &&& (read->Integer_0 - number) % 0x100 == 0
            &&& -0x80 <= number < 0x80 ==> read->Integer_0 == number
        },
{
    lemma_type_names();
    if plan is Scalar && plan->Scalar_0 is Signed {
        let kind = plan->Scalar_0;
        value_bytes_have_the_size(plan, FfiValue::Integer(number));
        let bytes = value_bytes(plan, FfiValue::Integer(number));
        assert(bytes.take(scalar_size(kind) as int) =~= bytes);
        lemma_signed_range(kind->Signed_0, number);
    }
}

proof fn lemma_signed_range(size: u8, number: i64)
    ensures
        ({
            let kind = ScalarType::Signed(size);
            let read = scalar_read(kind, scalar_bytes(kind, FfiValue::Integer(number)));
            &&& read is Integer
            &&& size == 1 ==> read->Integer_0 == (number + 0x80) % 0x100 - 0x80
            &&& size == 2 ==> read->Integer_0 == (number + 0x8000) % 0x1_0000 - 0x8000
            &&& size == 4 ==> read->Integer_0 == (number + 0x8000_0000) % 0x1_0000_0000
                - 0x8000_0000
            &&& size == 8 ==> read->Integer_0 == number
        }),
{
    lemma_signed_agrees(size, number);
    assert(number as i8 == (number + 0x80) % 0x100 - 0x80) by (bit_vector);
    assert(number as i16 == (number + 0x8000) % 0x1_0000 - 0x8000) by (bit_vector);
    assert(number as i32 == (number + 0x8000_0000) % 0x1_0000_0000 - 0x8000_0000) by (bit_vector);
}

/// What is written under the name of an unsigned type is read back as its remainder by the
/// range of that many bits, and so unchanged if it is in that range; an address is always
/// read back unchanged.
pub proof fn unsigned_numbers_survive_under_their_names(
    name: String,
    allow_void: bool,
    plan: TypePlan,
    number: u64,
    read: FfiValue,
)
    requires
        describes(ScriptType::Name(name), allow_void, plan),
        reads(plan, value_bytes(plan, FfiValue::Address(number)), read),
    ensures
        name@ == "uint64"@ || name@ == "ulong"@ || name@ == "size_t"@ || name@ == "pointer"@
            ==> read == FfiValue::Address(number),
        name@ == "uint32"@ || name@ == "uint"@ ==> read == FfiValue::Address(
            number % 0x1_0000_0000,
        ),
        name@ == "uint16"@ || name@ == "ushort"@ ==> read == FfiValue::Address(number % 0x1_0000),
        name@ == "uint8"@ || name@ == "uchar"@ ==> read == FfiValue::Address(number % 0x100),
{
    lemma_type_names();
    casts_keep_the_low_bits(number, 0);
    lemma_low_bytes(number);
    value_bytes_have_the_size(plan, FfiValue::Address(number));
    if plan is Scalar {
        let bytes = value_bytes(plan, FfiValue::Address(number));
        assert(bytes.take(scalar_size(plan->Scalar_0) as int) =~= bytes);
    }
}

/// Truth values and numbers with a fraction are read back unchanged under their names.
pub proof fn other_scalars_survive_under_their_names(
    name: String,
    plan: TypePlan,
    written: FfiValue,
    read: FfiValue,
)
    requires
        describes(ScriptType::Name(name), false, plan),
        reads(plan, value_bytes(plan, written), read),
    ensures
        name@ == "bool"@ && written is Bool ==> read == written,
        name@ == "float"@ && written is FloatBits ==> read == written,
        name@ == "double"@ && written is DoubleBits ==> read == written,
{
    lemma_type_names();
    value_bytes_have_the_size(plan, written);
    if plan is Scalar {
        let bytes = value_bytes(plan, written);
        assert(bytes.take(scalar_size(plan->Scalar_0) as int) =~= bytes);
        if converted(plan, written) && value_problem(plan, written) is None {
            lemma_scalar_agrees(plan->Scalar_0, written);
        }
    }
}

/// A scalar lies in memory low byte first: an integer modulo the range of its size, a truth
/// value as one or zero, and a number with a fraction as its bits.
pub proof fn scalars_lie_low_byte_first(kind: ScalarType, value: FfiValue)
    ensures
        kind is Signed && value is Integer ==> {
            let stored = le_value(value_bytes(TypePlan::Scalar(kind), value)) as int;
            let number = value->Integer_0 as int;
            &&& kind->Signed_0 == 1 ==> stored == number % 0x100
            &&& kind->Signed_0 == 2 ==> stored == number % 0x1_0000
            &&& kind->Signed_0 == 4 ==> stored == number % 0x1_0000_0000
            &&& kind->Signed_0 == 8 ==> stored == number % 0x1_0000_0000_0000_0000
        },
        kind is Unsigned && value is Address ==> {
            let stored = le_value(value_bytes(TypePlan::Scalar(kind), value)) as int;
            let number = value->Address_0 as int;
            &&& kind->Unsigned_0 == 1 ==> stored == number % 0x100
            &&& kind->Unsigned_0 == 2 ==> stored == number % 0x1_0000
            &&& kind->Unsigned_0 == 4 ==> stored == number % 0x1_0000_0000
            &&& kind->Unsigned_0 == 8 ==> stored == number
        },
        kind is Pointer && value is Address ==> le_value(
            value_bytes(TypePlan::Scalar(kind), value),
        ) == value->Address_0,
        kind is Bool && value is Bool ==> le_value(value_bytes(TypePlan::Scalar(kind), value)) == (
        if value->Bool_0 {
            1nat
        } else {
            0nat
        }),
        kind is Float && value is FloatBits ==> le_value(value_bytes(TypePlan::Scalar(kind), value))
            == value->FloatBits_0,
        kind is Double && value is DoubleBits ==> le_value(
            value_bytes(TypePlan::Scalar(kind), value),
        ) == value->DoubleBits_0,
{
    match kind {
        ScalarType::Signed(_) => {
            let number = value->Integer_0;
            lemma_low_bytes(number as u64);
            assert(number as u64 == number as int % 0x1_0000_0000_0000_0000int) by {
                casts_keep_the_low_bits(0, number);
            }
            let n = number as int;
            vstd::arithmetic::div_mod::lemma_mod_mod(n, 0x100, 0x100_0000_0000_0000);
            vstd::arithmetic::div_mod::lemma_mod_mod(n, 0x1_0000, 0x1_0000_0000_0000);
            vstd::arithmetic::div_mod::lemma_mod_mod(n, 0x1_0000_0000, 0x1_0000_0000);
        },
        ScalarType::Unsigned(_) | ScalarType::Pointer => {
            lemma_low_bytes(value->Address_0);
        },
        ScalarType::Float => {
            lemma_low_bytes(value->FloatBits_0 as u64);
        },
        ScalarType::Double => {
            lemma_low_bytes(value->DoubleBits_0);
        },
        _ => {
            lemma_low_bytes(0);
            lemma_low_bytes(1);
        },
    }
}

/// Small types are widened for a variadic argument and no others are: truth values and
/// integers under four bytes become integers of four bytes with the same sign, and `float`
/// becomes `double`.
pub proof fn promotion_widens_small_types(kind: ScalarType)
    ensures
        kind is Bool ==> promoted_plan(TypePlan::Scalar(kind)) == TypePlan::Scalar(
            ScalarType::Signed(4),
        ),
        kind is Float ==> promoted_plan(TypePlan::Scalar(kind)) == TypePlan::Scalar(
            ScalarType::Double,
        ),
        kind is Signed && kind->Signed_0 < 4 ==> promoted_plan(TypePlan::Scalar(kind))
            == TypePlan::Scalar(ScalarType::Signed(4)),
        kind is Unsigned && kind->Unsigned_0 < 4 ==> promoted_plan(TypePlan::Scalar(kind))
            == TypePlan::Scalar(ScalarType::Unsigned(4)),
        plan_size(promoted_plan(TypePlan::Scalar(kind))) >= 4 || kind is Void,
        kind is Signed && kind->Signed_0 >= 4 || kind is Unsigned && kind->Unsigned_0 >= 4 || kind
            is Pointer || kind is Double || kind is Void ==> promoted_plan(TypePlan::Scalar(kind))
            == TypePlan::Scalar(kind),
        forall|fields: Vec<TypePlan>|
            #[trigger] promoted_plan(TypePlan::Structure(fields)) == TypePlan::Structure(fields),
{
}

/// Fields stand as close as their alignment lets them: the first at the beginning, and
/// each other one at the first multiple of its alignment behind the one before it.
pub proof fn fields_stand_close(fields: Vec<TypePlan>, index: nat)
    requires
        index < fields@.len(),
    ensures
        index == 0 ==> field_offset(fields, index) == 0,
        field_offset(fields, index) % plan_alignment(fields@[index as int]) == 0,
        index > 0 ==> {
            let before = field_offset(fields, (index - 1) as nat) + plan_size(
                fields@[index - 1],
            );
            before <= field_offset(fields, index) < before + plan_alignment(fields@[index as int])
        },
{
    alignment_is_small(fields@[index as int]);
    lemma_round_up(fields_end(fields, index), plan_alignment(fields@[index as int]));
    vstd::arithmetic::div_mod::lemma_small_mod(0, plan_alignment(fields@[index as int]));
}

/// A structure is aligned as its most aligned field is, and ends at the first multiple of
/// that alignment behind its last field; one without fields takes one byte.
pub proof fn structures_end_close(fields: Vec<TypePlan>)
    ensures
        fields@.len() == 0 ==> plan_size(TypePlan::Structure(fields)) == 1 && plan_alignment(
            TypePlan::Structure(fields),
        ) == 1,
        forall|i: int|
            0 <= i < fields@.len() ==> plan_alignment(#[trigger] fields@[i]) <= plan_alignment(
                TypePlan::Structure(fields),
            ),
        fields@.len() > 0 ==> exists|i: int|
            0 <= i < fields@.len() && plan_alignment(#[trigger] fields@[i]) == plan_alignment(
                TypePlan::Structure(fields),
            ),
        fields@.len() > 0 ==> {
            let last = (fields@.len() - 1) as nat;
            let end = field_offset(fields, last) + plan_size(fields@[last as int]);
            &&& end <= plan_size(TypePlan::Structure(fields)) < end + plan_alignment(
                TypePlan::Structure(fields),
            )
            &&& plan_size(TypePlan::Structure(fields)) % plan_alignment(
                TypePlan::Structure(fields),
            ) == 0
        },
{
    lemma_fields_alignment_small(fields, fields@.len());
    lemma_round_up(fields_end(fields, fields@.len()), fields_alignment(fields, fields@.len()));
    lemma_alignment_is_the_largest(fields, fields@.len());
    if fields@.len() > 0 {
        lemma_size_is_positive(fields@[fields@.len() - 1]);
    }
}

proof fn lemma_size_is_positive(plan: TypePlan)
    ensures
        plan_size(plan) >= 1,
{
}

proof fn lemma_alignment_is_the_largest(fields: Vec<TypePlan>, count: nat)
    requires
        count <= fields@.len(),
    ensures
        forall|i: int|
            0 <= i < count ==> plan_alignment(#[trigger] fields@[i]) <= fields_alignment(
                fields,
                count,
            ),
        count > 0 ==> exists|i: int|
            0 <= i < count && plan_alignment(#[trigger] fields@[i]) == fields_alignment(
                fields,
                count,
            ),
    decreases count,
{
    if count > 0 {
        let front = (count - 1) as nat;
        lemma_alignment_is_the_largest(fields, front);
        alignment_is_small(fields@[front as int]);
        if front > 0 && fields_alignment(fields, front) >= plan_alignment(fields@[front as int]) {
            let i = choose|i: int|
                0 <= i < front && plan_alignment(#[trigger] fields@[i]) == fields_alignment(
                    fields,
                    front,
                );
            assert(plan_alignment(fields@[i]) == fields_alignment(fields, count));
        } else {
            assert(plan_alignment(fields@[front as int]) == fields_alignment(fields, count));
        }
    }
}

/// A structure's value holds each field's value at that field's place.
pub proof fn structures_hold_their_values(fields: Vec<TypePlan>, value: FfiValue, index: int)
    requires
        0 <= index < fields@.len(),
    ensures
        value_bytes(TypePlan::Structure(fields), value).subrange(
            field_offset(fields, index as nat) as int,
            (field_offset(fields, index as nat) + plan_size(fields@[index])) as int,
        ) == value_bytes(fields@[index], value->List_0@[index]),
{
    lemma_structure_slice(fields, value, index);
}

/// What lies between and behind the fields of a structure's value is zero.
pub proof fn padding_is_zero(fields: Vec<TypePlan>, value: FfiValue, place: int)
    requires
        0 <= place < plan_size(TypePlan::Structure(fields)),
        forall|i: int|
            0 <= i < fields@.len() ==> place < #[trigger] field_offset(fields, i as nat)
                || field_offset(fields, i as nat) + plan_size(fields@[i]) <= place,
    ensures
        value_bytes(TypePlan::Structure(fields), value)[place] == 0,
{
    lemma_fields_bytes_len(fields, value->List_0@, fields@.len());
    if place < fields_end(fields, fields@.len()) {
        lemma_gap_is_zero(fields, value->List_0@, fields@.len(), place);
    }
}

proof fn lemma_gap_is_zero(fields: Vec<TypePlan>, values: Seq<FfiValue>, count: nat, place: int)
    requires
        count <= fields@.len(),
        0 <= place < fields_end(fields, count),
        forall|i: int|
            0 <= i < fields@.len() ==> place < #[trigger] field_offset(fields, i as nat)
                || field_offset(fields, i as nat) + plan_size(fields@[i]) <= place,
    ensures
        fields_bytes(fields, values, count)[place] == 0,
    decreases count,
{
    if count > 0 {
        let front = (count - 1) as nat;
        lemma_fields_bytes_len(fields, values, front);
        fields_do_not_overlap(fields, front, count);
        let offset = field_offset(fields, front);
        assert(place < offset || offset + plan_size(fields@[front as int]) <= place);
        if place < fields_end(fields, front) {
            lemma_gap_is_zero(fields, values, front, place);
        }
    }
}

/// A type lies in memory as size, alignment, kind and elements, at the places 0, 8, 10 and
/// 16 of its twenty-four bytes.
pub proof fn types_lie_in_order(kind: FfiType)
    ensures
        type_layout(kind).len() == 24,
        le_value(type_layout(kind).subrange(0, 8)) == kind.size,
        le_value(type_layout(kind).subrange(8, 10)) == kind.alignment,
        le_value(type_layout(kind).subrange(10, 12)) == kind.kind,
        le_value(type_layout(kind).subrange(12, 16)) == 0,
        le_value(type_layout(kind).subrange(16, 24)) == kind.elements,
{
    let all = type_layout(kind);
    lemma_low_bytes(kind.size);
    lemma_low_bytes(kind.alignment as u64);
    lemma_low_bytes(kind.kind as u64);
    lemma_low_bytes(kind.elements);
    lemma_low_bytes(0);
    lemma_le_bytes_len(kind.size as nat, 8);
    lemma_le_bytes_len(kind.alignment as nat, 2);
    lemma_le_bytes_len(kind.kind as nat, 2);
    lemma_le_bytes_len(0, 4);
    lemma_le_bytes_len(kind.elements as nat, 8);
    assert(all.subrange(0, 8) =~= le_bytes(kind.size as nat, 8));
    assert(all.subrange(8, 10) =~= le_bytes(kind.alignment as nat, 2));
    assert(all.subrange(10, 12) =~= le_bytes(kind.kind as nat, 2));
    assert(all.subrange(12, 16) =~= le_bytes(0, 4));
    assert(all.subrange(16, 24) =~= le_bytes(kind.elements as nat, 8));
}

/// A call interface lies in memory as convention, number of arguments, their types, the
/// returned type, size and flags, at the places 0, 4, 8, 16, 24 and 28 of its thirty-two
/// bytes.
pub proof fn interfaces_lie_in_order(cif: FfiCif)
    ensures
        interface_layout(cif).len() == 32,
        le_value(interface_layout(cif).subrange(0, 4)) == cif.abi,
        le_value(interface_layout(cif).subrange(4, 8)) == cif.nargs,
        le_value(interface_layout(cif).subrange(8, 16)) == cif.arg_types,
        le_value(interface_layout(cif).subrange(16, 24)) == cif.return_type,
        le_value(interface_layout(cif).subrange(24, 28)) == cif.bytes,
        le_value(interface_layout(cif).subrange(28, 32)) == cif.flags,
{
    let all = interface_layout(cif);
    lemma_low_bytes(cif.abi as u64);
    lemma_low_bytes(cif.nargs as u64);
    lemma_low_bytes(cif.arg_types);
    lemma_low_bytes(cif.return_type);
    lemma_low_bytes(cif.bytes as u64);
    lemma_low_bytes(cif.flags as u64);
    lemma_le_bytes_len(cif.abi as nat, 4);
    lemma_le_bytes_len(cif.nargs as nat, 4);
    lemma_le_bytes_len(cif.arg_types as nat, 8);
    lemma_le_bytes_len(cif.return_type as nat, 8);
    lemma_le_bytes_len(cif.bytes as nat, 4);
    lemma_le_bytes_len(cif.flags as nat, 4);
    assert(all.subrange(0, 4) =~= le_bytes(cif.abi as nat, 4));
    assert(all.subrange(4, 8) =~= le_bytes(cif.nargs as nat, 4));
    assert(all.subrange(8, 16) =~= le_bytes(cif.arg_types as nat, 8));
    assert(all.subrange(16, 24) =~= le_bytes(cif.return_type as nat, 8));
    assert(all.subrange(24, 28) =~= le_bytes(cif.bytes as nat, 4));
    assert(all.subrange(28, 32) =~= le_bytes(cif.flags as nat, 4));
}

fn pad_to(bytes: &mut Vec<u8>, length: usize)
    ensures
        final(bytes)@ == zero_extended(old(bytes)@, length as nat),
{
    let ghost before = bytes@;
    while bytes.len() < length
        invariant
            bytes@.len() >= before.len(),
            bytes@.len() <= length || bytes@ == before,
            bytes@ == before + Seq::new((bytes@.len() - before.len()) as nat, |i: int| 0u8),
        decreases length - bytes@.len(),
    {
        bytes.push(0u8);
        assert(bytes@ =~= before + Seq::new((bytes@.len() - before.len()) as nat, |i: int| 0u8));
    }
    assert(bytes@ =~= zero_extended(before, length as nat));
}

fn write_scalar(kind: ScalarType, value: &FfiValue) -> (result: Result<Vec<u8>, ScriptError>)
    requires
        converted(TypePlan::Scalar(kind), *value),
    ensures
        result is Err <==> value_problem(TypePlan::Scalar(kind), *value) is Some,
        result matches Err(error) ==> value_problem(TypePlan::Scalar(kind), *value) == Some(
            error@,
        ),
        result matches Ok(bytes) ==> bytes@ == scalar_bytes(kind, *value),
{
    match (kind, value) {
        (ScalarType::Void, _) => {},
        (_, FfiValue::Failed(error)) => {
            return Err(error.again());
        },
        _ => {},
    }
    let mut bytes: Vec<u8> = Vec::new();
    let width: usize = scalar_width(kind);
    let raw: u64 = match kind {
        ScalarType::Void => 0,
        ScalarType::Bool => match value {
            FfiValue::Bool(flag) => if *flag {
                1
            } else {
                0
            },
            _ => 0,
        },
        ScalarType::Signed(_) => match value {
            FfiValue::Integer(number) => *number as u64,
            _ => {
                return Err(type_error("native integer argument expected"));
            },
        },
        ScalarType::Unsigned(_) | ScalarType::Pointer => match value {
            FfiValue::Address(address) => *address,
            _ => 0,
        },
        ScalarType::Float => match value {
            FfiValue::FloatBits(bits) => *bits as u64,
            _ => 0,
        },
        ScalarType::Double => match value {
            FfiValue::DoubleBits(bits) => *bits,
            _ => 0,
        },
    };
    push_le(&mut bytes, raw, width);
    assert(bytes@ =~= scalar_bytes(kind, *value));
    Ok(bytes)
}

/// Writes a value in the layout of its type.
pub fn write_value(plan: &TypePlan, value: &FfiValue) -> (result: Result<Vec<u8>, ScriptError>)
    requires
        plan_size(*plan) <= usize::MAX,
        converted(*plan, *value),
    ensures
        result is Err <==> value_problem(*plan, *value) is Some,
        result matches Err(error) ==> value_problem(*plan, *value) == Some(error@),
        result matches Ok(bytes) ==> bytes@ == value_bytes(*plan, *value),
    decreases plan,
{
    match plan {
        TypePlan::Scalar(kind) => write_scalar(*kind, value),
        TypePlan::Structure(fields) => {
            let values: &Vec<FfiValue> = match value {
                FfiValue::List(values) => values,
                FfiValue::Failed(error) => {
                    return Err(error.again());
                },
                _ => {
                    return Err(type_error("struct value must be an array"));
                },
            };
            if values.len() > MAX_ARGUMENTS {
                return Err(range_error("invalid array length"));
            }
            if values.len() != fields.len() {
                return Err(type_error("provided array length does not match number of fields"));
            }
            let mut bytes: Vec<u8> = Vec::new();
            let mut i: usize = 0;
            while i < fields.len()
                invariant
                    i <= fields@.len() <= MAX_ARGUMENTS,
                    *plan == TypePlan::Structure(*fields),
                    *value == FfiValue::List(*values),
                    values@.len() == fields@.len(),
                    plan_size(*plan) <= usize::MAX,
                    converted(*plan, *value),
                    fields_problem(*fields, values@, i as nat) is None,
                    bytes@ == fields_bytes(*fields, values@, i as nat),
                decreases fields@.len() - i,
            {
                proof {
                    structure_holds_its_fields(*fields, i as nat);
                    lemma_fields_bytes_len(*fields, values@, i as nat);
                    assert(decreases_to!(*plan => plan->Structure_0));
                    assert(decreases_to!(*fields => fields@[i as int]));
                    assert(converted(fields@[i as int], values@[i as int]));
                }
                let alignment: usize = fields[i].alignment();
                let offset: usize = next_multiple(bytes.len(), alignment);
                pad_to(&mut bytes, offset);
                match write_value(&fields[i], &values[i]) {
                    Ok(mut field) => {
                        bytes.append(&mut field);
                    },
                    Err(error) => {
                        proof {
                            lemma_fields_problem_stays(
                                *fields,
                                values@,
                                (i + 1) as nat,
                                fields@.len(),
                            );
                        }
                        return Err(error);
                    },
                }
                i = i + 1;
            }
            let size: usize = plan.size();
            pad_to(&mut bytes, size);
            Ok(bytes)
        },
    }
}

proof fn lemma_fields_problem_stays(
    fields: Vec<TypePlan>,
    values: Seq<FfiValue>,
    small: nat,
    large: nat,
)
    requires
        small <= large <= fields@.len(),
        fields_problem(fields, values, small) is Some,
    ensures
        fields_problem(fields, values, large) == fields_problem(fields, values, small),
    decreases large,
{
    if small < large {
        lemma_fields_problem_stays(fields, values, small, (large - 1) as nat);
    }
}

impl NativeFfiSignature {
    /// The type of the value at a position.
    pub open spec fn plan_at(&self, index: int) -> TypePlan {
        self.arguments@[self.plan_index(index)]
    }

    /// Whether the values of a call have been converted as their types ask for.
    pub open spec fn values_converted(&self, values: Seq<FfiValue>) -> bool {
        self.accepts_count(values.len() as int) ==> forall|i: int|
            0 <= i < values.len() ==> converted(self.plan_at(i), #[trigger] values[i])
    }

    /// Why the first of `count` values that cannot be written cannot be.
    pub open spec fn values_problem(&self, values: Seq<FfiValue>, count: nat) -> Option<
        (ErrorKind, Seq<char>),
    >
        decreases count,
    {
        if count == 0 {
            None
        } else {
            match self.values_problem(values, (count - 1) as nat) {
                Some(problem) => Some(problem),
                None => value_problem(self.plan_at(count - 1), values[count - 1]),
            }
        }
    }

    /// The bytes of an argument. Arguments without a value are zeros.
    pub open spec fn argument_bytes(&self, values: Seq<FfiValue>, index: int) -> Seq<u8> {
        if index < values.len() {
            value_bytes(self.plan_at(index), values[index])
        } else {
            zero_extended(seq![], plan_size(self.plan_at(index)))
        }
    }

    proof fn lemma_values_problem_stays(&self, values: Seq<FfiValue>, small: nat, large: nat)
        requires
            small <= large,
            self.values_problem(values, small) is Some,
        ensures
            self.values_problem(values, large) == self.values_problem(values, small),
        decreases large,
    {
        if small < large {
            self.lemma_values_problem_stays(values, small, (large - 1) as nat);
        }
    }

    /// Lays the arguments of a call out in memory, each in a piece of its own.
    pub fn marshal_arguments(&self, values: &Vec<FfiValue>) -> (result: Result<
        Vec<Vec<u8>>,
        ScriptError,
    >)
        requires
            self.wf(),
            self.values_converted(values@),
            forall|i: int|
                0 <= i < self.arguments@.len() ==> plan_size(#[trigger] self.arguments@[i])
                    <= usize::MAX,
        ensures
            result is Ok <==> self.accepts_count(values@.len() as int) && self.values_problem(
                values@,
                values@.len(),
            ) is None,
            result matches Ok(buffers) ==> {
                &&& buffers@.len() == self.native_count(values@.len() as int)
                &&& forall|i: int|
                    0 <= i < buffers@.len() ==> (#[trigger] buffers@[i])@ == self.argument_bytes(
                        values@,
                        i,
                    )
            },
            result matches Err(error) ==> error@ == if self.accepts_count(values@.len() as int) {
                self.values_problem(values@, values@.len())->0
            } else {
                (ErrorKind::TypeError, "bad native argument count"@)
            },
    {
        let native_count: usize = match self.check_count(values.len()) {
            Ok(count) => count,
            Err(error) => {
                return Err(error);
            },
        };
        let mut buffers: Vec<Vec<u8>> = Vec::new();
        let mut i: usize = 0;
        while i < native_count
            invariant
                self.wf(),
                self.accepts_count(values@.len() as int),
                self.values_converted(values@),
                native_count == self.native_count(values@.len() as int),
                i <= native_count,
                forall|k: int|
                    0 <= k < self.arguments@.len() ==> plan_size(#[trigger] self.arguments@[k])
                        <= usize::MAX,
                i <= values@.len() ==> self.values_problem(values@, i as nat) is None,
                i >= values@.len() ==> self.values_problem(values@, values@.len()) is None,
                buffers@.len() == i,
                forall|k: int|
                    0 <= k < i ==> (#[trigger] buffers@[k])@ == self.argument_bytes(values@, k),
            decreases native_count - i,
        {
            let plan: &TypePlan = self.plan_for_argument(i);
            assert(plan_size(self.arguments@[self.plan_index(i as int)]) <= usize::MAX);
            if i < values.len() {
                assert(converted(self.plan_at(i as int), values@[i as int]));
                match write_value(plan, &values[i]) {
                    Ok(bytes) => {
                        buffers.push(bytes);
                    },
                    Err(error) => {
                        proof {
                            self.lemma_values_problem_stays(
                                values@,
                                (i + 1) as nat,
                                values@.len(),
                            );
                        }
                        return Err(error);
                    },
                }
            } else {
                let mut bytes: Vec<u8> = Vec::new();
                let size: usize = plan.size();
                pad_to(&mut bytes, size);
                buffers.push(bytes);
            }
            i = i + 1;
        }
        Ok(buffers)
    }
}

/// Of the values that cannot be written the first is told; those behind it are not looked
/// at.
pub proof fn the_first_bad_argument_is_told(
    signature: NativeFfiSignature,
    values: Seq<FfiValue>,
    index: int,
)
    requires
        0 <= index < values.len(),
        forall|k: int|
            0 <= k < index ==> value_problem(signature.plan_at(k), #[trigger] values[k]) is None,
        value_problem(signature.plan_at(index), values[index]) is Some,
    ensures
        signature.values_problem(values, values.len()) == value_problem(
            signature.plan_at(index),
            values[index],
        ),
{
    lemma_no_values_problem(signature, values, index as nat);
    signature.lemma_values_problem_stays(values, (index + 1) as nat, values.len());
}

proof fn lemma_no_values_problem(
    signature: NativeFfiSignature,
    values: Seq<FfiValue>,
    count: nat,
)
    requires
        count <= values.len(),
        forall|k: int|
            0 <= k < count ==> value_problem(signature.plan_at(k), #[trigger] values[k]) is None,
    ensures
        signature.values_problem(values, count) is None,
    decreases count,
{
    if count > 0 {
        lemma_no_values_problem(signature, values, (count - 1) as nat);
        assert(value_problem(signature.plan_at(count - 1), values[count - 1]) is None);
    }
}

/// A call that is ready to be made.
#[derive(Debug)]
pub struct FfiCall {
    pub address: u64,
    pub arguments: Vec<Vec<u8>>,
    /// Whether the call has more arguments than its signature and needs an interface of
    /// its own.
    pub own_interface: bool,
}

/// Why a call of a native function is refused. What does not convert comes as the error
/// for it.
pub open spec fn call_problem(
    argument_count: usize,
    signature: Option<NativeFfiSignature>,
    address: Result<u64, ScriptError>,
    values: FfiValue,
) -> Option<(ErrorKind, Seq<char>)> {
    if argument_count < 7 {
        Some((ErrorKind::TypeError, "invalid native FFI call"@))
    } else if signature is None {
        Some((ErrorKind::TypeError, "invalid native FFI signature"@))
    } else if address is Err {
        Some(address->Err_0@)
    } else {
        match values {
            FfiValue::Failed(error) => Some(error@),
            FfiValue::List(list) => if list@.len() > MAX_ARGUMENTS {
                Some((ErrorKind::RangeError, "invalid array length"@))
            } else if !signature->0.accepts_count(list@.len() as int) {
                Some((ErrorKind::TypeError, "bad native argument count"@))
            } else {
                signature->0.values_problem(list@, list@.len())
            },
            _ => Some((ErrorKind::TypeError, "NativeFunction arguments must be an array"@)),
        }
    }
}

/// The call of a native function that a script wants.
pub fn js_native_ffi_call(
    argument_count: usize,
    signature: Option<&NativeFfiSignature>,
    address: Result<u64, ScriptError>,
    values: &FfiValue,
) -> (result: Result<FfiCall, ScriptError>)
    requires
        signature matches Some(s) ==> s.wf() && s.countable(),
        (signature is Some && values is List) ==> signature->0.values_converted(values->List_0@),
    ensures
        ({
            let problem = call_problem(
                argument_count,
                match signature {
                    Some(signature) => Some(*signature),
                    None => None,
                },
                address,
                *values,
            );
            &&& result is Err <==> problem is Some
            &&& result matches Err(error) ==> Some(error@) == problem
            &&& result matches Ok(call) ==> {
                &&& call.address == address->Ok_0
                &&& call.arguments@.len() == signature->0.native_count(
                    values->List_0@.len() as int,
                )
                &&& forall|i: int|
                    0 <= i < call.arguments@.len() ==> (#[trigger] call.arguments@[i])@
                        == signature->0.argument_bytes(values->List_0@, i)
                &&& call.own_interface == (call.arguments@.len()
                    > signature->0.arguments@.len())
            }
        }),
{
    if argument_count < 7 {
        return Err(type_error("invalid native FFI call"));
    }
    let signature: &NativeFfiSignature = match signature {
        Some(signature) => signature,
        None => {
            return Err(type_error("invalid native FFI signature"));
        },
    };
    let address: u64 = match address {
        Ok(address) => address,
        Err(error) => {
            return Err(error);
        },
    };
    let values: &Vec<FfiValue> = match values {
        FfiValue::List(values) => values,
        FfiValue::Failed(error) => {
            return Err(error.again());
        },
        _ => {
            return Err(type_error("NativeFunction arguments must be an array"));
        },
    };
    if values.len() > MAX_ARGUMENTS {
        return Err(range_error("invalid array length"));
    }
    match signature.marshal_arguments(values) {
        Ok(arguments) => {
            let own_interface: bool = signature.needs_own_interface(arguments.len());
            Ok(FfiCall { address, arguments, own_interface })
        },
        Err(error) => Err(error),
    }
}

/// Whether the foreign-function library accepted the interface of a single call.
pub fn own_interface_prepared(accepted: bool) -> (result: Result<(), ScriptError>)
    ensures
        result is Ok <==> accepted,
        result matches Err(error) ==> error@ == (
            ErrorKind::InternalError,
            "failed to compile variadic native call interface"@,
        ),
{
    if accepted {
        Ok(())
    } else {
        Err(internal_error("failed to compile variadic native call interface"))
    }
}

/// The signature that a script prepares. The foreign-function library has yet to accept
/// it; see [`NativeFfiSignature::prepared`].
pub fn js_native_ffi_prepare(
    argument_count: usize,
    return_type: &ScriptType,
    arguments: &ScriptType,
) -> (result: Result<NativeFfiSignature, ScriptError>)
    ensures
        result is Ok <==> argument_count >= 2 && ffi_signature_error(*return_type, *arguments)
            is None,
        result matches Ok(signature) ==> signature.wf() && describes(
            *return_type,
            true,
            signature.return_type,
        ) && arguments is List && signature.has_arguments(arguments->List_0@),
        result matches Err(error) ==> error@ == if argument_count < 2 {
            (ErrorKind::TypeError, "native FFI signature requires return and argument types"@)
        } else {
            ffi_signature_error(*return_type, *arguments)->0
        },
{
    if argument_count < 2 {
        return Err(type_error("native FFI signature requires return and argument types"));
    }
    NativeFfiSignature::parse(return_type, arguments)
}

/// Reads a value in the layout of its type.
pub fn read_value(plan: &TypePlan, bytes: &[u8]) -> (value: FfiValue)
    requires
        plan_size(*plan) <= bytes@.len(),
    ensures
        reads(*plan, bytes@, value),
    decreases plan,
{
    let available: usize = bytes.len();
    match plan {
        TypePlan::Scalar(kind) => {
            let width: usize = scalar_width(*kind);
            let raw: u64 = read_le(bytes, 0, width);
            assert(bytes@.subrange(0, width as int) =~= bytes@.take(width as int));
            match *kind {
                ScalarType::Void => FfiValue::Undefined,
                ScalarType::Bool => FfiValue::Bool(bytes[0] != 0),
                ScalarType::Signed(size) => FfiValue::Integer(
                    if size == 1 {
                        raw as u8 as i8 as i64
                    } else if size == 2 {
                        raw as u16 as i16 as i64
                    } else if size == 4 {
                        raw as u32 as i32 as i64
                    } else {
                        raw as i64
                    },
                ),
                ScalarType::Unsigned(_) | ScalarType::Pointer => FfiValue::Address(raw),
                ScalarType::Float => FfiValue::FloatBits(raw as u32),
                ScalarType::Double => FfiValue::DoubleBits(raw),
            }
        },
        TypePlan::Structure(fields) => {
            let mut values: Vec<FfiValue> = Vec::new();
            let mut end: usize = 0;
            let mut i: usize = 0;
            while i < fields.len()
                invariant
                    i <= fields@.len(),
                    *plan == TypePlan::Structure(*fields),
                    available == bytes@.len(),
                    plan_size(*plan) <= bytes@.len(),
                    end == fields_end(*fields, i as nat),
                    values@.len() == i,
                    forall|k: int|
                        0 <= k < i ==> reads(
                            fields@[k],
                            #[trigger] field_slice(*fields, bytes@, k),
                            values@[k],
                        ),
                decreases fields@.len() - i,
            {
                proof {
                    structure_holds_its_fields(*fields, i as nat);
                    assert(decreases_to!(*plan => plan->Structure_0));
                    assert(decreases_to!(*fields => fields@[i as int]));
                }
                let alignment: usize = fields[i].alignment();
                let offset: usize = next_multiple(end, alignment);
                let size: usize = fields[i].size();
                end = offset + size;
                let part: &[u8] = vstd::slice::slice_subrange(bytes, offset, end);
                values.push(read_value(&fields[i], part));
                i = i + 1;
            }
            FfiValue::List(values)
        },
    }
}

/// A fault in a native function that was called from a script.
#[derive(Clone, Copy, Debug, PartialEq, Eq, Structural)]
pub struct NativeFfiException {
    pub kind: u32,
    pub memory_operation: u32,
    pub address: u64,
    pub memory_address: u64,
}

/// The name of a kind of fault.
pub open spec fn exception_kind_name(kind: u32) -> Seq<char> {
    if kind == 1 {
        "abort"@
    } else if kind == 2 {
        "access-violation"@
    } else if kind == 3 {
        "guard-page"@
    } else if kind == 4 {
        "illegal-instruction"@
    } else if kind == 5 {
        "stack-overflow"@
    } else if kind == 6 {
        "arithmetic"@
    } else if kind == 7 {
        "breakpoint"@
    } else if kind == 8 {
        "single-step"@
    } else {
        "system"@
    }
}

/// The name of a memory operation.
pub open spec fn memory_operation_name(operation: u32) -> Seq<char> {
    if operation == 1 {
        "read"@
    } else if operation == 2 {
        "write"@
    } else if operation == 3 {
        "execute"@
    } else {
        "invalid"@
    }
}

/// The name of a memory operation.
pub fn operation_name(operation: u32) -> (name: &'static str)
    ensures
        name@ == memory_operation_name(operation),
{
    match operation {
        1 => "read",
        2 => "write",
        3 => "execute",
        _ => "invalid",
    }
}

impl NativeFfiException {
    /// The name of the kind of fault.
    pub fn kind_name(&self) -> (name: &'static str)
        ensures
            name@ == exception_kind_name(self.kind),
    {
        match self.kind {
            1 => "abort",
            2 => "access-violation",
            3 => "guard-page",
            4 => "illegal-instruction",
            5 => "stack-overflow",
            6 => "arithmetic",
            7 => "breakpoint",
            8 => "single-step",
            _ => "system",
        }
    }

    /// The message of the exception that the script sees.
    pub fn message(&self) -> (message: String)
        ensures
            message@ == "native exception "@ + exception_kind_name(self.kind) + " at "@
                + crate::text::prefixed_hex(self.address as nat),
    {
        let mut message: String = joined("native exception ", self.kind_name());
        message.append(" at ");
        crate::text::push_prefixed_hex(&mut message, self.address);
        message
    }
}

/// How a native function is called. What a script leaves open is filled in.
#[derive(Clone, Copy, Debug, PartialEq, Eq, Structural)]
pub struct FfiCallOptions {
    /// Whether the error number is reported with the result.
    pub capture_system_error: bool,
    /// Whether other scripts may run meanwhile.
    pub cooperative: bool,
    /// Whether faults become exceptions.
    pub steal_exceptions: bool,
    /// Whether hooks on the function are bypassed.
    pub ignore_interceptor: bool,
}

/// Reads how a native function is to be called.
pub fn call_options(
    capture: Option<bool>,
    cooperative: Option<bool>,
    steal: Option<bool>,
    trap_mode: Option<i32>,
) -> (options: FfiCallOptions)
    ensures
        options == (FfiCallOptions {
            capture_system_error: capture == Some(true),
            cooperative: cooperative != Some(false),
            steal_exceptions: steal != Some(false),
            ignore_interceptor: trap_mode == Some(1i32),
        }),
{
    FfiCallOptions {
        capture_system_error: matches!(capture, Some(true)),
        cooperative: !matches!(cooperative, Some(false)),
        steal_exceptions: !matches!(steal, Some(false)),
        ignore_interceptor: matches!(trap_mode, Some(1)),
    }
}

/// What a script gets from a native call.
#[derive(Debug)]
pub enum CallOutcome {
    /// The value that the function returned.
    Value(FfiValue),
    /// The value with the error number that the function left.
    Captured { value: FfiValue, errno: i64 },
    /// The function raised an exception, which is thrown.
    Exception,
    /// The function was not called.
    Error(ScriptError),
}

impl CallOutcome {
    /// Whether changes of modules and threads that wait are told to the script now: after a
    /// call that returned.
    pub fn delivers_events(&self) -> (delivers: bool)
        ensures
            delivers == (self is Value || self is Captured),
    {
        match self {
            CallOutcome::Value(_) => true,
            CallOutcome::Captured { .. } => true,
            _ => false,
        }
    }
}

/// What a native call came to: the call's status, or why it was not made.
pub fn call_outcome(
    status: Result<i32, &str>,
    return_type: &TypePlan,
    result: &[u8],
    capture_system_error: bool,
    system_error: i32,
) -> (outcome: CallOutcome)
    requires
        plan_size(*return_type) <= result@.len(),
    ensures
        match status {
            Err(reason) => outcome matches CallOutcome::Error(error) && error@ == (
                ErrorKind::InternalError,
                "NativeFunction: "@ + reason@,
            ),
            Ok(status) => if status != 0 {
                outcome is Exception
            } else if capture_system_error {
                outcome matches CallOutcome::Captured { value, errno } && reads(
                    *return_type,
                    result@,
                    value,
                ) && errno == system_error
            } else {
                outcome matches CallOutcome::Value(value) && reads(*return_type, result@, value)
            },
        },
{
    match status {
        Err(reason) => CallOutcome::Error(
            ScriptError {
                kind: ErrorKind::InternalError,
                message: joined("NativeFunction: ", reason),
            },
        ),
        Ok(status) => {
            if status != 0 {
                return CallOutcome::Exception;
            }
            let value: FfiValue = read_value(return_type, result);
            if capture_system_error {
                CallOutcome::Captured { value, errno: system_error as i64 }
            } else {
                CallOutcome::Value(value)
            }
        },
    }
}

/// Faults and memory operations go by their numbers in the engine; all other numbers have
/// one name.
pub proof fn faults_go_by_their_numbers(number: u32)
    ensures
        exception_kind_name(1) == "abort"@,
        exception_kind_name(2) == "access-violation"@,
        exception_kind_name(3) == "guard-page"@,
        exception_kind_name(4) == "illegal-instruction"@,
        exception_kind_name(5) == "stack-overflow"@,
        exception_kind_name(6) == "arithmetic"@,
        exception_kind_name(7) == "breakpoint"@,
        exception_kind_name(8) == "single-step"@,
        number == 0 || number > 8 ==> exception_kind_name(number) == "system"@,
        memory_operation_name(1) == "read"@,
        memory_operation_name(2) == "write"@,
        memory_operation_name(3) == "execute"@,
        number == 0 || number > 3 ==> memory_operation_name(number) == "invalid"@,
{
}

/// Which types of a script are accepted: names of types, and lists of up to 256 of them in
/// which nothing is void.
pub proof fn types_are_names_or_lists_of_types(value: ScriptType, allow_void: bool)
    ensures
        value matches ScriptType::Name(name) ==> (type_problem(value, allow_void) is None
            <==> scalar_type_of(name@, allow_void) is Ok),
        value matches ScriptType::List(types) ==> (type_problem(value, allow_void) is None <==> {
            &&& types@.len() <= 256
            &&& forall|i: int|
                0 <= i < types@.len() ==> type_problem(#[trigger] types@[i], false) is None
        }),
        value matches ScriptType::Failed(error) ==> type_problem(value, allow_void) == Some(error@),
        value is Opaque || value is Convertible ==> type_problem(value, allow_void) is Some,
{
    if value is List {
        let types = value->List_0;
        lemma_list_is_right(types, types@.len());
    }
}

proof fn lemma_list_is_right(types: Vec<ScriptType>, count: nat)
    requires
        count <= types@.len(),
    ensures
        list_problem(types, count) is None <==> forall|i: int|
            0 <= i < count ==> type_problem(#[trigger] types@[i], false) is None,
    decreases count,
{
    if count > 0 {
        lemma_list_is_right(types, (count - 1) as nat);
        assert(0 <= count - 1 < count);
        if list_problem(types, count) is None {
            assert forall|i: int| 0 <= i < count implies type_problem(
                #[trigger] types@[i],
                false,
            ) is None by {}
        } else if list_problem(types, (count - 1) as nat) is None {
            assert(type_problem(types@[count - 1], false) is Some);
        }
    }
}

/// Which signatures are accepted: a result type, and a list of up to 256 argument types with
/// at most one marker among them, which is neither the first nor the last.
pub proof fn signatures_have_one_marker_inside(return_type: ScriptType, types: Vec<ScriptType>)
    ensures
        ffi_signature_error(return_type, ScriptType::List(types)) is None <==> {
            &&& type_problem(return_type, true) is None
            &&& types@.len() <= 256
            &&& forall|i: int|
                0 <= i < types@.len() && !is_marker(#[trigger] types@[i]) ==> type_problem(
                    types@[i],
                    false,
                ) is None
            &&& forall|i: int|
                0 <= i < types@.len() && is_marker(#[trigger] types@[i]) ==> 0 < i < types@.len()
                    - 1
            &&& forall|i: int, j: int|
                #![trigger types@[i], types@[j]]
                0 <= i < j < types@.len() ==> !(is_marker(types@[i]) && is_marker(types@[j]))
        },
        is_marker(return_type) ==> ffi_signature_error(return_type, ScriptType::List(types))
            is Some,
{
    lemma_arguments_are_right(types@, types@.len());
    if types@.len() > 0 {
        assert(types@.last() == types@[types@.len() - 1]);
    }
    if is_marker(return_type) {
        lemma_type_names();
        reveal_strlit("...");
        reveal_strlit("void");
        let name = return_type->Name_0@;
        assert(scalar_type_named("..."@) is None) by {
            reveal_strlit("int");
            reveal_strlit("bool");
            reveal_strlit("char");
            reveal_strlit("int8");
            reveal_strlit("uchar");
            reveal_strlit("uint8");
            reveal_strlit("short");
            reveal_strlit("int16");
            reveal_strlit("ushort");
            reveal_strlit("uint16");
            reveal_strlit("int32");
            reveal_strlit("uint");
            reveal_strlit("uint32");
            reveal_strlit("long");
            reveal_strlit("int64");
            reveal_strlit("ssize_t");
            reveal_strlit("ulong");
            reveal_strlit("uint64");
            reveal_strlit("size_t");
            reveal_strlit("pointer");
            reveal_strlit("float");
            reveal_strlit("double");
            assert("..."@[0] == '.');
            assert("int"@[0] == 'i');
        }
        assert("..."@.len() != "void"@.len());
    }
}

proof fn lemma_arguments_are_right(types: Seq<ScriptType>, count: nat)
    requires
        count <= types.len(),
    ensures
        arguments_problem(types, count) is None <==> {
            &&& forall|i: int|
                0 <= i < count && !is_marker(#[trigger] types[i]) ==> type_problem(types[i], false)
                    is None
            &&& forall|i: int| 0 <= i < count && is_marker(#[trigger] types[i]) ==> 0 < i
            &&& forall|i: int, j: int|
                #![trigger types[i], types[j]]
                0 <= i < j < count ==> !(is_marker(types[i]) && is_marker(types[j]))
        },
    decreases count,
{
    if count > 0 {
        let index = count - 1;
        lemma_arguments_are_right(types, index as nat);
        if is_marker(types[index]) && marked(types, index) {
            let i = choose|i: int| 0 <= i < index && is_marker(#[trigger] types[i]);
            assert(is_marker(types[i]) && is_marker(types[index]));
        }
        if arguments_problem(types, count) is None {
            assert forall|i: int, j: int|
                #![trigger types[i], types[j]]
                0 <= i < j < count implies !(is_marker(types[i]) && is_marker(types[j])) by {
                if j == index && is_marker(types[i]) && is_marker(types[index]) {
                    assert(marked(types, index));
                }
            }
        }
    }
}

/// A call gives a value for each argument, and for a variadic function at least those in
/// front of the marker. Further values take the types behind the marker in turn.
pub proof fn further_values_take_the_trailing_types_in_turn(
    signature: NativeFfiSignature,
    count: int,
    index: int,
)
    requires
        signature.wf(),
        0 <= count,
        0 <= index,
    ensures
        !signature.variadic ==> (signature.accepts_count(count) <==> count
            == signature.arguments@.len()),
        signature.variadic ==> (signature.accepts_count(count) <==> count
            >= signature.fixed_count),
        index < signature.arguments@.len() ==> signature.plan_index(index) == index,
        signature.variadic && index >= signature.arguments@.len() ==> signature.plan_index(index)
            == signature.plan_index(index - (signature.arguments@.len() - signature.fixed_count)),
        signature.native_count(count) >= count,
        signature.accepts_count(count) ==> signature.native_count(count)
            >= signature.arguments@.len(),
        signature.accepts_count(count) && count >= signature.arguments@.len()
            ==> signature.native_count(count) == count,
        signature.variadic && count < signature.arguments@.len() ==> signature.native_count(count)
            == signature.arguments@.len(),
{
    if signature.variadic && index >= signature.arguments@.len() {
        let fixed = signature.fixed_count as int;
        let tail = signature.arguments@.len() - fixed;
        vstd::arithmetic::div_mod::lemma_mod_sub_multiples_vanish(index - fixed, tail);
        if index - tail < signature.arguments@.len() {
            vstd::arithmetic::div_mod::lemma_small_mod((index - tail - fixed) as nat, tail as nat);
        }
    }
}

/// The arguments of a signature are its types in their order without the marker: those in
/// front of it as they are, those behind it promoted.
pub proof fn arguments_stand_in_their_order(
    signature: NativeFfiSignature,
    types: Seq<ScriptType>,
    at: int,
)
    requires
        signature.has_arguments(types),
        signature.wf(),
        0 <= at < types.len(),
    ensures
        signature.variadic <==> exists|i: int| 0 <= i < types.len() && is_marker(#[trigger] types[i]),
        !signature.variadic ==> signature.arguments@.len() == types.len() && describes(
            types[at],
            false,
            signature.arguments@[at],
        ),
        signature.variadic ==> signature.arguments@.len() + 1 == types.len() && is_marker(
            types[signature.fixed_count as int],
        ),
        signature.variadic && at < signature.fixed_count ==> describes(
            types[at],
            false,
            signature.arguments@[at],
        ),
        signature.variadic && at > signature.fixed_count ==> exists|parsed: TypePlan| #[trigger]
            describes(types[at], false, parsed) && signature.arguments@[at - 1] == promoted_plan(
                parsed,
            ),
{
    if !signature.variadic {
        assert(describes_argument(types[at], false, signature.arguments@[at]));
    } else if at < signature.fixed_count {
        assert(describes_argument(types[at], false, signature.arguments@[at]));
    } else if at > signature.fixed_count {
        assert(describes_argument(types[at - 1 + 1], true, signature.arguments@[at - 1]));
    }
}

/// A call is made with all seven arguments, a signature, an address, and a list of up to 256
/// values, as many as the signature takes, each of which can be written.
pub proof fn calls_need_values_for_their_arguments(
    argument_count: usize,
    signature: NativeFfiSignature,
    address: Result<u64, ScriptError>,
    values: Vec<FfiValue>,
)
    ensures
        call_problem(argument_count, Some(signature), address, FfiValue::List(values)) is None <==> {
            &&& argument_count >= 7
            &&& address is Ok
            &&& values@.len() <= 256
            &&& signature.accepts_count(values@.len() as int)
            &&& forall|i: int|
                0 <= i < values@.len() ==> value_problem(
                    signature.plan_at(i),
                    #[trigger] values@[i],
                ) is None
        },
        call_problem(argument_count, None, address, FfiValue::List(values)) is Some,
{
    lemma_values_can_be_written(signature, values@, values@.len());
}

proof fn lemma_values_can_be_written(
    signature: NativeFfiSignature,
    values: Seq<FfiValue>,
    count: nat,
)
    ensures
        signature.values_problem(values, count) is None <==> forall|i: int|
            0 <= i < count ==> value_problem(signature.plan_at(i), #[trigger] values[i]) is None,
    decreases count,
{
    if count > 0 {
        lemma_values_can_be_written(signature, values, (count - 1) as nat);
        assert(0 <= count - 1 < count);
        if signature.values_problem(values, count) is None {
            assert forall|i: int| 0 <= i < count implies value_problem(
                signature.plan_at(i),
                #[trigger] values[i],
            ) is None by {}
        } else if signature.values_problem(values, (count - 1) as nat) is None {
            assert(value_problem(signature.plan_at(count - 1), values[count - 1]) is Some);
        }
    }
}

} // verus!
