use vstd::prelude::*;
use crate::parsed_class::{Constant, FieldRef, MethodRef, ParsedClass, class_spec, constant_spec, field_ref_spec, interface_method_ref_spec, method_ref_spec, utf8_spec};

verus! {

/// The simple type of a value on the operand stack or in a local variable.
#[derive(Debug, Copy, Clone, PartialEq, Eq, Structural)]
pub enum Type {
    Reference,
    Char,
    Boolean,
    Byte,
    Short,
    Int,
    Long,
    Float,
    Double,
}

/// Number of 32-bit words a value of type `t` occupies.
pub open spec fn type_words(t: Type) -> nat {
    if t == Type::Long || t == Type::Double {
        2
    } else {
        1
    }
}

impl Type {
    /// Long and Double take two words; every other type one.
    pub fn is_double_sized(&self) -> (r: bool)
        ensures
            r == (*self == Type::Long || *self == Type::Double),
    {
        match *self {
            Type::Long | Type::Double => true,
            _ => false,
        }
    }

    pub fn word_size(&self) -> (r: usize)
        ensures
            r == type_words(*self),
            r == 1 || r == 2,
    {
        if self.is_double_sized() {
            2
        } else {
            1
        }
    }
}

/// The comparison of a conditional branch.
#[derive(Debug, Copy, Clone, PartialEq, Eq, Structural)]
pub enum Comparison {
    EQ,
    GE,
    GT,
    LE,
    LT,
    NE,
}

pub open spec fn compare_spec(c: Comparison, a: int, b: int) -> bool {
    match c {
        Comparison::EQ => a == b,
        Comparison::GE => a >= b,
        Comparison::GT => a > b,
        Comparison::LE => a <= b,
        Comparison::LT => a < b,
        Comparison::NE => a != b,
    }
}

impl Comparison {
    pub fn compare(&self, a: i32, b: i32) -> (r: bool)
        ensures
            r == compare_spec(*self, a as int, b as int),
    {
        match *self {
            Comparison::EQ => a == b,
            Comparison::GE => a >= b,
            Comparison::GT => a > b,
            Comparison::LE => a <= b,
            Comparison::LT => a < b,
            Comparison::NE => a != b,
        }
    }
}


/// Index into the decoded instruction vector of a method.
pub type CodeAddress = u32;

/// Index into the local variables of a frame.
pub type LocalVarRef = u16;

/// `true`: branch on equal, `false`: branch on not equal.
pub type ComparisonEqual = bool;

/// The largest code length, in bytes, of a method.
pub const MAX_INSTRUCTIONS_PER_METHOD: usize = 65536;

/// A decoded instruction. Similar opcodes are folded into one variant that
/// carries their type; branch addresses are indices into the decoded vector.
/// Float and double constants are held as their IEEE-754 bit patterns.
#[derive(Debug, Clone, PartialEq)]
#[allow(non_camel_case_types)]
pub enum Instruction {
    ALOAD(Type),
    ASTORE(Type),
    LOAD(Type, LocalVarRef),
    STORE(Type, LocalVarRef),
    ARRAYLENGTH,
    ATHROW,
    CHECKCAST(String),
    INSTANCEOF(String),
    ANEWARRAY(String),
    MULTIANEWARRAY(String, u8),
    NEW(String),
    NEWARRAY(Type),
    CONVERT(Type, Type),
    ADD(Type),
    DIV(Type),
    MUL(Type),
    NEG(Type),
    REM(Type),
    SUB(Type),
    RETURN(Option<Type>),
    IINC(LocalVarRef, i16),
    AND(Type),
    OR(Type),
    SHL(Type),
    SHR(Type),
    USHR(Type),
    XOR(Type),
    ACONST_NULL,
    DCONST_0,
    DCONST_1,
    FCONST_0,
    FCONST_1,
    FCONST_2,
    LCONST_0,
    LCONST_1,
    BIPUSH(i8),
    SIPUSH(i16),
    LDC_INT(i32),
    LDC_FLOAT(u32),
    LDC_STRING(String),
    LDC_DOUBLE(u64),
    LDC_LONG(i64),
    DUP,
    DUP_X1,
    DUP_X2,
    DUP2,
    DUP2_X1,
    DUP2_X2,
    POP,
    POP2,
    SWAP,
    GETFIELD(FieldRef),
    GETSTATIC(FieldRef),
    PUTFIELD(FieldRef),
    PUTSTATIC(FieldRef),
    DCMPG,
    DCMPL,
    FCMPG,
    FCMPL,
    LCMP,
    GOTO(CodeAddress),
    JSR(CodeAddress),
    RET(LocalVarRef),
    IF_ACMP(ComparisonEqual, CodeAddress),
    IF_ICMP(Comparison, CodeAddress),
    IF(Comparison, CodeAddress),
    IFNULL(ComparisonEqual, CodeAddress),
    INVOKEINTERFACE(MethodRef, u8),
    INVOKESPECIAL(MethodRef),
    INVOKESTATIC(MethodRef),
    INVOKEVIRTUAL(MethodRef),
    MONITORENTER,
    MONITOREXIT,
    NOP,
}

/// The address a branch instruction jumps to; `None` for any other instruction.
pub open spec fn branch_target(i: Instruction) -> Option<CodeAddress> {
    match i {
        Instruction::GOTO(a) => Some(a),
        Instruction::JSR(a) => Some(a),
        Instruction::IF_ACMP(_, a) => Some(a),
        Instruction::IF_ICMP(_, a) => Some(a),
        Instruction::IF(_, a) => Some(a),
        Instruction::IFNULL(_, a) => Some(a),
        _ => None,
    }
}

/// Every branch of `code` jumps to an instruction of `code`.
pub open spec fn targets_valid(code: Seq<Instruction>) -> bool {
    forall|i: int|
        0 <= i < code.len() ==> (#[trigger] branch_target(code[i]) matches Some(t) ==> t < code.len())
}

/// Opcodes the decoder reads: those of the second edition but the two
/// switches, `wide` and the unused slot 0xba.
pub open spec fn decodable_opcode(b: u8) -> bool {
    b <= 0xc9 && b != 0xaa && b != 0xab && b != 0xba && b != 0xc4
}

/// The branch instructions, without their address.
#[derive(Copy, Clone)]
pub enum BranchKind {
    Goto,
    Jsr,
    IfAcmp(ComparisonEqual),
    IfIcmp(Comparison),
    If(Comparison),
    IfNull(ComparisonEqual),
}

/// The branch instruction of kind `k` to address `a`.
pub open spec fn kind_instr(k: BranchKind, a: CodeAddress) -> Instruction {
    match k {
        BranchKind::Goto => Instruction::GOTO(a),
        BranchKind::Jsr => Instruction::JSR(a),
        BranchKind::IfAcmp(e) => Instruction::IF_ACMP(e, a),
        BranchKind::IfIcmp(c) => Instruction::IF_ICMP(c, a),
        BranchKind::If(c) => Instruction::IF(c, a),
        BranchKind::IfNull(e) => Instruction::IFNULL(e, a),
    }
}

/// The operand bytes that follow each opcode.
pub open spec fn operand_len(op: u8) -> nat {
    if op == 0x10u8 || op == 0x12u8 || op == 0x15u8 || op == 0x16u8 || op == 0x17u8 || op == 0x18u8
        || op == 0x19u8 || op == 0x36u8 || op == 0x37u8 || op == 0x38u8 || op == 0x39u8 || op == 0x3au8
        || op == 0xa9u8 || op == 0xbcu8 {
        1
    } else if op == 0x11u8 || op == 0x13u8 || op == 0x14u8 || op == 0x84u8 || op == 0x99u8 || op == 0x9au8
        || op == 0x9bu8 || op == 0x9cu8 || op == 0x9du8 || op == 0x9eu8 || op == 0x9fu8 || op == 0xa0u8
        || op == 0xa1u8 || op == 0xa2u8 || op == 0xa3u8 || op == 0xa4u8 || op == 0xa5u8 || op == 0xa6u8
        || op == 0xa7u8 || op == 0xa8u8 || op == 0xb2u8 || op == 0xb3u8 || op == 0xb4u8 || op == 0xb5u8
        || op == 0xb6u8 || op == 0xb7u8 || op == 0xb8u8 || op == 0xbbu8 || op == 0xbdu8 || op == 0xc0u8
        || op == 0xc1u8 || op == 0xc6u8 || op == 0xc7u8 {
        2
    } else if op == 0xc5u8 {
        3
    } else if op == 0xb9u8 || op == 0xc8u8 || op == 0xc9u8 {
        4
    } else {
        0
    }
}

pub open spec fn kind_of(op: u8) -> BranchKind {
    if op == 0x99u8 {
        BranchKind::If(Comparison::EQ)
    } else if op == 0x9au8 {
        BranchKind::If(Comparison::NE)
    } else if op == 0x9bu8 {
        BranchKind::If(Comparison::LT)
    } else if op == 0x9cu8 {
        BranchKind::If(Comparison::GE)
    } else if op == 0x9du8 {
        BranchKind::If(Comparison::GT)
    } else if op == 0x9eu8 {
        BranchKind::If(Comparison::LE)
    } else if op == 0x9fu8 {
        BranchKind::IfIcmp(Comparison::EQ)
    } else if op == 0xa0u8 {
        BranchKind::IfIcmp(Comparison::NE)
    } else if op == 0xa1u8 {
        BranchKind::IfIcmp(Comparison::LT)
    } else if op == 0xa2u8 {
        BranchKind::IfIcmp(Comparison::GE)
    } else if op == 0xa3u8 {
        BranchKind::IfIcmp(Comparison::GT)
    } else if op == 0xa4u8 {
        BranchKind::IfIcmp(Comparison::LE)
    } else if op == 0xa5u8 {
        BranchKind::IfAcmp(true)
    } else if op == 0xa6u8 {
        BranchKind::IfAcmp(false)
    } else if op == 0xa7u8 {
        BranchKind::Goto
    } else if op == 0xa8u8 {
        BranchKind::Jsr
    } else if op == 0xc6u8 {
        BranchKind::IfNull(true)
    } else if op == 0xc7u8 {
        BranchKind::IfNull(false)
    } else if op == 0xc8u8 {
        BranchKind::Goto
    } else if op == 0xc9u8 {
        BranchKind::Jsr
    } else {
        BranchKind::Goto
    }
}

pub open spec fn is_branch_op(op: u8) -> bool {
    op == 0x99u8 || op == 0x9au8 || op == 0x9bu8 || op == 0x9cu8 || op == 0x9du8 || op == 0x9eu8
        || op == 0x9fu8 || op == 0xa0u8 || op == 0xa1u8 || op == 0xa2u8 || op == 0xa3u8 || op == 0xa4u8
        || op == 0xa5u8 || op == 0xa6u8 || op == 0xa7u8 || op == 0xa8u8 || op == 0xc6u8 || op == 0xc7u8
        || op == 0xc8u8 || op == 0xc9u8
}

pub open spec fn simple_decode(b: Seq<u8>, pos: int) -> Option<Instruction> {
    match b[pos] {
        0x32 => Some(Instruction::ALOAD(Type::Reference)),
        0x53 => Some(Instruction::ASTORE(Type::Reference)),
        0x01 => Some(Instruction::ACONST_NULL),
        0x19 => Some(Instruction::LOAD(Type::Reference, b[pos + 1] as u16)),
        0x2a => Some(Instruction::LOAD(Type::Reference, 0)),
        0x2b => Some(Instruction::LOAD(Type::Reference, 1)),
        0x2c => Some(Instruction::LOAD(Type::Reference, 2)),
        0x2d => Some(Instruction::LOAD(Type::Reference, 3)),
        0xb0 => Some(Instruction::RETURN(Some(Type::Reference))),
        0xbe => Some(Instruction::ARRAYLENGTH),
        0x3a => Some(Instruction::STORE(Type::Reference, b[pos + 1] as u16)),
        0x4b => Some(Instruction::STORE(Type::Reference, 0)),
        0x4c => Some(Instruction::STORE(Type::Reference, 1)),
        0x4d => Some(Instruction::STORE(Type::Reference, 2)),
        0x4e => Some(Instruction::STORE(Type::Reference, 3)),
        0xbf => Some(Instruction::ATHROW),
        0x33 => Some(Instruction::ALOAD(Type::Byte)),
        0x54 => Some(Instruction::ASTORE(Type::Byte)),
        0x10 => Some(Instruction::BIPUSH(b[pos + 1] as i8)),
        0x34 => Some(Instruction::ALOAD(Type::Char)),
        0x55 => Some(Instruction::ASTORE(Type::Char)),
        0x90 => Some(Instruction::CONVERT(Type::Double, Type::Float)),
        0x8e => Some(Instruction::CONVERT(Type::Double, Type::Int)),
        0x8f => Some(Instruction::CONVERT(Type::Double, Type::Long)),
        0x63 => Some(Instruction::ADD(Type::Double)),
        0x31 => Some(Instruction::ALOAD(Type::Double)),
        0x52 => Some(Instruction::ASTORE(Type::Double)),
        0x98 => Some(Instruction::DCMPG),
        0x97 => Some(Instruction::DCMPL),
        0x0e => Some(Instruction::DCONST_0),
        0x0f => Some(Instruction::DCONST_1),
        0x6f => Some(Instruction::DIV(Type::Double)),
        0x18 => Some(Instruction::LOAD(Type::Double, b[pos + 1] as u16)),
        0x26 => Some(Instruction::LOAD(Type::Double, 0)),
        0x27 => Some(Instruction::LOAD(Type::Double, 1)),
        0x28 => Some(Instruction::LOAD(Type::Double, 2)),
        0x29 => Some(Instruction::LOAD(Type::Double, 3)),
        0x6b => Some(Instruction::MUL(Type::Double)),
        0x77 => Some(Instruction::NEG(Type::Double)),
        0x73 => Some(Instruction::REM(Type::Double)),
        0xaf => Some(Instruction::RETURN(Some(Type::Double))),
        0x39 => Some(Instruction::STORE(Type::Double, b[pos + 1] as u16)),
        0x47 => Some(Instruction::STORE(Type::Double, 0)),
        0x48 => Some(Instruction::STORE(Type::Double, 1)),
        0x49 => Some(Instruction::STORE(Type::Double, 2)),
        0x4a => Some(Instruction::STORE(Type::Double, 3)),
        0x67 => Some(Instruction::SUB(Type::Double)),
        0x59 => Some(Instruction::DUP),
        0x5a => Some(Instruction::DUP_X1),
        0x5b => Some(Instruction::DUP_X2),
        0x5c => Some(Instruction::DUP2),
        0x5d => Some(Instruction::DUP2_X1),
        0x5e => Some(Instruction::DUP2_X2),
        0x8d => Some(Instruction::CONVERT(Type::Float, Type::Double)),
        0x8b => Some(Instruction::CONVERT(Type::Float, Type::Int)),
        0x8c => Some(Instruction::CONVERT(Type::Float, Type::Long)),
        0x62 => Some(Instruction::ADD(Type::Float)),
        0x30 => Some(Instruction::ALOAD(Type::Float)),
        0x51 => Some(Instruction::ASTORE(Type::Float)),
        0x96 => Some(Instruction::FCMPG),
        0x95 => Some(Instruction::FCMPL),
        0x0b => Some(Instruction::FCONST_0),
        0x0c => Some(Instruction::FCONST_1),
        0x0d => Some(Instruction::FCONST_2),
        0x6e => Some(Instruction::DIV(Type::Float)),
        0x17 => Some(Instruction::LOAD(Type::Float, b[pos + 1] as u16)),
        0x22 => Some(Instruction::LOAD(Type::Float, 0)),
        0x23 => Some(Instruction::LOAD(Type::Float, 1)),
        0x24 => Some(Instruction::LOAD(Type::Float, 2)),
        0x25 => Some(Instruction::LOAD(Type::Float, 3)),
        0x6a => Some(Instruction::MUL(Type::Float)),
        0x76 => Some(Instruction::NEG(Type::Float)),
        0x72 => Some(Instruction::REM(Type::Float)),
        0xae => Some(Instruction::RETURN(Some(Type::Float))),
        0x38 => Some(Instruction::STORE(Type::Float, b[pos + 1] as u16)),
        0x43 => Some(Instruction::STORE(Type::Float, 0)),
        0x44 => Some(Instruction::STORE(Type::Float, 1)),
        0x45 => Some(Instruction::STORE(Type::Float, 2)),
        0x46 => Some(Instruction::STORE(Type::Float, 3)),
        0x66 => Some(Instruction::SUB(Type::Float)),
        0x91 => Some(Instruction::CONVERT(Type::Int, Type::Byte)),
        0x92 => Some(Instruction::CONVERT(Type::Int, Type::Char)),
        0x87 => Some(Instruction::CONVERT(Type::Int, Type::Double)),
        0x86 => Some(Instruction::CONVERT(Type::Int, Type::Float)),
        0x85 => Some(Instruction::CONVERT(Type::Int, Type::Long)),
        0x93 => Some(Instruction::CONVERT(Type::Int, Type::Short)),
        0x60 => Some(Instruction::ADD(Type::Int)),
        0x2e => Some(Instruction::ALOAD(Type::Int)),
        0x7e => Some(Instruction::AND(Type::Int)),
        0x4f => Some(Instruction::ASTORE(Type::Int)),
        0x03 => Some(Instruction::BIPUSH(0)),
        0x02 => Some(Instruction::BIPUSH(-1i8)),
        0x04 => Some(Instruction::BIPUSH(1)),
        0x05 => Some(Instruction::BIPUSH(2)),
        0x06 => Some(Instruction::BIPUSH(3)),
        0x07 => Some(Instruction::BIPUSH(4)),
        0x08 => Some(Instruction::BIPUSH(5)),
        0x6c => Some(Instruction::DIV(Type::Int)),
        0x15 => Some(Instruction::LOAD(Type::Int, b[pos + 1] as u16)),
        0x1a => Some(Instruction::LOAD(Type::Int, 0)),
        0x1b => Some(Instruction::LOAD(Type::Int, 1)),
        0x1c => Some(Instruction::LOAD(Type::Int, 2)),
        0x1d => Some(Instruction::LOAD(Type::Int, 3)),
        0x68 => Some(Instruction::MUL(Type::Int)),
        0x74 => Some(Instruction::NEG(Type::Int)),
        0x80 => Some(Instruction::OR(Type::Int)),
        0x70 => Some(Instruction::REM(Type::Int)),
        0xac => Some(Instruction::RETURN(Some(Type::Int))),
        0x78 => Some(Instruction::SHL(Type::Int)),
        0x7a => Some(Instruction::SHR(Type::Int)),
        0x36 => Some(Instruction::STORE(Type::Int, b[pos + 1] as u16)),
        0x3b => Some(Instruction::STORE(Type::Int, 0)),
        0x3c => Some(Instruction::STORE(Type::Int, 1)),
        0x3d => Some(Instruction::STORE(Type::Int, 2)),
        0x3e => Some(Instruction::STORE(Type::Int, 3)),
        0x64 => Some(Instruction::SUB(Type::Int)),
        0x7c => Some(Instruction::USHR(Type::Int)),
        0x82 => Some(Instruction::XOR(Type::Int)),
        0x8a => Some(Instruction::CONVERT(Type::Long, Type::Double)),
        0x89 => Some(Instruction::CONVERT(Type::Long, Type::Float)),
        0x88 => Some(Instruction::CONVERT(Type::Long, Type::Int)),
        0x61 => Some(Instruction::ADD(Type::Long)),
        0x2f => Some(Instruction::ALOAD(Type::Long)),
        0x7f => Some(Instruction::AND(Type::Long)),
        0x50 => Some(Instruction::ASTORE(Type::Long)),
        0x94 => Some(Instruction::LCMP),
        0x09 => Some(Instruction::LCONST_0),
        0x0a => Some(Instruction::LCONST_1),
        0x6d => Some(Instruction::DIV(Type::Long)),
        0x16 => Some(Instruction::LOAD(Type::Long, b[pos + 1] as u16)),
        0x1e => Some(Instruction::LOAD(Type::Long, 0)),
        0x1f => Some(Instruction::LOAD(Type::Long, 1)),
        0x20 => Some(Instruction::LOAD(Type::Long, 2)),
        0x21 => Some(Instruction::LOAD(Type::Long, 3)),
        0x69 => Some(Instruction::MUL(Type::Long)),
        0x75 => Some(Instruction::NEG(Type::Long)),
        0x81 => Some(Instruction::OR(Type::Long)),
        0x71 => Some(Instruction::REM(Type::Long)),
        0xad => Some(Instruction::RETURN(Some(Type::Long))),
        0x79 => Some(Instruction::SHL(Type::Long)),
        0x7b => Some(Instruction::SHR(Type::Long)),
        0x37 => Some(Instruction::STORE(Type::Long, b[pos + 1] as u16)),
        0x3f => Some(Instruction::STORE(Type::Long, 0)),
        0x40 => Some(Instruction::STORE(Type::Long, 1)),
        0x41 => Some(Instruction::STORE(Type::Long, 2)),
        0x42 => Some(Instruction::STORE(Type::Long, 3)),
        0x65 => Some(Instruction::SUB(Type::Long)),
        0x7d => Some(Instruction::USHR(Type::Long)),
        0x83 => Some(Instruction::XOR(Type::Long)),
        0xc2 => Some(Instruction::MONITORENTER),
        0xc3 => Some(Instruction::MONITOREXIT),
        0x00 => Some(Instruction::NOP),
        0x57 => Some(Instruction::POP),
        0x58 => Some(Instruction::POP2),
        0xa9 => Some(Instruction::RET(b[pos + 1] as u16)),
        0xb1 => Some(Instruction::RETURN(None)),
        0x35 => Some(Instruction::ALOAD(Type::Short)),
        0x56 => Some(Instruction::ASTORE(Type::Short)),
        0x11 => Some(Instruction::SIPUSH(u16_at(b, pos + 1) as i16)),
        0x5f => Some(Instruction::SWAP),
        0x84 => Some(Instruction::IINC(b[pos + 1] as u16, (b[pos + 2] as i8) as i16)),
        0xbc => match array_type_spec(b[pos + 1]) {
            Some(t) => Some(Instruction::NEWARRAY(t)),
            None => None,
        },
        _ => None,
    }
}

/// The big-endian 16-bit number at `p`.
pub open spec fn u16_at(b: Seq<u8>, p: int) -> u16 {
    (b[p] as int * 256 + b[p + 1] as int) as u16
}

pub open spec fn u32_at(b: Seq<u8>, p: int) -> u32 {
    (u16_at(b, p) as int * 65536 + u16_at(b, p + 2) as int) as u32
}

/// The element type of `newarray`'s operand.
pub open spec fn array_type_spec(c: u8) -> Option<Type> {
    if c == 4 {
        Some(Type::Boolean)
    } else if c == 5 {
        Some(Type::Char)
    } else if c == 6 {
        Some(Type::Float)
    } else if c == 7 {
        Some(Type::Double)
    } else if c == 8 {
        Some(Type::Byte)
    } else if c == 9 {
        Some(Type::Short)
    } else if c == 10 {
        Some(Type::Int)
    } else if c == 11 {
        Some(Type::Long)
    } else {
        None
    }
}

/// The byte a branch at `pos` jumps to: its signed offset (32 bits for
/// `goto_w` and `jsr_w`, else 16) added to `pos`.
pub open spec fn target_byte(b: Seq<u8>, pos: int) -> int {
    if b[pos] == 0xc8 || b[pos] == 0xc9 {
        u32_at(b, pos + 1) as i32 + pos
    } else {
        u16_at(b, pos + 1) as i16 + pos
    }
}

/// The branch at `pos`, jumping to instruction `a`.
pub open spec fn branch_with(op: u8, a: CodeAddress) -> Instruction {
    kind_instr(kind_of(op), a)
}

pub open spec fn ldc_ok(pool: Seq<Constant>, i: u16) -> bool {
    match constant_spec(pool, i) {
        Some(Constant::Integer(_)) => true,
        Some(Constant::Float(_)) => true,
        Some(Constant::String(s)) => utf8_spec(pool, s) is Some,
        _ => false,
    }
}

pub open spec fn ldc2_ok(pool: Seq<Constant>, i: u16) -> bool {
    match constant_spec(pool, i) {
        Some(Constant::Long(_)) => true,
        Some(Constant::Double(_)) => true,
        _ => false,
    }
}

/// The instruction at `pos` decodes: its opcode is known, its operands fit,
/// a `newarray` type is one of 4 to 11, and its pool references resolve.
pub open spec fn one_ok(b: Seq<u8>, pool: Seq<Constant>, pos: int) -> bool {
    let op = b[pos];
    &&& decodable_opcode(op)
    &&& pos + 1 + operand_len(op) <= b.len()
    &&& (op == 0xbc ==> array_type_spec(b[pos + 1]) is Some)
    &&& (op == 0xbd || op == 0xc0 || op == 0xc1 || op == 0xbb || op == 0xc5 ==> class_spec(pool, u16_at(b, pos + 1)) is Some)
    &&& (op == 0xb2 || op == 0xb3 || op == 0xb4 || op == 0xb5 ==> field_ref_spec(pool, u16_at(b, pos + 1)) is Some)
    &&& (op == 0xb6 || op == 0xb7 || op == 0xb8 ==> method_ref_spec(pool, u16_at(b, pos + 1)) is Some)
    &&& (op == 0xb9 ==> interface_method_ref_spec(pool, u16_at(b, pos + 1)) is Some)
    &&& (op == 0x12 ==> ldc_ok(pool, b[pos + 1] as u16))
    &&& (op == 0x13 ==> ldc_ok(pool, u16_at(b, pos + 1)))
    &&& (op == 0x14 ==> ldc2_ok(pool, u16_at(b, pos + 1)))
}

/// The byte offsets at which instructions start, from `pos` on.
pub open spec fn starts_from(b: Seq<u8>, pos: int) -> Seq<int>
    decreases b.len() - pos,
{
    if pos < 0 || pos >= b.len() {
        Seq::empty()
    } else if pos + 1 + operand_len(b[pos]) >= b.len() {
        seq![pos]
    } else {
        seq![pos] + starts_from(b, pos + 1 + operand_len(b[pos]))
    }
}

pub open spec fn code_starts(b: Seq<u8>) -> Seq<int> {
    starts_from(b, 0)
}

/// The code decodes: it is not too long, every instruction decodes and
/// every branch jumps to the start of an instruction.
pub open spec fn code_ok(b: Seq<u8>, pool: Seq<Constant>) -> bool {
    let s = code_starts(b);
    &&& b.len() <= MAX_INSTRUCTIONS_PER_METHOD
    &&& forall|k: int| 0 <= k < s.len() ==> one_ok(b, pool, #[trigger] s[k])
    &&& forall|k: int|
        0 <= k < s.len() && is_branch_op(b[#[trigger] s[k]]) ==> s.contains(target_byte(b, s[k]))
}

/// `v` is the decoding of code `b`: one instruction per instruction start,
/// the table's decoding for the plain ones, and for a branch its kind with
/// the index of the instruction it jumps to.
pub open spec fn decodes_to(b: Seq<u8>, v: Seq<Instruction>) -> bool {
    let s = code_starts(b);
    &&& v.len() == s.len()
    &&& targets_valid(v)
    &&& forall|k: int| 0 <= k < v.len() ==> (simple_decode(b, #[trigger] s[k]) matches Some(x) ==> v[k] == x)
    &&& forall|k: int|
        0 <= k < v.len() && is_branch_op(b[#[trigger] s[k]]) ==> exists|j: int|
            0 <= j < v.len() && s[j] == target_byte(b, s[k]) && v[k] == branch_with(b[s[k]], j as u32)
}

impl BranchKind {
    fn with_address(self, a: CodeAddress) -> (r: Instruction)
        ensures
            r == kind_instr(self, a),
            branch_target(r) == Some(a),
    {
        match self {
            BranchKind::Goto => Instruction::GOTO(a),
            BranchKind::Jsr => Instruction::JSR(a),
            BranchKind::IfAcmp(e) => Instruction::IF_ACMP(e, a),
            BranchKind::IfIcmp(c) => Instruction::IF_ICMP(c, a),
            BranchKind::If(c) => Instruction::IF(c, a),
            BranchKind::IfNull(e) => Instruction::IFNULL(e, a),
        }
    }
}

fn next(bytes: &[u8], index: &mut usize) -> (r: Result<u8, String>)
    requires
        *old(index) <= bytes@.len(),
    ensures
        *old(index) <= *final(index) <= bytes@.len(),
        r is Ok <==> *old(index) < bytes@.len(),
        r matches Ok(b) ==> *final(index) == *old(index) + 1 && b == bytes@[*old(index) as int],
{
    if *index >= bytes.len() {
        return Err("incomplete instruction".to_owned());
    }
    let b = bytes[*index];
    *index = *index + 1;
    Ok(b)
}

fn next_u16(bytes: &[u8], index: &mut usize) -> (r: Result<u16, String>)
    requires
        *old(index) <= bytes@.len(),
    ensures
        *old(index) <= *final(index) <= bytes@.len(),
        r is Ok <==> *old(index) + 2 <= bytes@.len(),
        r matches Ok(v) ==> *final(index) == *old(index) + 2 && v == u16_at(bytes@, *old(index) as int),
{
    let b1 = next(bytes, index)?;
    let b2 = next(bytes, index)?;
    Ok((b1 as u16) * 256 + b2 as u16)
}

fn next_u32(bytes: &[u8], index: &mut usize) -> (r: Result<u32, String>)
    requires
        *old(index) <= bytes@.len(),
    ensures
        *old(index) <= *final(index) <= bytes@.len(),
        r is Ok <==> *old(index) + 4 <= bytes@.len(),
        r matches Ok(v) ==> *final(index) == *old(index) + 4 && v == u32_at(bytes@, *old(index) as int),
{
    let h = next_u16(bytes, index)?;
    let l = next_u16(bytes, index)?;
    Ok((h as u32) * 65536 + l as u32)
}

/// A 16-bit relative branch operand, made absolute from `current`.
fn rel16(bytes: &[u8], index: &mut usize, current: usize) -> (r: Result<i64, String>)
    requires
        *old(index) <= bytes@.len(),
        current <= MAX_INSTRUCTIONS_PER_METHOD,
    ensures
        *old(index) <= *final(index) <= bytes@.len(),
        r is Ok <==> *old(index) + 2 <= bytes@.len(),
        r matches Ok(t) ==> *final(index) == *old(index) + 2 && t == u16_at(bytes@, *old(index) as int) as i16
            + current,
{
    let v = next_u16(bytes, index)?;
    Ok(v as i16 as i64 + current as i64)
}

/// A 32-bit relative branch operand, made absolute from `current`.
fn rel32(bytes: &[u8], index: &mut usize, current: usize) -> (r: Result<i64, String>)
    requires
        *old(index) <= bytes@.len(),
        current <= MAX_INSTRUCTIONS_PER_METHOD,
    ensures
        *old(index) <= *final(index) <= bytes@.len(),
        r is Ok <==> *old(index) + 4 <= bytes@.len(),
        r matches Ok(t) ==> *final(index) == *old(index) + 4 && t == u32_at(bytes@, *old(index) as int) as i32
            + current,
{
    let v = next_u32(bytes, index)?;
    Ok(v as i32 as i64 + current as i64)
}

fn class_ref(bytes: &[u8], index: &mut usize, parsed: &ParsedClass) -> (r: Result<String, String>)
    requires
        *old(index) <= bytes@.len(),
    ensures
        *old(index) <= *final(index) <= bytes@.len(),
        r is Ok <==> *old(index) + 2 <= bytes@.len() && class_spec(
            parsed.const_pool@,
            u16_at(bytes@, *old(index) as int),
        ) is Some,
        r is Ok ==> *final(index) == *old(index) + 2,
{
    let i = next_u16(bytes, index)?;
    Ok(parsed.constant_class(i)?.to_owned())
}

/// The instruction that `ldc` or `ldc_w` makes of pool entry `index`.
fn ldc(index: u16, parsed: &ParsedClass) -> (r: Result<Instruction, String>)
    ensures
        r matches Ok(i) ==> branch_target(i) is None,
        r is Ok <==> ldc_ok(parsed.const_pool@, index),
{
    match parsed.constant(index)? {
        Constant::Integer(v) => Ok(Instruction::LDC_INT(*v)),
        Constant::Float(v) => Ok(Instruction::LDC_FLOAT(*v)),
        Constant::String(s) => Ok(Instruction::LDC_STRING(parsed.constant_utf8(*s)?.to_owned())),
        _ => Err("Invalid Value for LDC reference".to_owned()),
    }
}

/// The instruction that `ldc2_w` makes of pool entry `index`.
fn ldc2(index: u16, parsed: &ParsedClass) -> (r: Result<Instruction, String>)
    ensures
        r matches Ok(i) ==> branch_target(i) is None,
        r is Ok <==> ldc2_ok(parsed.const_pool@, index),
{
    match parsed.constant(index)? {
        Constant::Double(v) => Ok(Instruction::LDC_DOUBLE(*v)),
        Constant::Long(v) => Ok(Instruction::LDC_LONG(*v)),
        _ => Err("Invalid Value for LDC2 reference".to_owned()),
    }
}

/// The element type of `newarray`'s one-byte operand.
fn array_type(code: u8) -> (r: Result<Type, String>)
    ensures
        r matches Ok(t) ==> array_type_spec(code) == Some(t),
        r is Err ==> array_type_spec(code) is None,
{
    match code {
        4 => Ok(Type::Boolean),
        5 => Ok(Type::Char),
        6 => Ok(Type::Float),
        7 => Ok(Type::Double),
        8 => Ok(Type::Byte),
        9 => Ok(Type::Short),
        10 => Ok(Type::Int),
        11 => Ok(Type::Long),
        _ => Err("unknown array type".to_owned()),
    }
}

/// Notes a branch at instruction `at` to byte offset `target`, and gives the
/// branch with a provisional address of 0.
fn branch(pending: &mut Vec<(usize, i64, BranchKind)>, at: usize, target: i64, kind: BranchKind) -> (r:
    Instruction)
    ensures
        r == kind_instr(kind, 0),
        branch_target(r) == Some(0u32),
        final(pending)@ == old(pending)@.push((at, target, kind)),
{
    pending.push((at, target, kind));
    kind.with_address(0)
}

/// Decodes the instruction whose opcode `cur` stood at byte `current`;
/// `index` is just after the opcode and moves past the operands. A branch is
/// noted in `pending` as instruction `at`.
#[verifier::rlimit(100)]
fn decode_one(
    bytes: &[u8],
    index: &mut usize,
    current: usize,
    cur: u8,
    parsed: &ParsedClass,
    pending: &mut Vec<(usize, i64, BranchKind)>,
    at: usize,
) -> (r: Result<Instruction, String>)
    requires
        current < bytes@.len(),
        *old(index) == current + 1,
        cur == bytes@[current as int],
        current <= MAX_INSTRUCTIONS_PER_METHOD,
    ensures
        *old(index) <= *final(index) <= bytes@.len(),
        r matches Ok(i) ==> (branch_target(i) is None || branch_target(i) == Some(0u32)),
        !decodable_opcode(cur) ==> r is Err,
        r is Ok <==> one_ok(bytes@, parsed.const_pool@, current as int),
        r is Ok ==> *final(index) == current + 1 + operand_len(cur),
        r matches Ok(i) ==> (simple_decode(bytes@, current as int) matches Some(x) ==> i == x),
        r matches Ok(i) ==> (is_branch_op(cur) ==> i == kind_instr(kind_of(cur), 0) && final(pending)@ == old(
            pending,
        )@.push((at, target_byte(bytes@, current as int) as i64, kind_of(cur)))),
        r matches Ok(i) ==> (!is_branch_op(cur) ==> final(pending)@ == old(pending)@ && branch_target(i) is None),
{
    let ins = match cur {
        0x32 => Instruction::ALOAD(Type::Reference),
        0x53 => Instruction::ASTORE(Type::Reference),
        0x01 => Instruction::ACONST_NULL,
        0x19 => Instruction::LOAD(Type::Reference, next(bytes, index)? as u16),
        0x2a => Instruction::LOAD(Type::Reference, 0),
        0x2b => Instruction::LOAD(Type::Reference, 1),
        0x2c => Instruction::LOAD(Type::Reference, 2),
        0x2d => Instruction::LOAD(Type::Reference, 3),
        0xbd => Instruction::ANEWARRAY(class_ref(bytes, index, parsed)?),
        0xb0 => Instruction::RETURN(Some(Type::Reference)),
        0xbe => Instruction::ARRAYLENGTH,
        0x3a => Instruction::STORE(Type::Reference, next(bytes, index)? as u16),
        0x4b => Instruction::STORE(Type::Reference, 0),
        0x4c => Instruction::STORE(Type::Reference, 1),
        0x4d => Instruction::STORE(Type::Reference, 2),
        0x4e => Instruction::STORE(Type::Reference, 3),
        0xbf => Instruction::ATHROW,
        0x33 => Instruction::ALOAD(Type::Byte),
        0x54 => Instruction::ASTORE(Type::Byte),
        0x10 => Instruction::BIPUSH(next(bytes, index)? as i8),
        0x34 => Instruction::ALOAD(Type::Char),
        0x55 => Instruction::ASTORE(Type::Char),
        0xc0 => Instruction::CHECKCAST(class_ref(bytes, index, parsed)?),
        0x90 => Instruction::CONVERT(Type::Double, Type::Float),
        0x8e => Instruction::CONVERT(Type::Double, Type::Int),
        0x8f => Instruction::CONVERT(Type::Double, Type::Long),
        0x63 => Instruction::ADD(Type::Double),
        0x31 => Instruction::ALOAD(Type::Double),
        0x52 => Instruction::ASTORE(Type::Double),
        0x98 => Instruction::DCMPG,
        0x97 => Instruction::DCMPL,
        0x0e => Instruction::DCONST_0,
        0x0f => Instruction::DCONST_1,
        0x6f => Instruction::DIV(Type::Double),
        0x18 => Instruction::LOAD(Type::Double, next(bytes, index)? as u16),
        0x26 => Instruction::LOAD(Type::Double, 0),
        0x27 => Instruction::LOAD(Type::Double, 1),
        0x28 => Instruction::LOAD(Type::Double, 2),
        0x29 => Instruction::LOAD(Type::Double, 3),
        0x6b => Instruction::MUL(Type::Double),
        0x77 => Instruction::NEG(Type::Double),
        0x73 => Instruction::REM(Type::Double),
        0xaf => Instruction::RETURN(Some(Type::Double)),
        0x39 => Instruction::STORE(Type::Double, next(bytes, index)? as u16),
        0x47 => Instruction::STORE(Type::Double, 0),
        0x48 => Instruction::STORE(Type::Double, 1),
        0x49 => Instruction::STORE(Type::Double, 2),
        0x4a => Instruction::STORE(Type::Double, 3),
        0x67 => Instruction::SUB(Type::Double),
        0x59 => Instruction::DUP,
        0x5a => Instruction::DUP_X1,
        0x5b => Instruction::DUP_X2,
        0x5c => Instruction::DUP2,
        0x5d => Instruction::DUP2_X1,
        0x5e => Instruction::DUP2_X2,
        0x8d => Instruction::CONVERT(Type::Float, Type::Double),
        0x8b => Instruction::CONVERT(Type::Float, Type::Int),
        0x8c => Instruction::CONVERT(Type::Float, Type::Long),
        0x62 => Instruction::ADD(Type::Float),
        0x30 => Instruction::ALOAD(Type::Float),
        0x51 => Instruction::ASTORE(Type::Float),
        0x96 => Instruction::FCMPG,
        0x95 => Instruction::FCMPL,
        0x0b => Instruction::FCONST_0,
        0x0c => Instruction::FCONST_1,
        0x0d => Instruction::FCONST_2,
        0x6e => Instruction::DIV(Type::Float),
        0x17 => Instruction::LOAD(Type::Float, next(bytes, index)? as u16),
        0x22 => Instruction::LOAD(Type::Float, 0),
        0x23 => Instruction::LOAD(Type::Float, 1),
        0x24 => Instruction::LOAD(Type::Float, 2),
        0x25 => Instruction::LOAD(Type::Float, 3),
        0x6a => Instruction::MUL(Type::Float),
        0x76 => Instruction::NEG(Type::Float),
        0x72 => Instruction::REM(Type::Float),
        0xae => Instruction::RETURN(Some(Type::Float)),
        0x38 => Instruction::STORE(Type::Float, next(bytes, index)? as u16),
        0x43 => Instruction::STORE(Type::Float, 0),
        0x44 => Instruction::STORE(Type::Float, 1),
        0x45 => Instruction::STORE(Type::Float, 2),
        0x46 => Instruction::STORE(Type::Float, 3),
        0x66 => Instruction::SUB(Type::Float),
        0xb4 => Instruction::GETFIELD(parsed.constant_field_ref(next_u16(bytes, index)?)?),
        0xb2 => Instruction::GETSTATIC(parsed.constant_field_ref(next_u16(bytes, index)?)?),
        0xa7 => branch(pending, at, rel16(bytes, index, current)?, BranchKind::Goto),
        0xc8 => branch(pending, at, rel32(bytes, index, current)?, BranchKind::Goto),
        0x91 => Instruction::CONVERT(Type::Int, Type::Byte),
        0x92 => Instruction::CONVERT(Type::Int, Type::Char),
        0x87 => Instruction::CONVERT(Type::Int, Type::Double),
        0x86 => Instruction::CONVERT(Type::Int, Type::Float),
        0x85 => Instruction::CONVERT(Type::Int, Type::Long),
        0x93 => Instruction::CONVERT(Type::Int, Type::Short),
        0x60 => Instruction::ADD(Type::Int),
        0x2e => Instruction::ALOAD(Type::Int),
        0x7e => Instruction::AND(Type::Int),
        0x4f => Instruction::ASTORE(Type::Int),
        0x03 => Instruction::BIPUSH(0),
        0x02 => Instruction::BIPUSH(-1),
        0x04 => Instruction::BIPUSH(1),
        0x05 => Instruction::BIPUSH(2),
        0x06 => Instruction::BIPUSH(3),
        0x07 => Instruction::BIPUSH(4),
        0x08 => Instruction::BIPUSH(5),
        0x6c => Instruction::DIV(Type::Int),
        0xa5 => branch(pending, at, rel16(bytes, index, current)?, BranchKind::IfAcmp(true)),
        0xa6 => branch(pending, at, rel16(bytes, index, current)?, BranchKind::IfAcmp(false)),
        0x9f => branch(pending, at, rel16(bytes, index, current)?, BranchKind::IfIcmp(Comparison::EQ)),
        0xa2 => branch(pending, at, rel16(bytes, index, current)?, BranchKind::IfIcmp(Comparison::GE)),
        0xa3 => branch(pending, at, rel16(bytes, index, current)?, BranchKind::IfIcmp(Comparison::GT)),
        0xa4 => branch(pending, at, rel16(bytes, index, current)?, BranchKind::IfIcmp(Comparison::LE)),
        0xa1 => branch(pending, at, rel16(bytes, index, current)?, BranchKind::IfIcmp(Comparison::LT)),
        0xa0 => branch(pending, at, rel16(bytes, index, current)?, BranchKind::IfIcmp(Comparison::NE)),
        0x99 => branch(pending, at, rel16(bytes, index, current)?, BranchKind::If(Comparison::EQ)),
        0x9c => branch(pending, at, rel16(bytes, index, current)?, BranchKind::If(Comparison::GE)),
        0x9d => branch(pending, at, rel16(bytes, index, current)?, BranchKind::If(Comparison::GT)),
        0x9e => branch(pending, at, rel16(bytes, index, current)?, BranchKind::If(Comparison::LE)),
        0x9b => branch(pending, at, rel16(bytes, index, current)?, BranchKind::If(Comparison::LT)),
        0x9a => branch(pending, at, rel16(bytes, index, current)?, BranchKind::If(Comparison::NE)),
        0xc7 => branch(pending, at, rel16(bytes, index, current)?, BranchKind::IfNull(false)),
        0xc6 => branch(pending, at, rel16(bytes, index, current)?, BranchKind::IfNull(true)),
        0x15 => Instruction::LOAD(Type::Int, next(bytes, index)? as u16),
        0x1a => Instruction::LOAD(Type::Int, 0),
        0x1b => Instruction::LOAD(Type::Int, 1),
        0x1c => Instruction::LOAD(Type::Int, 2),
        0x1d => Instruction::LOAD(Type::Int, 3),
        0x68 => Instruction::MUL(Type::Int),
        0x74 => Instruction::NEG(Type::Int),
        0xc1 => Instruction::INSTANCEOF(class_ref(bytes, index, parsed)?),
        0xb7 => Instruction::INVOKESPECIAL(parsed.constant_method_ref(next_u16(bytes, index)?)?),
        0xb8 => Instruction::INVOKESTATIC(parsed.constant_method_ref(next_u16(bytes, index)?)?),
        0xb6 => Instruction::INVOKEVIRTUAL(parsed.constant_method_ref(next_u16(bytes, index)?)?),
        0x80 => Instruction::OR(Type::Int),
        0x70 => Instruction::REM(Type::Int),
        0xac => Instruction::RETURN(Some(Type::Int)),
        0x78 => Instruction::SHL(Type::Int),
        0x7a => Instruction::SHR(Type::Int),
        0x36 => Instruction::STORE(Type::Int, next(bytes, index)? as u16),
        0x3b => Instruction::STORE(Type::Int, 0),
        0x3c => Instruction::STORE(Type::Int, 1),
        0x3d => Instruction::STORE(Type::Int, 2),
        0x3e => Instruction::STORE(Type::Int, 3),
        0x64 => Instruction::SUB(Type::Int),
        0x7c => Instruction::USHR(Type::Int),
        0x82 => Instruction::XOR(Type::Int),
        0xa8 => branch(pending, at, rel16(bytes, index, current)?, BranchKind::Jsr),
        0xc9 => branch(pending, at, rel32(bytes, index, current)?, BranchKind::Jsr),
        0x8a => Instruction::CONVERT(Type::Long, Type::Double),
        0x89 => Instruction::CONVERT(Type::Long, Type::Float),
        0x88 => Instruction::CONVERT(Type::Long, Type::Int),
        0x61 => Instruction::ADD(Type::Long),
        0x2f => Instruction::ALOAD(Type::Long),
        0x7f => Instruction::AND(Type::Long),
        0x50 => Instruction::ASTORE(Type::Long),
        0x94 => Instruction::LCMP,
        0x09 => Instruction::LCONST_0,
        0x0a => Instruction::LCONST_1,
        0x6d => Instruction::DIV(Type::Long),
        0x16 => Instruction::LOAD(Type::Long, next(bytes, index)? as u16),
        0x1e => Instruction::LOAD(Type::Long, 0),
        0x1f => Instruction::LOAD(Type::Long, 1),
        0x20 => Instruction::LOAD(Type::Long, 2),
        0x21 => Instruction::LOAD(Type::Long, 3),
        0x69 => Instruction::MUL(Type::Long),
        0x75 => Instruction::NEG(Type::Long),
        0x81 => Instruction::OR(Type::Long),
        0x71 => Instruction::REM(Type::Long),
        0xad => Instruction::RETURN(Some(Type::Long)),
        0x79 => Instruction::SHL(Type::Long),
        0x7b => Instruction::SHR(Type::Long),
        0x37 => Instruction::STORE(Type::Long, next(bytes, index)? as u16),
        0x3f => Instruction::STORE(Type::Long, 0),
        0x40 => Instruction::STORE(Type::Long, 1),
        0x41 => Instruction::STORE(Type::Long, 2),
        0x42 => Instruction::STORE(Type::Long, 3),
        0x65 => Instruction::SUB(Type::Long),
        0x7d => Instruction::USHR(Type::Long),
        0x83 => Instruction::XOR(Type::Long),
        0xc2 => Instruction::MONITORENTER,
        0xc3 => Instruction::MONITOREXIT,
        0xbb => Instruction::NEW(class_ref(bytes, index, parsed)?),
        0x00 => Instruction::NOP,
        0x57 => Instruction::POP,
        0x58 => Instruction::POP2,
        0xb5 => Instruction::PUTFIELD(parsed.constant_field_ref(next_u16(bytes, index)?)?),
        0xb3 => Instruction::PUTSTATIC(parsed.constant_field_ref(next_u16(bytes, index)?)?),
        0xa9 => Instruction::RET(next(bytes, index)? as u16),
        0xb1 => Instruction::RETURN(None),
        0x35 => Instruction::ALOAD(Type::Short),
        0x56 => Instruction::ASTORE(Type::Short),
        0x11 => Instruction::SIPUSH(next_u16(bytes, index)? as i16),
        0x5f => Instruction::SWAP,
        0x84 => {
            let var = next(bytes, index)?;
            let val = next(bytes, index)?;
            Instruction::IINC(var as u16, (val as i8) as i16)
        },
        0xb9 => {
            let m = parsed.constant_interface_method_ref(next_u16(bytes, index)?)?;
            let count = next(bytes, index)?;
            // the operand after the count is always zero
            next(bytes, index)?;
            Instruction::INVOKEINTERFACE(m, count)
        },
        0x12 => ldc(next(bytes, index)? as u16, parsed)?,
        0x13 => ldc(next_u16(bytes, index)?, parsed)?,
        0x14 => ldc2(next_u16(bytes, index)?, parsed)?,
        0xc5 => {
            let class = class_ref(bytes, index, parsed)?;
            let dims = next(bytes, index)?;
            Instruction::MULTIANEWARRAY(class, dims)
        },
        0xbc => Instruction::NEWARRAY(array_type(next(bytes, index)?)?),
        0xaa | 0xab | 0xc4 => {
            return Err("Unsupported Instruction".to_owned());
        },
        _ => {
            return Err("Unknown Instruction".to_owned());
        },
    };
    Ok(ins)
}

impl Instruction {
    /// Decodes the bytes of a method's code against the pool of its class.
    /// Branch targets become instruction indices; a target that is not the
    /// start of an instruction is an error, as are unknown and unsupported
    /// opcodes and code longer than `MAX_INSTRUCTIONS_PER_METHOD`.
    #[verifier::rlimit(100)]
    pub fn decode(bytes: &[u8], parsed: &ParsedClass) -> (r: Result<Vec<Instruction>, String>)
        ensures
            r is Ok <==> code_ok(bytes@, parsed.const_pool@),
            r matches Ok(v) ==> decodes_to(bytes@, v@),
            r matches Ok(v) ==> v.len() == code_starts(bytes@).len() && targets_valid(v@),
            r matches Ok(v) ==> forall|k: int|
                0 <= k < v.len() ==> (simple_decode(bytes@, #[trigger] code_starts(bytes@)[k]) matches Some(x)
                    ==> v[k] == x),
            r matches Ok(v) ==> forall|k: int|
                0 <= k < v.len() && is_branch_op(bytes@[#[trigger] code_starts(bytes@)[k]]) ==> exists|j: int|
                    0 <= j < v.len() && code_starts(bytes@)[j] == target_byte(bytes@, code_starts(bytes@)[k])
                        && v[k] == branch_with(bytes@[code_starts(bytes@)[k]], j as u32),
            r matches Ok(v) ==> v.len() <= bytes.len() && (v.len() == 0 <==> bytes.len() == 0),
            bytes@.len() == 0 ==> (r matches Ok(v) && v.len() == 0),
            bytes@.len() > 0 && !decodable_opcode(bytes@[0]) ==> r is Err,
    {
        let ghost b = bytes@;
        let ghost pool = parsed.const_pool@;
        proof {
            if b.len() > 0 {
                assert(code_starts(b)[0] == 0);
                if code_ok(b, pool) {
                    assert(one_ok(b, pool, code_starts(b)[0]));
                }
            }
        }
        let len = bytes.len();
        if len > MAX_INSTRUCTIONS_PER_METHOD {
            return Err("code too long".to_owned());
        }
        let mut vec: Vec<Instruction> = Vec::new();
        if len == 0 {
            proof {
                assert(code_starts(b) =~= Seq::<int>::empty());
            }
            return Ok(vec);
        }
        let mut pending: Vec<(usize, i64, BranchKind)> = Vec::new();
        // maps each byte offset that starts an instruction to its index
        let mut starts: Vec<usize> = Vec::new();
        while starts.len() < len
            invariant
                starts.len() <= len,
                forall|q: int| 0 <= q < starts.len() ==> starts[q] == usize::MAX,
            decreases len - starts.len(),
        {
            starts.push(usize::MAX);
        }
        let mut index: usize = 0;
        let ghost mut done: Seq<int> = Seq::empty();
        proof {
            assert(code_starts(b) =~= done + starts_from(b, 0));
        }
        while index < len
            invariant
                b == bytes@,
                pool == parsed.const_pool@,
                len == bytes@.len(),
                0 < len <= MAX_INSTRUCTIONS_PER_METHOD,
                index <= len,
                code_starts(b) == done + starts_from(b, index as int),
                vec.len() == done.len(),
                vec.len() <= index,
                forall|k: int| 0 <= k < done.len() ==> 0 <= #[trigger] done[k] < index,
                forall|k: int| 0 <= k < done.len() ==> one_ok(b, pool, #[trigger] done[k]),
                starts.len() == len,
                forall|k: int| 0 <= k < done.len() ==> starts[#[trigger] done[k]] == k,
                forall|q: int|
                    0 <= q < len && #[trigger] starts[q] != usize::MAX ==> starts[q] < done.len() && done[starts[q]
                        as int] == q,
                forall|k: int|
                    0 <= k < done.len() ==> (simple_decode(b, #[trigger] done[k]) matches Some(x) ==> vec[k] == x),
                forall|p: int|
                    0 <= p < pending.len() ==> {
                        let k = (#[trigger] pending[p]).0 as int;
                        &&& k < done.len()
                        &&& is_branch_op(b[done[k]])
                        &&& pending[p].1 == target_byte(b, done[k]) as i64
                        &&& pending[p].2 == kind_of(b[done[k]])
                    },
                forall|p: int, q: int| 0 <= p < q < pending.len() ==> (#[trigger] pending[p]).0 < (#[trigger] pending[q]).0,
                forall|k: int|
                    0 <= k < done.len() && is_branch_op(b[#[trigger] done[k]]) ==> exists|p: int|
                        0 <= p < pending.len() && (#[trigger] pending[p]).0 == k,
                targets_valid(vec@),
            decreases len - index,
        {
            let cur = bytes[index];
            let current = index;
            proof {
                assert(starts_from(b, current as int)[0] == current);
                assert((done + starts_from(b, current as int))[done.len() as int] == current);
            }
            index = index + 1;
            let ghost pending_before = pending@;
            let ins = match decode_one(bytes, &mut index, current, cur, parsed, &mut pending, vec.len()) {
                Ok(i) => i,
                Err(e) => {
                    proof {
                        let s = code_starts(b);
                        assert(s[done.len() as int] == current);
                    }
                    return Err(e);
                },
            };
            starts.set(current, vec.len());
            let ghost before = vec@;
            vec.push(ins);
            proof {
                let next = current + 1 + operand_len(cur);
                assert(starts_from(b, current as int) =~= seq![current as int] + starts_from(b, next));
                let done0 = done;
                done = done.push(current as int);
                assert(done0 + starts_from(b, current as int) =~= done + starts_from(b, index as int));
                assert forall|i: int| 0 <= i < vec.len() implies (#[trigger] branch_target(vec[i]) matches Some(
                    t,
                ) ==> t < vec.len()) by {
                    if i < vec.len() - 1 {
                        assert(vec[i] == before[i]);
                    }
                }
                assert forall|k: int| 0 <= k < done.len() implies (simple_decode(b, #[trigger] done[k]) matches Some(x)
                    ==> vec[k] == x) by {
                    if k < done.len() - 1 {
                        assert(vec[k] == before[k] && done[k] == done0[k]);
                    }
                }
                assert forall|k: int| 0 <= k < done.len() implies starts[#[trigger] done[k]] == k by {
                    if k < done.len() - 1 {
                        assert(done[k] == done0[k]);
                    }
                }
                assert forall|q: int|
                    0 <= q < len && #[trigger] starts[q] != usize::MAX implies starts[q] < done.len() && done[starts[q]
                        as int] == q by {
                    if q != current {
                        assert(done[starts[q] as int] == done0[starts[q] as int]);
                    }
                }
                assert forall|p: int|
                    0 <= p < pending.len() implies {
                        let k = (#[trigger] pending[p]).0 as int;
                        &&& k < done.len()
                        &&& is_branch_op(b[done[k]])
                        &&& pending[p].1 == target_byte(b, done[k]) as i64
                        &&& pending[p].2 == kind_of(b[done[k]])
                    } by {
                    if p < pending_before.len() {
                        assert(pending[p] == pending_before[p]);
                        assert(done[pending[p].0 as int] == done0[pending[p].0 as int]);
                    }
                }
                assert forall|p: int, q: int| 0 <= p < q < pending.len() implies (#[trigger] pending[p]).0 < (#[trigger] pending[q]).0 by {
                    if q >= pending_before.len() {
                        assert(pending[p] == pending_before[p]);
                    } else {
                        assert(pending[p] == pending_before[p] && pending[q] == pending_before[q]);
                    }
                }
                assert forall|k: int|
                    0 <= k < done.len() && is_branch_op(b[#[trigger] done[k]]) implies exists|p: int|
                        0 <= p < pending.len() && (#[trigger] pending[p]).0 == k by {
                    if k < done.len() - 1 {
                        assert(done[k] == done0[k]);
                        let p = choose|p: int| 0 <= p < pending_before.len() && (#[trigger] pending_before[p]).0 == k;
                        assert(pending[p] == pending_before[p]);
                    } else {
                        assert(pending[pending.len() - 1].0 == k);
                    }
                }
            }
        }
        proof {
            assert(starts_from(b, len as int) =~= Seq::<int>::empty());
            assert(done =~= code_starts(b));
        }
        let ghost main_vec = vec@;
        let mut k: usize = 0;
        while k < pending.len()
            invariant
                b == bytes@,
                pool == parsed.const_pool@,
                len == bytes@.len(),
                0 < len <= MAX_INSTRUCTIONS_PER_METHOD,
                done == code_starts(b),
                vec.len() == done.len(),
                vec.len() > 0,
                done.len() <= len,
                k <= pending.len(),
                forall|k: int| 0 <= k < done.len() ==> 0 <= #[trigger] done[k] < len,
                forall|k: int| 0 <= k < done.len() ==> one_ok(b, pool, #[trigger] done[k]),
                starts.len() == len,
                forall|k: int| 0 <= k < done.len() ==> starts[#[trigger] done[k]] == k,
                forall|q: int|
                    0 <= q < len && #[trigger] starts[q] != usize::MAX ==> starts[q] < done.len() && done[starts[q]
                        as int] == q,
                forall|j: int|
                    0 <= j < done.len() ==> (simple_decode(b, #[trigger] done[j]) matches Some(x) ==> vec[j] == x),
                forall|p: int|
                    0 <= p < pending.len() ==> {
                        let k = (#[trigger] pending[p]).0 as int;
                        &&& k < done.len()
                        &&& is_branch_op(b[done[k]])
                        &&& pending[p].1 == target_byte(b, done[k]) as i64
                        &&& pending[p].2 == kind_of(b[done[k]])
                    },
                forall|p: int, q: int| 0 <= p < q < pending.len() ==> (#[trigger] pending[p]).0 < (#[trigger] pending[q]).0,
                forall|j: int|
                    0 <= j < done.len() && is_branch_op(b[#[trigger] done[j]]) ==> exists|p: int|
                        0 <= p < pending.len() && (#[trigger] pending[p]).0 == j,
                forall|p: int|
                    0 <= p < k ==> {
                        let j = (#[trigger] pending[p]).0 as int;
                        exists|t: int|
                            0 <= t < done.len() && done[t] == target_byte(b, done[j]) && vec[j] == branch_with(
                                b[done[j]],
                                t as u32,
                            )
                    },
                targets_valid(vec@),
            decreases pending.len() - k,
        {
            let (at, target, kind) = pending[k];
            if target < 0 || target >= len as i64 || starts[target as usize] == usize::MAX || at >= vec.len() {
                proof {
                    let j = at as int;
                    if done.contains(target_byte(b, done[j])) {
                        let t = choose|t: int| 0 <= t < done.len() && done[t] == target_byte(b, done[j]);
                        assert(starts[done[t]] == t);
                    }
                }
                return Err("Can't resolve CodeAddress".to_owned());
            }
            let addr = starts[target as usize] as CodeAddress;
            let ghost before = vec@;
            vec.set(at, kind.with_address(addr));
            proof {
                let q = target as int;
                assert(starts@[q] != usize::MAX);
                assert(done[starts@[q] as int] == q);
                assert(addr as int == starts@[q] as int);
                assert(done[addr as int] == target);
                assert forall|i: int| 0 <= i < vec.len() implies (#[trigger] branch_target(vec[i]) matches Some(
                    t,
                ) ==> t < vec.len()) by {
                    if i != at {
                        assert(vec[i] == before[i]);
                    }
                }
                assert forall|j: int|
                    0 <= j < done.len() implies (simple_decode(b, #[trigger] done[j]) matches Some(x) ==> vec[j] == x) by {
                    if j != at {
                        assert(vec[j] == before[j]);
                    }
                }
                assert forall|p: int|
                    0 <= p < k + 1 implies {
                        let j = (#[trigger] pending[p]).0 as int;
                        exists|t: int|
                            0 <= t < done.len() && done[t] == target_byte(b, done[j]) && vec[j] == branch_with(
                                b[done[j]],
                                t as u32,
                            )
                    } by {
                    if p < k {
                        let j = pending[p].0 as int;
                        assert(pending[p].0 < pending[k as int].0);
                        assert(vec[j] == before[j]);
                    } else {
                        assert(vec[at as int] == branch_with(b[done[at as int]], addr));
                    }
                }
            }
            k = k + 1;
        }
        proof {
            assert forall|j: int|
                0 <= j < vec.len() && is_branch_op(b[#[trigger] code_starts(b)[j]]) implies exists|t: int|
                    0 <= t < vec.len() && code_starts(b)[t] == target_byte(b, code_starts(b)[j]) && vec[j]
                        == branch_with(b[code_starts(b)[j]], t as u32) by {
                let p = choose|p: int| 0 <= p < pending.len() && (#[trigger] pending[p]).0 == j;
                assert(pending[p].0 == j);
            }
            assert forall|j: int|
                0 <= j < done.len() && is_branch_op(b[#[trigger] done[j]]) implies done.contains(target_byte(b, done[j])) by {
                let p = choose|p: int| 0 <= p < pending.len() && (#[trigger] pending[p]).0 == j;
                assert(pending[p].0 == j);
                let t = choose|t: int|
                    0 <= t < done.len() && done[t] == target_byte(b, done[j]) && vec[j] == branch_with(b[done[j]], t as u32);
                assert(done[t] == target_byte(b, done[j]));
            }
            assert(code_ok(b, pool));
        }
        Ok(vec)
    }
}

} // verus!
