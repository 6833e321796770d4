use vstd::prelude::*;
use crate::class::{Class, Method, str_eq, ACC_NATIVE, ACC_PUBLIC, ACC_STATIC};
use crate::class_loader::{ClassLoader, class_named};
use crate::descriptor::{FieldDescriptor, MethodDescriptor};
use crate::errors::ClassLoadingError;
use crate::hierarchy::{fault_is, method_owner_spec, strict_super_spec, super_method_owner_spec, ChainFault};
use crate::instruction::{Instruction, LocalVarRef, Type, branch_target, compare_spec};
use crate::object::{ArrayObject, InstanceObject, Object};
use crate::parsed_class::{FieldRef, MethodRef};

verus! {

/// Why the interpreter stopped on a fault.
#[derive(Debug)]
pub enum VmFault {
    NullReference,
    ArrayIndexOutOfBounds,
    ArithmeticException,
    NegativeArraySize,
    ClassCast,
    StackOverflow,
    StackUnderflow,
    LocalOutOfRange,
    /// The code ran past its last instruction.
    EndOfCode,
    NoSuchMethod,
    /// A method without code that is not native.
    NoCode,
    WrongObjectKind,
    HeapFull,
    Unimplemented,
    StartMethodMissing,
    StartMethodSignatureMismatch,
    Linkage(ClassLoadingError),
}

/// A floating-point operation, left to the caller: it pops the operands'
/// words (a float one, a double two, high word deeper), computes, and pushes
/// the result the same way.
#[derive(Debug, Clone, Copy, PartialEq, Eq)]
pub enum FloatOp {
    Add(Type),
    Sub(Type),
    Mul(Type),
    Div(Type),
    Rem(Type),
    Neg(Type),
    Convert(Type, Type),
    /// `fcmpg` / `dcmpg`: 1 when an operand is NaN.
    CmpG(Type),
    /// `fcmpl` / `dcmpl`: the result for NaN that this machine gives is 0.
    CmpL(Type),
}

/// What a step of the interpreter came to.
#[derive(Debug)]
pub enum StepResult {
    /// One instruction was executed.
    Continue,
    /// `main` returned.
    Finished,
    /// A class must be loaded first; nothing has changed, so the step can
    /// be taken again once it is.
    NeedClass(String),
    /// The native `dump_char(C)V` was called with this UTF-16 code unit.
    Print(u32),
    /// A float operation is due; the instruction pointer has moved on.
    Float(FloatOp),
    Fault(VmFault),
}

/// An integer operation of the arithmetic instructions.
#[derive(Debug, Clone, Copy, PartialEq, Eq, Structural)]
pub enum IntOp {
    Add,
    Sub,
    Mul,
    Div,
    Rem,
    And,
    Or,
    Xor,
    Shl,
    Shr,
    UShr,
}

/// The result of an `int` operation; `None` for a division by zero.
/// Shifts take the low five bits of the count.
pub open spec fn int_op_spec(op: IntOp, a: i32, b: i32) -> Option<i32> {
    match op {
        IntOp::Add => Some(a.wrapping_add(b)),
        IntOp::Sub => Some(a.wrapping_sub(b)),
        IntOp::Mul => Some(a.wrapping_mul(b)),
        IntOp::Div => if b == 0 {
            None
        } else {
            Some(int_div(a, b))
        },
        IntOp::Rem => if b == 0 {
            None
        } else {
            Some(int_rem(a, b))
        },
        IntOp::And => Some(a & b),
        IntOp::Or => Some(a | b),
        IntOp::Xor => Some(a ^ b),
        IntOp::Shl => Some(a.wrapping_shl(b as u32)),
        IntOp::Shr => Some(a.wrapping_shr(b as u32)),
        IntOp::UShr => Some((a as u32).wrapping_shr(b as u32) as i32),
    }
}

/// Division rounding toward zero, wrapping for `MIN / -1`.
pub open spec fn int_div(a: i32, b: i32) -> i32 {
    let q = (if a >= 0 { a as int } else { -a }) / (if b >= 0 { b as int } else { -b });
    let t = if (a >= 0) == (b >= 0) { q } else { -q };
    if t > i32::MAX { i32::MIN } else { t as i32 }
}

pub open spec fn int_rem(a: i32, b: i32) -> i32 {
    let r = (if a >= 0 { a as int } else { -a }) % (if b >= 0 { b as int } else { -b });
    (if a >= 0 { r } else { -r }) as i32
}

/// The result of a `long` operation; `None` for a division by zero.
/// Shifts take the low six bits of the count.
pub open spec fn long_op_spec(op: IntOp, a: i64, b: i64) -> Option<i64> {
    match op {
        IntOp::Add => Some(a.wrapping_add(b)),
        IntOp::Sub => Some(a.wrapping_sub(b)),
        IntOp::Mul => Some(a.wrapping_mul(b)),
        IntOp::Div => if b == 0 {
            None
        } else {
            Some(long_div(a, b))
        },
        IntOp::Rem => if b == 0 {
            None
        } else {
            Some(long_rem(a, b))
        },
        IntOp::And => Some(a & b),
        IntOp::Or => Some(a | b),
        IntOp::Xor => Some(a ^ b),
        IntOp::Shl => Some(a.wrapping_shl(b as u32)),
        IntOp::Shr => Some(a.wrapping_shr(b as u32)),
        IntOp::UShr => Some((a as u64).wrapping_shr(b as u32) as i64),
    }
}

pub open spec fn long_div(a: i64, b: i64) -> i64 {
    let q = (if a >= 0 { a as int } else { -a }) / (if b >= 0 { b as int } else { -b });
    let t = if (a >= 0) == (b >= 0) { q } else { -q };
    if t > i64::MAX { i64::MIN } else { t as i64 }
}

pub open spec fn long_rem(a: i64, b: i64) -> i64 {
    let r = (if a >= 0 { a as int } else { -a }) % (if b >= 0 { b as int } else { -b });
    (if a >= 0 { r } else { -r }) as i64
}

/// The magnitude of `a` as an unsigned number.
fn abs32(a: i32) -> (r: u32)
    ensures
        r == (if a >= 0 { a as int } else { -a }),
{
    if a >= 0 {
        a as u32
    } else if a == i32::MIN {
        0x8000_0000u32
    } else {
        (-a) as u32
    }
}

fn abs64(a: i64) -> (r: u64)
    ensures
        r == (if a >= 0 { a as int } else { -a }),
{
    if a >= 0 {
        a as u64
    } else if a == i64::MIN {
        0x8000_0000_0000_0000u64
    } else {
        (-a) as u64
    }
}

/// Applies an `int` operation.
pub fn int_op(op: IntOp, a: i32, b: i32) -> (r: Option<i32>)
    ensures
        r == int_op_spec(op, a, b),
{
    match op {
        IntOp::Add => Some(a.wrapping_add(b)),
        IntOp::Sub => Some(a.wrapping_sub(b)),
        IntOp::Mul => Some(a.wrapping_mul(b)),
        IntOp::Div => {
            if b == 0 {
                return None;
            }
            let q = abs32(a) / abs32(b);
            if (a >= 0) == (b >= 0) {
                if q > i32::MAX as u32 {
                    Some(i32::MIN)
                } else {
                    Some(q as i32)
                }
            } else {
                if q == 0x8000_0000u32 {
                    Some(i32::MIN)
                } else {
                    Some(-(q as i32))
                }
            }
        },
        IntOp::Rem => {
            if b == 0 {
                return None;
            }
            let d = abs32(b);
            let m = abs32(a) % d;
            if a >= 0 {
                Some(m as i32)
            } else {
                Some(-(m as i32))
            }
        },
        IntOp::And => Some(a & b),
        IntOp::Or => Some(a | b),
        IntOp::Xor => Some(a ^ b),
        IntOp::Shl => Some(a.wrapping_shl(b as u32)),
        IntOp::Shr => Some(a.wrapping_shr(b as u32)),
        IntOp::UShr => Some((a as u32).wrapping_shr(b as u32) as i32),
    }
}

/// Applies a `long` operation; for a shift `b` is the count.
pub fn long_op(op: IntOp, a: i64, b: i64) -> (r: Option<i64>)
    ensures
        r == long_op_spec(op, a, b),
{
    match op {
        IntOp::Add => Some(a.wrapping_add(b)),
        IntOp::Sub => Some(a.wrapping_sub(b)),
        IntOp::Mul => Some(a.wrapping_mul(b)),
        IntOp::Div => {
            if b == 0 {
                return None;
            }
            let q = abs64(a) / abs64(b);
            if (a >= 0) == (b >= 0) {
                if q > i64::MAX as u64 {
                    Some(i64::MIN)
                } else {
                    Some(q as i64)
                }
            } else {
                if q == 0x8000_0000_0000_0000u64 {
                    Some(i64::MIN)
                } else {
                    Some(-(q as i64))
                }
            }
        },
        IntOp::Rem => {
            if b == 0 {
                return None;
            }
            let d = abs64(b);
            let m = abs64(a) % d;
            if a >= 0 {
                Some(m as i64)
            } else {
                Some(-(m as i64))
            }
        },
        IntOp::And => Some(a & b),
        IntOp::Or => Some(a | b),
        IntOp::Xor => Some(a ^ b),
        IntOp::Shl => Some(a.wrapping_shl(b as u32)),
        IntOp::Shr => Some(a.wrapping_shr(b as u32)),
        IntOp::UShr => Some((a as u64).wrapping_shr(b as u32) as i64),
    }
}

/// The two words of a 64-bit value: high, then low.
pub open spec fn long_words(v: i64) -> (i32, i32) {
    (((v as int) / 0x1_0000_0000) as i32, (v as int % 0x1_0000_0000) as u32 as i32)
}

pub open spec fn long_of_words(hi: i32, lo: i32) -> i64 {
    (hi as int * 0x1_0000_0000 + lo as u32 as int) as i64
}

/// Splits a 64-bit value into its high and low word.
pub fn split_long(v: i64) -> (r: [i32; 2])
    ensures
        r[0] == long_words(v).0,
        r[1] == long_words(v).1,
        long_of_words(r[0], r[1]) == v,
{
    let hi = (v >> 32u32) as i32;
    let lo = (v as u64 & 0xffff_ffffu64) as u32 as i32;
    assert(hi == ((v as int) / 0x1_0000_0000) as i32) by (bit_vector)
        requires
            hi == (v >> 32u32) as i32,
    ;
    assert(lo == ((v as int % 0x1_0000_0000) as u32 as i32)) by (bit_vector)
        requires
            lo == (v as u64 & 0xffff_ffffu64) as u32 as i32,
    ;
    assert(((hi as int * 0x1_0000_0000 + lo as u32 as int) as i64) == v) by (bit_vector)
        requires
            hi == (v >> 32u32) as i32,
            lo == (v as u64 & 0xffff_ffffu64) as u32 as i32,
    ;
    [hi, lo]
}

/// The 64-bit value of a high and a low word.
pub fn join_long(w: [i32; 2]) -> (r: i64)
    ensures
        r == long_of_words(w[0], w[1]),
{
    let hi = w[0];
    let lo = w[1];
    let r = ((hi as i64) << 32u32) | (lo as u32 as i64);
    assert(r == ((hi as int * 0x1_0000_0000 + lo as u32 as int) as i64)) by (bit_vector)
        requires
            r == ((hi as i64) << 32u32) | (lo as u32 as i64),
    ;
    r
}


/// `n` words of zero.
fn zero_words(n: usize) -> (r: Vec<i32>)
    ensures
        r@ == Seq::new(n as nat, |i: int| 0i32),
{
    let mut v: Vec<i32> = Vec::new();
    while v.len() < n
        invariant
            v.len() <= n,
            v@ == Seq::new(v.len() as nat, |i: int| 0i32),
        decreases n - v.len(),
    {
        v.push(0);
        assert(v@ =~= Seq::new(v.len() as nat, |i: int| 0i32));
    }
    v
}

/// The activation of a method: its operand stack and local variables, and
/// where it stands in its code.
#[derive(Debug)]
pub struct Frame {
    /// The running method: its class's position among the loaded classes and
    /// its position among that class's methods. `None` for the frame that
    /// starts `main`, which has no code.
    pub code_ref: Option<(usize, usize)>,
    pub ip: usize,
    pub sp: usize,
    pub local_vars: Vec<i32>,
    pub stack: Vec<i32>,
    /// The class that declares the running method.
    pub current_class: String,
}

impl Frame {
    pub open spec fn wf(&self) -> bool {
        self.sp <= self.stack.len()
    }

    /// The words on the operand stack, bottom first.
    pub open spec fn operands(&self) -> Seq<i32> {
        self.stack@.subrange(0, self.sp as int)
    }

    /// A frame without code whose operand stack holds `stack_size` words.
    pub fn dummy_frame(stack_size: usize) -> (r: Frame)
        ensures
            r.wf(),
            r.sp == 0,
            r.stack.len() == stack_size,
            r.code_ref is None,
    {
        Frame {
            ip: 0,
            sp: 0,
            stack: zero_words(stack_size),
            local_vars: Vec::new(),
            code_ref: None,
            current_class: String::new(),
        }
    }

    pub fn push(&mut self, val: i32) -> (r: Result<(), VmFault>)
        requires
            old(self).wf(),
        ensures
            final(self).wf(),
            final(self).code_ref == old(self).code_ref,
            final(self).ip == old(self).ip,
            final(self).local_vars == old(self).local_vars,
            final(self).current_class == old(self).current_class,
            final(self).stack.len() == old(self).stack.len(),
            r is Ok <==> old(self).sp < old(self).stack.len(),
            r is Ok ==> final(self).operands() == old(self).operands().push(val) && final(self).sp == old(self).sp + 1,
            r is Err ==> *final(self) == *old(self),
    {
        if self.sp >= self.stack.len() {
            return Err(VmFault::StackOverflow);
        }
        self.stack.set(self.sp, val);
        self.sp = self.sp + 1;
        proof {
            assert(self.operands() =~= old(self).operands().push(val));
        }
        Ok(())
    }

    /// Pushes two words, `val[0]` deeper.
    pub fn push2(&mut self, val: [i32; 2]) -> (r: Result<(), VmFault>)
        requires
            old(self).wf(),
        ensures
            final(self).wf(),
            final(self).code_ref == old(self).code_ref,
            final(self).ip == old(self).ip,
            final(self).local_vars == old(self).local_vars,
            final(self).current_class == old(self).current_class,
            final(self).stack.len() == old(self).stack.len(),
            r is Ok ==> final(self).operands() == old(self).operands().push(val[0]).push(val[1]) && final(self).sp
                == old(self).sp + 2,
            old(self).sp + 2 <= old(self).stack.len() ==> r is Ok,
    {
        self.push(val[0])?;
        self.push(val[1])
    }

    pub fn pop(&mut self) -> (r: Result<i32, VmFault>)
        requires
            old(self).wf(),
        ensures
            final(self).wf(),
            final(self).code_ref == old(self).code_ref,
            final(self).ip == old(self).ip,
            final(self).local_vars == old(self).local_vars,
            final(self).current_class == old(self).current_class,
            final(self).stack.len() == old(self).stack.len(),
            r is Ok <==> old(self).sp > 0,
            r matches Ok(v) ==> v == old(self).operands().last() && final(self).operands() == old(
                self,
            ).operands().drop_last() && final(self).sp == old(self).sp - 1,
            r is Err ==> *final(self) == *old(self),
    {
        if self.sp == 0 {
            return Err(VmFault::StackUnderflow);
        }
        self.sp = self.sp - 1;
        proof {
            assert(self.operands() =~= old(self).operands().drop_last());
        }
        Ok(self.stack[self.sp])
    }

    /// Pops two words: the deeper one comes first in the result.
    pub fn pop2(&mut self) -> (r: Result<[i32; 2], VmFault>)
        requires
            old(self).wf(),
        ensures
            final(self).wf(),
            final(self).code_ref == old(self).code_ref,
            final(self).ip == old(self).ip,
            final(self).local_vars == old(self).local_vars,
            final(self).current_class == old(self).current_class,
            final(self).stack.len() == old(self).stack.len(),
            r matches Ok(v) ==> old(self).sp >= 2 && v[0] == old(self).operands()[old(self).sp - 2] && v[1]
                == old(self).operands()[old(self).sp - 1] && final(self).operands() == old(
                self,
            ).operands().subrange(0, old(self).sp - 2) && final(self).sp == old(self).sp - 2,
            old(self).sp >= 2 ==> r is Ok,
    {
        let b = self.pop()?;
        let a = self.pop()?;
        proof {
            assert(self.operands() =~= old(self).operands().subrange(0, old(self).sp - 2));
        }
        Ok([a, b])
    }

    pub fn top(&self) -> (r: Result<i32, VmFault>)
        requires
            self.wf(),
        ensures
            r matches Ok(v) ==> self.sp > 0 && v == self.operands().last(),
    {
        self.nth_from_top(0)
    }

    /// The word `n` places below the top of the operand stack.
    pub fn nth_from_top(&self, n: usize) -> (r: Result<i32, VmFault>)
        requires
            self.wf(),
        ensures
            r is Ok <==> n < self.sp,
            r matches Ok(v) ==> v == self.stack[self.sp - 1 - n],
    {
        if n >= self.sp {
            return Err(VmFault::StackUnderflow);
        }
        Ok(self.stack[self.sp - 1 - n])
    }

    pub fn store(&mut self, index: LocalVarRef, val: i32) -> (r: Result<(), VmFault>)
        requires
            old(self).wf(),
        ensures
            final(self).wf(),
            final(self).code_ref == old(self).code_ref,
            final(self).ip == old(self).ip,
            final(self).sp == old(self).sp,
            final(self).stack == old(self).stack,
            final(self).current_class == old(self).current_class,
            r is Ok <==> (index as int) < old(self).local_vars.len(),
            r is Ok ==> final(self).local_vars@ == old(self).local_vars@.update(index as int, val),
            r is Err ==> final(self).local_vars == old(self).local_vars,
    {
        if index as usize >= self.local_vars.len() {
            return Err(VmFault::LocalOutOfRange);
        }
        self.local_vars.set(index as usize, val);
        Ok(())
    }

    /// Stores two words at `index` and `index + 1`, the high word first.
    pub fn store2(&mut self, index: LocalVarRef, val: [i32; 2]) -> (r: Result<(), VmFault>)
        requires
            old(self).wf(),
        ensures
            final(self).wf(),
            final(self).code_ref == old(self).code_ref,
            final(self).ip == old(self).ip,
            final(self).sp == old(self).sp,
            final(self).stack == old(self).stack,
            final(self).current_class == old(self).current_class,
            r is Ok ==> final(self).local_vars@ == old(self).local_vars@.update(index as int, val[0]).update(
                index + 1,
                val[1],
            ),
            index + 1 < old(self).local_vars.len() ==> r is Ok,
    {
        if index as usize + 1 >= self.local_vars.len() {
            return Err(VmFault::LocalOutOfRange);
        }
        self.local_vars.set(index as usize, val[0]);
        self.local_vars.set(index as usize + 1, val[1]);
        Ok(())
    }

    pub fn load(&self, index: LocalVarRef) -> (r: Result<i32, VmFault>)
        ensures
            r is Ok <==> (index as int) < self.local_vars.len(),
            r matches Ok(v) ==> v == self.local_vars[index as int],
    {
        if index as usize >= self.local_vars.len() {
            return Err(VmFault::LocalOutOfRange);
        }
        Ok(self.local_vars[index as usize])
    }

    pub fn load2(&self, index: LocalVarRef) -> (r: Result<[i32; 2], VmFault>)
        ensures
            r matches Ok(v) ==> index + 1 < self.local_vars.len() && v[0] == self.local_vars[index as int]
                && v[1] == self.local_vars[index + 1],
            index + 1 < self.local_vars.len() ==> r is Ok,
    {
        if index as usize + 1 >= self.local_vars.len() {
            return Err(VmFault::LocalOutOfRange);
        }
        Ok([self.local_vars[index as usize], self.local_vars[index as usize + 1]])
    }
}


/// The interpreter: the loaded classes, the heap, the suspended callers and
/// the running frame, and a log of the native methods called.
pub struct VM {
    pub classloader: ClassLoader,
    pub frames: Vec<Frame>,
    pub current: Frame,
    /// Slot 0 stays empty: it is the null reference.
    pub heap: Vec<Option<Object>>,
    /// The static fields of each class whose statics were used: its name
    /// and one word per word of its static fields, in their order.
    pub statics: Vec<(String, Vec<i32>)>,
    pub native_calls: Vec<(String, String, Vec<i32>)>,
}

/// The frame's method, if it has one, is a loaded method with code.
pub open spec fn code_ok(cs: Seq<Class>, f: Frame) -> bool {
    match f.code_ref {
        None => true,
        Some((ci, mi)) => ci < cs.len() && mi < cs[ci as int].methods.len()
            && cs[ci as int].methods[mi as int].code is Some,
    }
}

pub open spec fn heap_ok(heap: Seq<Option<Object>>) -> bool {
    &&& heap.len() >= 1
    &&& heap.len() <= i32::MAX
    &&& heap[0] is None
    &&& forall|i: int| 0 <= i < heap.len() ==> (#[trigger] heap[i] matches Some(Object::Array(a)) ==> a.wf())
}

pub open spec fn frames_ok(cs: Seq<Class>, frames: Seq<Frame>) -> bool {
    forall|i: int| 0 <= i < frames.len() ==> (#[trigger] frames[i]).wf() && code_ok(cs, frames[i])
}

/// The integer operation of an `int` arithmetic instruction.
pub open spec fn int_arith_of(ins: Instruction) -> Option<IntOp> {
    match ins {
        Instruction::ADD(Type::Int) => Some(IntOp::Add),
        Instruction::SUB(Type::Int) => Some(IntOp::Sub),
        Instruction::MUL(Type::Int) => Some(IntOp::Mul),
        Instruction::DIV(Type::Int) => Some(IntOp::Div),
        Instruction::REM(Type::Int) => Some(IntOp::Rem),
        Instruction::AND(Type::Int) => Some(IntOp::And),
        Instruction::OR(Type::Int) => Some(IntOp::Or),
        Instruction::XOR(Type::Int) => Some(IntOp::Xor),
        Instruction::SHL(Type::Int) => Some(IntOp::Shl),
        Instruction::SHR(Type::Int) => Some(IntOp::Shr),
        Instruction::USHR(Type::Int) => Some(IntOp::UShr),
        _ => None,
    }
}

/// What an `int` operation leaves on a frame whose operands were `ops`:
/// the result in place of the two top words, or `None` for a fault.
pub open spec fn int_arith_result(op: IntOp, ops: Seq<i32>) -> Option<Seq<i32>> {
    match int_op_spec(op, ops[ops.len() - 2], ops[ops.len() - 1]) {
        Some(v) => Some(ops.subrange(0, ops.len() - 2).push(v)),
        None => None,
    }
}

/// The integer operation of a `long` arithmetic instruction.
pub open spec fn long_arith_of(ins: Instruction) -> Option<IntOp> {
    match ins {
        Instruction::ADD(Type::Long) => Some(IntOp::Add),
        Instruction::SUB(Type::Long) => Some(IntOp::Sub),
        Instruction::MUL(Type::Long) => Some(IntOp::Mul),
        Instruction::DIV(Type::Long) => Some(IntOp::Div),
        Instruction::REM(Type::Long) => Some(IntOp::Rem),
        Instruction::AND(Type::Long) => Some(IntOp::And),
        Instruction::OR(Type::Long) => Some(IntOp::Or),
        Instruction::XOR(Type::Long) => Some(IntOp::Xor),
        Instruction::SHL(Type::Long) => Some(IntOp::Shl),
        Instruction::SHR(Type::Long) => Some(IntOp::Shr),
        Instruction::USHR(Type::Long) => Some(IntOp::UShr),
        _ => None,
    }
}

/// `ops` with a `long` value (two words, the high one deeper) in place of
/// its top `n` words.
pub open spec fn with_long(ops: Seq<i32>, n: int, v: i64) -> Seq<i32> {
    ops.subrange(0, ops.len() - n).push(long_words(v).0).push(long_words(v).1)
}

/// The operand stack holds the words a `long` operation takes.
pub open spec fn long_arith_ready(op: IntOp, ops: Seq<i32>) -> bool {
    ops.len() >= if op == IntOp::Shl || op == IntOp::Shr || op == IntOp::UShr {
        3int
    } else {
        4int
    }
}

/// What a `long` operation leaves on a frame whose operands were `ops`: two
/// `long` operands (a shift: a `long` and an `int` count) replaced by the
/// result; `None` for too few words or a division by zero.
pub open spec fn long_arith_result(op: IntOp, ops: Seq<i32>) -> Option<Seq<i32>> {
    let n = ops.len() as int;
    if op == IntOp::Shl || op == IntOp::Shr || op == IntOp::UShr {
        if n < 3 {
            None
        } else {
            match long_op_spec(op, long_of_words(ops[n - 3], ops[n - 2]), ops[n - 1] as i64) {
                Some(v) => Some(with_long(ops, 3, v)),
                None => None,
            }
        }
    } else {
        if n < 4 {
            None
        } else {
            match long_op_spec(op, long_of_words(ops[n - 4], ops[n - 3]), long_of_words(ops[n - 2], ops[n - 1])) {
                Some(v) => Some(with_long(ops, 4, v)),
                None => None,
            }
        }
    }
}

/// What a one-word `load` or `store` does to the operand words `ops` and the
/// locals `locals` of the running frame, whose stack holds `cap` words; `None`
/// for other instructions and for a fault.
pub open spec fn local_effect(ins: Instruction, ops: Seq<i32>, locals: Seq<i32>, cap: nat) -> Option<
    (Seq<i32>, Seq<i32>),
> {
    match ins {
        Instruction::LOAD(t, i) => if !(t == Type::Long || t == Type::Double) && i < locals.len() && ops.len()
            < cap {
            Some((ops.push(locals[i as int]), locals))
        } else if (t == Type::Long || t == Type::Double) && i + 1 < locals.len() && ops.len() + 2 <= cap {
            Some((ops.push(locals[i as int]).push(locals[i + 1]), locals))
        } else {
            None
        },
        Instruction::STORE(t, i) => if !(t == Type::Long || t == Type::Double) && i < locals.len() && ops.len()
            >= 1 {
            Some((ops.drop_last(), locals.update(i as int, ops.last())))
        } else if (t == Type::Long || t == Type::Double) && i + 1 < locals.len() && ops.len() >= 2 {
            Some(
                (
                    ops.subrange(0, ops.len() - 2),
                    locals.update(i as int, ops[ops.len() - 2]).update(i + 1, ops[ops.len() - 1]),
                ),
            )
        } else {
            None
        },
        Instruction::IINC(i, v) => if i < locals.len() {
            Some((ops, locals.update(i as int, locals[i as int].wrapping_add(v as i32))))
        } else {
            None
        },
        _ => None,
    }
}

/// What a one-word array load or `arraylength` does to the operand words
/// `ops`, over heap `heap`: `Some` with the new operand words, or `None` for
/// a fault (a null or dangling reference, not an array, an index out of
/// range); other instructions are not covered.
pub open spec fn array_read_effect(ins: Instruction, heap: Seq<Option<Object>>, ops: Seq<i32>) -> Option<Option<Seq<i32>>> {
    let n = ops.len() as int;
    match ins {
        Instruction::ARRAYLENGTH => if n >= 1 {
            let r = ops[n - 1];
            Some(
                if 0 < r < heap.len() && heap[r as int] is Some && heap[r as int]->Some_0 is Array {
                    Some(ops.drop_last().push(heap[r as int]->Some_0->Array_0.length))
                } else {
                    None
                },
            )
        } else {
            None
        },
        Instruction::ALOAD(t) => if n >= 2 && !(t == Type::Long || t == Type::Double) {
            let r = ops[n - 2];
            let i = ops[n - 1];
            Some(
                if 0 < r < heap.len() && heap[r as int] is Some && heap[r as int]->Some_0 is Array
                    && !heap[r as int]->Some_0->Array_0.content_needs_two_words && 0 <= i
                    < heap[r as int]->Some_0->Array_0.length {
                    Some(ops.subrange(0, n - 2).push(heap[r as int]->Some_0->Array_0.data@[i as int]))
                } else {
                    None
                },
            )
        } else {
            None
        },
        _ => None,
    }
}

/// The word a constant-pushing instruction pushes.
pub open spec fn pushed_word(ins: Instruction) -> Option<i32> {
    match ins {
        Instruction::BIPUSH(i) => Some(i as i32),
        Instruction::SIPUSH(i) => Some(i as i32),
        Instruction::LDC_INT(i) => Some(i),
        Instruction::ACONST_NULL => Some(0),
        Instruction::FCONST_0 => Some(0),
        Instruction::FCONST_1 => Some(0x3f80_0000),
        Instruction::FCONST_2 => Some(0x4000_0000),
        _ => None,
    }
}

/// The 64 bits a two-word constant instruction pushes (a double as its bit
/// pattern).
pub open spec fn pushed_long(ins: Instruction) -> Option<i64> {
    match ins {
        Instruction::LCONST_0 => Some(0),
        Instruction::LCONST_1 => Some(1),
        Instruction::DCONST_0 => Some(0),
        Instruction::DCONST_1 => Some(0x3ff0_0000_0000_0000),
        Instruction::LDC_LONG(v) => Some(v),
        _ => None,
    }
}

/// `ops` with the two words of `v` pushed, the high one first.
pub open spec fn push_long_words(ops: Seq<i32>, v: i64) -> Seq<i32> {
    ops.push(long_words(v).0).push(long_words(v).1)
}

/// What a simple instruction does to the running frame, given its operand
/// words `ops`, the stack's capacity `cap` and the index `next` of the
/// instruction after it: the operand words after it and the index of the
/// instruction to run next. `None` for other instructions and for a fault.
pub open spec fn frame_effect(ins: Instruction, ops: Seq<i32>, cap: nat, next: int) -> Option<(Seq<i32>, int)> {
    match ins {
        Instruction::GOTO(d) => Some((ops, d as int)),
        Instruction::IF_ICMP(c, d) => if ops.len() >= 2 {
            Some(
                (
                    ops.subrange(0, ops.len() - 2),
                    if compare_spec(c, ops[ops.len() - 2] as int, ops[ops.len() - 1] as int) {
                        d as int
                    } else {
                        next
                    },
                ),
            )
        } else {
            None
        },
        Instruction::IF(c, d) => if ops.len() >= 1 {
            Some((ops.drop_last(), if compare_spec(c, ops.last() as int, 0) { d as int } else { next }))
        } else {
            None
        },
        _ => match pushed_word(ins) {
            Some(v) => if ops.len() < cap {
                Some((ops.push(v), next))
            } else {
                None
            },
            None => match int_arith_of(ins) {
                Some(op) => if ops.len() >= 2 {
                    match int_arith_result(op, ops) {
                        Some(after) => Some((after, next)),
                        None => None,
                    }
                } else {
                    None
                },
                None => match long_arith_of(ins) {
                    Some(op) => match long_arith_result(op, ops) {
                        Some(after) => Some((after, next)),
                        None => None,
                    },
                    None => match ins {
                        Instruction::NEG(Type::Int) => if ops.len() >= 1 {
                            Some((ops.drop_last().push(0i32.wrapping_sub(ops.last())), next))
                        } else {
                            None
                        },
                        Instruction::NEG(Type::Long) => if ops.len() >= 2 {
                            Some(
                                (
                                    with_long(
                                        ops,
                                        2,
                                        0i64.wrapping_sub(long_of_words(ops[ops.len() - 2], ops[ops.len() - 1])),
                                    ),
                                    next,
                                ),
                            )
                        } else {
                            None
                        },
                        Instruction::IF_ACMP(eq, d) => if ops.len() >= 2 {
                            Some(
                                (
                                    ops.subrange(0, ops.len() - 2),
                                    if (ops[ops.len() - 2] == ops[ops.len() - 1]) == eq {
                                        d as int
                                    } else {
                                        next
                                    },
                                ),
                            )
                        } else {
                            None
                        },
                        Instruction::IFNULL(eq, d) => if ops.len() >= 1 {
                            Some((ops.drop_last(), if (ops.last() == 0) == eq { d as int } else { next }))
                        } else {
                            None
                        },
                        Instruction::NOP => Some((ops, next)),
                        Instruction::POP => if ops.len() >= 1 {
                            Some((ops.drop_last(), next))
                        } else {
                            None
                        },
                        Instruction::MONITORENTER => if ops.len() >= 1 {
                            Some((ops.drop_last(), next))
                        } else {
                            None
                        },
                        Instruction::MONITOREXIT => if ops.len() >= 1 {
                            Some((ops.drop_last(), next))
                        } else {
                            None
                        },
                        Instruction::POP2 => if ops.len() >= 2 {
                            Some((ops.subrange(0, ops.len() - 2), next))
                        } else {
                            None
                        },
                        Instruction::LCMP => if ops.len() >= 4 {
                            let n = ops.len() as int;
                            let a = long_of_words(ops[n - 4], ops[n - 3]);
                            let b = long_of_words(ops[n - 2], ops[n - 1]);
                            Some(
                                (
                                    ops.subrange(0, n - 4).push(
                                        if a == b {
                                            0i32
                                        } else if a < b {
                                            -1i32
                                        } else {
                                            1i32
                                        },
                                    ),
                                    next,
                                ),
                            )
                        } else {
                            None
                        },
                        Instruction::CONVERT(Type::Int, Type::Long) => if ops.len() >= 1 && ops.len() + 1 <= cap {
                            Some((push_long_words(ops.drop_last(), ops.last() as i64), next))
                        } else {
                            None
                        },
                        _ => match pushed_long(ins) {
                            Some(v) => if ops.len() + 2 <= cap {
                                Some((push_long_words(ops, v), next))
                            } else {
                                None
                            },
                            None => match shuffle_of(ins) {
                                Some((n, order)) => if ops.len() >= n && ops.len() - n + order.len() <= cap {
                                    Some((shuffled(ops, n, order), next))
                                } else {
                                    None
                                },
                                None => None,
                            },
                        },
                    },
                },
            },
        },
    }
}

/// Where `invokespecial` of `mname: mdesc` named in class `mclass` runs from
/// code of `cur`: with ACC_SUPER on `cur`, a method other than `<init>` and
/// `mclass` strictly above `cur`, the first strict superclass of `cur`
/// declaring it; else `mclass` itself.
pub open spec fn special_spec(
    cs: Seq<Class>,
    cur: Seq<char>,
    mclass: Seq<char>,
    mname: Seq<char>,
    mdesc: Seq<char>,
) -> Result<Option<Seq<char>>, ChainFault> {
    let n = (cs.len() + 1) as nat;
    match class_named(cs, cur) {
        None => Err(ChainFault::Missing(cur)),
        Some(c) => if c.access_flags & crate::class::ACC_SUPER != 0 && mname != "<init>"@ {
            match strict_super_spec(cs, mclass, cur, n) {
                Err(f) => Err(f),
                Ok(true) => super_method_owner_spec(cs, cur, mname, mdesc, n),
                Ok(false) => Ok(Some(mclass)),
            }
        } else {
            Ok(Some(mclass))
        },
    }
}

pub open spec fn opt_name(o: Option<String>) -> Option<Seq<char>> {
    match o {
        Some(s) => Some(s@),
        None => None,
    }
}

/// Turns a failed class lookup into a request to load the class.
fn linkage(e: ClassLoadingError) -> (r: StepResult)
    ensures
        e matches ClassLoadingError::NoClassDefFound(n) ==> r matches StepResult::NeedClass(m) && m == n,
{
    match e {
        ClassLoadingError::NoClassDefFound(n) => StepResult::NeedClass(n),
        other => StepResult::Fault(VmFault::Linkage(other)),
    }
}

/// The heap slot a reference names; null and dangling references fault.
fn deref(heap: &Vec<Option<Object>>, r: i32) -> (res: Result<usize, VmFault>)
    requires
        heap_ok(heap@),
    ensures
        res matches Ok(i) ==> i == r && 0 < i < heap.len() && heap[i as int] is Some,
        r == 0 ==> res is Err,
        res is Ok <==> (0 < r < heap.len() && heap[r as int] is Some),
{
    if r <= 0 || r as usize >= heap.len() {
        return Err(VmFault::NullReference);
    }
    match &heap[r as usize] {
        Some(_) => Ok(r as usize),
        None => Err(VmFault::NullReference),
    }
}

/// Puts an object into the first empty slot after the null slot, or at the end.
fn allocate(heap: &mut Vec<Option<Object>>, object: Object) -> (r: Result<i32, VmFault>)
    requires
        heap_ok(old(heap)@),
        object matches Object::Array(a) ==> a.wf(),
    ensures
        heap_ok(final(heap)@),
        r matches Ok(i) ==> i >= 1 && i < final(heap).len() && final(heap)@ == (if i < old(heap).len() {
            old(heap)@.update(i as int, Some(object))
        } else {
            old(heap)@.push(Some(object))
        }),
        r matches Ok(i) ==> forall|j: int| 1 <= j < i ==> (#[trigger] old(heap)@[j]) is Some,
        r matches Ok(i) ==> (i < old(heap).len() ==> old(heap)@[i as int] is None),
        r is Err ==> final(heap)@ == old(heap)@ && old(heap).len() >= i32::MAX && forall|j: int|
            1 <= j < old(heap).len() ==> (#[trigger] old(heap)@[j]) is Some,
{
    let mut i: usize = 1;
    while i < heap.len()
        invariant
            1 <= i <= heap.len(),
            heap_ok(heap@),
            heap@ == old(heap)@,
            forall|j: int| 1 <= j < i ==> (#[trigger] heap@[j]) is Some,
            object matches Object::Array(a) ==> a.wf(),
        decreases heap.len() - i,
    {
        if heap[i].is_none() {
            heap.set(i, Some(object));
            proof {
                assert forall|k: int| 0 <= k < heap.len() implies (#[trigger] heap@[k] matches Some(
                    Object::Array(a),
                ) ==> a.wf()) by {
                    if k != i {
                        assert(heap@[k] == old(heap)@[k]);
                    }
                }
            }
            return Ok(i as i32);
        }
        i = i + 1;
    }
    if heap.len() >= i32::MAX as usize {
        return Err(VmFault::HeapFull);
    }
    heap.push(Some(object));
    proof {
        assert forall|k: int| 0 <= k < heap.len() implies (#[trigger] heap@[k] matches Some(
            Object::Array(a),
        ) ==> a.wf()) by {
            if k < heap.len() - 1 {
                assert(heap@[k] == old(heap)@[k]);
            }
        }
    }
    Ok((heap.len() - 1) as i32)
}

/// Takes the array out of slot `i`, leaving it empty, so it can be changed.
fn take_array(heap: &mut Vec<Option<Object>>, i: usize) -> (r: Result<ArrayObject, VmFault>)
    requires
        heap_ok(old(heap)@),
        0 < i < old(heap).len(),
    ensures
        r matches Ok(a) ==> a.wf() && old(heap)[i as int] == Some(Object::Array(a)) && final(heap)@
            == old(heap)@.update(i as int, None),
        r is Err ==> final(heap)@ == old(heap)@,
        heap_ok(final(heap)@),
{
    let mut slot: Option<Object> = None;
    heap.set_and_swap(i, &mut slot);
    match slot {
        Some(Object::Array(a)) => Ok(a),
        other => {
            heap.set(i, other);
            assert(heap@ =~= old(heap)@);
            Err(VmFault::WrongObjectKind)
        },
    }
}

/// The class of the instance a reference names.
fn instance_class(heap: &Vec<Option<Object>>, r: i32) -> (res: Result<String, VmFault>)
    requires
        heap_ok(heap@),
    ensures
        res is Ok <==> instance_class_spec(heap@, r) is Some,
        res matches Ok(c) ==> instance_class_spec(heap@, r) == Some(c@),
{
    let i = deref(heap, r)?;
    match &heap[i] {
        Some(Object::Instance(o)) => match o.typ.get_class() {
            Some(c) => Ok(c.to_owned()),
            None => Err(VmFault::WrongObjectKind),
        },
        _ => Err(VmFault::WrongObjectKind),
    }
}

/// The class of the instance that reference `r` names, if it names one.
pub open spec fn instance_class_spec(heap: Seq<Option<Object>>, r: i32) -> Option<Seq<char>> {
    if 0 < r < heap.len() {
        match heap[r as int] {
            Some(Object::Instance(o)) => match o.typ@.base {
                crate::descriptor::BaseView::Reference(n) => if o.typ@.num_array == 0 {
                    Some(n)
                } else {
                    None
                },
                _ => None,
            },
            _ => None,
        }
    } else {
        None
    }
}

/// The runtime class of the receiver of an `invokevirtual` of a method with
/// descriptor `desc` from frame `c0`: the reference just below the argument words.
pub open spec fn receiver_class(heap: Seq<Option<Object>>, c0: Frame, desc: Seq<char>) -> Option<Seq<char>> {
    if crate::descriptor::is_method_text(desc) {
        let w = choose|w: (Seq<crate::descriptor::FieldDescriptorView>, Option<crate::descriptor::FieldDescriptorView>)|
            crate::descriptor::valid_method(w.0, w.1) && crate::descriptor::format_method(w.0, w.1) == desc;
        let n = crate::descriptor::params_words(w.0) as int;
        if n < c0.sp {
            instance_class_spec(heap, c0.stack@[c0.sp - 1 - n])
        } else {
            None
        }
    } else {
        None
    }
}

impl VM {
    pub open spec fn wf(&self) -> bool {
        &&& self.classloader.wf()
        &&& heap_ok(self.heap@)
        &&& self.current.wf()
        &&& code_ok(self.classloader.classes@, self.current)
        &&& frames_ok(self.classloader.classes@, self.frames@)
    }

    /// A machine over the classes of `loader`, with an empty heap and no frame.
    pub fn new(loader: ClassLoader) -> (r: VM)
        requires
            loader.wf(),
        ensures
            r.wf(),
            r.heap@ == seq![None::<Object>],
            r.native_calls.len() == 0,
    {
        let mut heap: Vec<Option<Object>> = Vec::new();
        heap.push(None);
        VM {
            native_calls: Vec::new(),
            statics: Vec::new(),
            classloader: loader,
            frames: Vec::new(),
            current: Frame::dummy_frame(0),
            heap,
        }
    }

    /// The native calls made so far: name, descriptor and argument words.
    pub fn native_calls(&self) -> (r: &Vec<(String, String, Vec<i32>)>)
        ensures
            r == &self.native_calls,
    {
        &self.native_calls
    }

    /// Loads a class from the bytes of its class file, as `ClassLoader::define_class` does.
    pub fn define_class(&mut self, name: &str, bytes: &[u8]) -> (r: Result<(), ClassLoadingError>)
        requires
            old(self).wf(),
        ensures
            final(self).wf(),
            r is Ok ==> final(self).classloader.lookup(name@) is Some,
            crate::class_loader::define_post(old(self).classloader, final(self).classloader, name@, bytes@, r),
            final(self).heap == old(self).heap,
            final(self).current == old(self).current,
            final(self).frames == old(self).frames,
            final(self).native_calls == old(self).native_calls,
            final(self).statics == old(self).statics,
    {
        let ghost before = self.classloader.classes@;
        let r = self.classloader.define_class(name, bytes);
        proof {
            self.lemma_code_ok_grows(before);
        }
        r
    }

    /// Links an already parsed class file, as `ClassLoader::load_parsed` does.
    pub fn load_parsed(&mut self, name: &str, parsed: &crate::parsed_class::ParsedClass) -> (r: Result<
        (),
        ClassLoadingError,
    >)
        requires
            old(self).wf(),
        ensures
            final(self).wf(),
            r is Ok ==> final(self).classloader.lookup(name@) is Some,
            crate::class_loader::load_parsed_post(old(self).classloader, final(self).classloader, name@, *parsed, r),
            final(self).heap == old(self).heap,
            final(self).current == old(self).current,
            final(self).frames == old(self).frames,
            final(self).native_calls == old(self).native_calls,
            final(self).statics == old(self).statics,
    {
        let ghost before = self.classloader.classes@;
        let r = self.classloader.load_parsed(name, parsed);
        proof {
            self.lemma_code_ok_grows(before);
        }
        r
    }

    proof fn lemma_code_ok_grows(&self, before: Seq<Class>)
        requires
            self.classloader.classes@.len() >= before.len(),
            self.classloader.classes@.subrange(0, before.len() as int) == before,
            code_ok(before, self.current),
            frames_ok(before, self.frames@),
        ensures
            code_ok(self.classloader.classes@, self.current),
            frames_ok(self.classloader.classes@, self.frames@),
    {
        let cs = self.classloader.classes@;
        assert forall|ci: int| 0 <= ci < before.len() implies #[trigger] cs[ci] == before[ci] by {
            assert(cs.subrange(0, before.len() as int)[ci] == cs[ci]);
        }
        assert forall|i: int| 0 <= i < self.frames@.len() implies #[trigger] self.frames@[i].wf() && code_ok(
            cs,
            self.frames@[i],
        ) by {
            let f = self.frames@[i];
            assert(f.wf() && code_ok(before, f));
        }
    }

    /// Allocates an object on the heap; its reference is at least 1, as 0 is null.
    pub fn allocate_object(&mut self, object: Object) -> (r: Result<i32, VmFault>)
        requires
            old(self).wf(),
            object matches Object::Array(a) ==> a.wf(),
        ensures
            final(self).wf(),
            r matches Ok(i) ==> i >= 1 && final(self).heap@ == (if i < old(self).heap.len() {
                old(self).heap@.update(i as int, Some(object))
            } else {
                old(self).heap@.push(Some(object))
            }),
            r matches Ok(i) ==> forall|j: int| 1 <= j < i ==> (#[trigger] old(self).heap@[j]) is Some,
            r matches Ok(i) ==> (i < old(self).heap.len() ==> old(self).heap@[i as int] is None),
            r matches Ok(i) ==> i < final(self).heap.len() && final(self).heap@[i as int] == Some(object),
            r is Err ==> final(self).heap@ == old(self).heap@,
            r is Err ==> old(self).heap.len() >= i32::MAX && forall|j: int|
                1 <= j < old(self).heap.len() ==> (#[trigger] old(self).heap@[j]) is Some,
            final(self).classloader == old(self).classloader,
            final(self).current == old(self).current,
            final(self).frames == old(self).frames,
    {
        allocate(&mut self.heap, object)
    }

    /// The object a reference names; null (0) and dangling references fault.
    pub fn get_object(&self, index: i32) -> (r: Result<&Object, VmFault>)
        requires
            self.wf(),
        ensures
            index <= 0 || index >= self.heap.len() ==> r is Err,
            0 < index < self.heap.len() ==> (r is Ok <==> self.heap[index as int] is Some),
            r matches Ok(o) ==> self.heap[index as int] == Some(*o),
    {
        let i = match deref(&self.heap, index) {
            Ok(i) => i,
            Err(f) => {
                return Err(f);
            },
        };
        match &self.heap[i] {
            Some(o) => Ok(o),
            None => Err(VmFault::NullReference),
        }
    }

    /// The class on which `invokespecial` of `method` runs from code of
    /// `current_class`: when that class has ACC_SUPER, the method is not
    /// `<init>` and its class is a strict superclass of `current_class`, the
    /// first strict superclass of `current_class` that declares it (`None` if
    /// none does); else the class named in the reference.
    pub fn resolve_special(loader: &ClassLoader, current_class: &str, method: &MethodRef) -> (r: Result<
        Option<String>,
        ClassLoadingError,
    >)
        requires
            loader.wf(),
        ensures
            r matches Ok(o) ==> special_spec(
                loader.classes@,
                current_class@,
                method.class@,
                method.name@,
                method.descriptor@,
            ) == Ok::<Option<Seq<char>>, ChainFault>(opt_name(o)),
            r matches Err(e) ==> (special_spec(
                loader.classes@,
                current_class@,
                method.class@,
                method.name@,
                method.descriptor@,
            ) matches Err(f) && fault_is(e, f)),
    {
        let class = match loader.load_class(current_class) {
            Ok(c) => c,
            Err(e) => {
                return Err(e);
            },
        };
        if class.has_acc_super_flag() && !str_eq(method.name.as_str(), "<init>") {
            match Class::is_real_super_class(method.class.as_str(), current_class, loader) {
                Ok(true) => {
                    return Class::find_first_real_super_class_with_method(
                        current_class,
                        method.name.as_str(),
                        method.descriptor.as_str(),
                        loader,
                    );
                },
                Ok(false) => {},
                Err(e) => {
                    return Err(e);
                },
            }
        }
        Ok(Some(method.class.clone()))
    }

    /// The class on which `invokevirtual` of `method` runs for a receiver of
    /// class `receiver_class`: the first class from it upwards that declares
    /// the method.
    pub fn resolve_virtual(loader: &ClassLoader, receiver_class: &str, method: &MethodRef) -> (r: Result<
        Option<String>,
        ClassLoadingError,
    >)
        requires
            loader.wf(),
        ensures
            r matches Ok(o) ==> method_owner_spec(
                loader.classes@,
                receiver_class@,
                method.name@,
                method.descriptor@,
                (loader.classes.len() + 1) as nat,
            ) == Ok::<Option<Seq<char>>, ChainFault>(opt_name(o)),
            r matches Err(e) ==> (method_owner_spec(
                loader.classes@,
                receiver_class@,
                method.name@,
                method.descriptor@,
                (loader.classes.len() + 1) as nat,
            ) matches Err(f) && fault_is(e, f)),
    {
        Class::find_first_super_class_with_method(
            receiver_class,
            method.name.as_str(),
            method.descriptor.as_str(),
            loader,
        )
    }
}

/// `b` is `a` with `w` words taken off its operand stack.
pub open spec fn popped(a: Frame, b: Frame, w: int) -> bool {
    &&& b.sp == a.sp - w
    &&& b.stack == a.stack
    &&& b.local_vars == a.local_vars
    &&& b.ip == a.ip
    &&& b.code_ref == a.code_ref
    &&& b.current_class == a.current_class
}

/// What calling method `m` of class `cls` does, from caller frame `c0`: the
/// parameter words leave the caller; a native method is logged (name,
/// descriptor, words) or, for `dump_char(C)V`, printed; any other method gets
/// a fresh frame whose locals start with the words, and the caller (without
/// them) is suspended on the frame stack.
pub open spec fn invoke_post(
    cs: Seq<Class>,
    m: Method,
    cls: Seq<char>,
    name: Seq<char>,
    desc: Seq<char>,
    c0: Frame,
    c1: Frame,
    f0: Seq<Frame>,
    f1: Seq<Frame>,
    n0: Seq<(String, String, Vec<i32>)>,
    n1: Seq<(String, String, Vec<i32>)>,
    r: StepResult,
) -> bool {
    let w = m.words_for_params as int;
    let args = c0.stack@.subrange(c0.sp - w, c0.sp as int);
    if c0.sp < w {
        r is Fault && c1 == c0 && f1 == f0 && n1 == n0
    } else if m.access_flags & ACC_NATIVE != 0 {
        &&& popped(c0, c1, w)
        &&& f1 == f0
        &&& if name == "dump_char"@ && desc == "(C)V"@ && w >= 1 {
            r matches StepResult::Print(u) && u == (args[0] & 0xffff) as u32 && n1 == n0
        } else {
            &&& r is Continue
            &&& n1 == n0.push(n1.last())
            &&& n1.last().0@ == name
            &&& n1.last().1@ == desc
            &&& n1.last().2@ == args
        }
    } else {
        match m.code {
            None => r is Fault && n1 == n0 && f1 == f0,
            Some(code) => if w > code.max_locals {
                r is Fault && n1 == n0 && f1 == f0
            } else {
                &&& r is Continue
                &&& n1 == n0
                &&& f1 == f0.push(f1.last())
                &&& popped(c0, f1.last(), w)
                &&& c1.ip == 0
                &&& c1.sp == 0
                &&& c1.local_vars@ == args + Seq::new((code.max_locals - w) as nat, |i: int| 0i32)
                &&& c1.stack@ == Seq::new(code.max_stack as nat, |i: int| 0i32)
                &&& c1.current_class@ == cls
                &&& c1.code_ref matches Some((ci, mi)) && ci < cs.len() && mi < cs[ci as int].methods.len()
                    && cs[ci as int].methods[mi as int] == m
            },
        }
    }
}

/// A call of `name: desc` on class `cls`: asks for the class if it is not
/// loaded, and otherwise does what `invoke_post` says of its first method
/// with that name and descriptor.
pub open spec fn call_post(
    cs: Seq<Class>,
    cls: Seq<char>,
    name: Seq<char>,
    desc: Seq<char>,
    c0: Frame,
    c1: Frame,
    f0: Seq<Frame>,
    f1: Seq<Frame>,
    n0: Seq<(String, String, Vec<i32>)>,
    n1: Seq<(String, String, Vec<i32>)>,
    r: StepResult,
) -> bool {
    &&& (class_named(cs, cls) is None <==> r is NeedClass)
    &&& forall|m: Method|
        #![auto]
        class_named(cs, cls) matches Some(c) && crate::class::declares_at(c.methods@, name, desc, m)
            ==> invoke_post(cs, m, cls, name, desc, c0, c1, f0, f1, n0, n1, r)
}

/// The running frame `f` with its instruction pointer moved past the current instruction.
pub open spec fn advanced(f: Frame) -> Frame {
    Frame { ip: (f.ip + 1) as usize, ..f }
}

/// Calls `name: descriptor` of `class_name`, as `invoke_post` says of the
/// first method of that class with this name and descriptor.
fn invoke(
    loader: &ClassLoader,
    class_name: &str,
    name: &str,
    descriptor: &str,
    cur: &mut Frame,
    frames: &mut Vec<Frame>,
    natives: &mut Vec<(String, String, Vec<i32>)>,
) -> (r: StepResult)
    requires
        loader.wf(),
        old(cur).wf(),
        code_ok(loader.classes@, *old(cur)),
        frames_ok(loader.classes@, old(frames)@),
    ensures
        final(cur).wf(),
        code_ok(loader.classes@, *final(cur)),
        frames_ok(loader.classes@, final(frames)@),
        r is NeedClass ==> *final(cur) == *old(cur) && final(frames)@ == old(frames)@,
        !(r matches StepResult::Fault(VmFault::StartMethodSignatureMismatch)),
        call_post(
            loader.classes@,
            class_name@,
            name@,
            descriptor@,
            *old(cur),
            *final(cur),
            old(frames)@,
            final(frames)@,
            old(natives)@,
            final(natives)@,
            r,
        ),
        class_named(loader.classes@, class_name@) is None ==> r is NeedClass,
        class_named(loader.classes@, class_name@) matches Some(c) ==> (!crate::class::declares(
            c.methods@,
            name@,
            descriptor@,
        ) ==> r is Fault && *final(cur) == *old(cur) && final(frames)@ == old(frames)@),
        forall|m: Method|
            #![auto]
            class_named(loader.classes@, class_name@) matches Some(c) && crate::class::declares_at(
                c.methods@,
                name@,
                descriptor@,
                m,
            ) ==> invoke_post(
                loader.classes@,
                m,
                class_name@,
                name@,
                descriptor@,
                *old(cur),
                *final(cur),
                old(frames)@,
                final(frames)@,
                old(natives)@,
                final(natives)@,
                r,
            ),
{
    let ci = match loader.find(class_name) {
        Some(i) => i,
        None => {
            return StepResult::NeedClass(class_name.to_owned());
        },
    };
    let class = &loader.classes[ci];
    let mi = match class.method_index(name, descriptor) {
        Some(i) => i,
        None => {
            return StepResult::Fault(VmFault::NoSuchMethod);
        },
    };
    let method = &class.methods[mi];
    proof {
        lemma_first_method_unique(class.methods@, name@, descriptor@, mi as int);
    }
    let words = method.words_for_params;
    if cur.sp < words {
        return StepResult::Fault(VmFault::StackUnderflow);
    }
    let mut args: Vec<i32> = Vec::new();
    let start = cur.sp - words;
    let mut k: usize = start;
    while k < cur.sp
        invariant
            start <= k <= cur.sp <= cur.stack.len(),
            args@ == cur.stack@.subrange(start as int, k as int),
        decreases cur.sp - k,
    {
        args.push(cur.stack[k]);
        k = k + 1;
        assert(args@ =~= cur.stack@.subrange(start as int, k as int));
    }
    cur.sp = start;
    if method.access_flags & ACC_NATIVE != 0 {
        if str_eq(name, "dump_char") && str_eq(descriptor, "(C)V") && args.len() >= 1 {
            return StepResult::Print((args[0] & 0xffff) as u32);
        }
        natives.push((name.to_owned(), descriptor.to_owned(), args));
        return StepResult::Continue;
    }
    let code = match &method.code {
        Some(c) => c,
        None => {
            return StepResult::Fault(VmFault::NoCode);
        },
    };
    if words > code.max_locals {
        return StepResult::Fault(VmFault::LocalOutOfRange);
    }
    let mut local_vars = zero_words(code.max_locals);
    let mut j: usize = 0;
    while j < args.len()
        invariant
            args.len() == words,
            words <= local_vars.len(),
            local_vars.len() == code.max_locals,
            j <= args.len(),
            forall|q: int| 0 <= q < j ==> local_vars@[q] == args@[q],
            forall|q: int| j <= q < local_vars.len() ==> local_vars@[q] == 0,
        decreases args.len() - j,
    {
        local_vars.set(j, args[j]);
        j = j + 1;
    }
    proof {
        assert(local_vars@ =~= args@ + Seq::new((code.max_locals - words) as nat, |i: int| 0i32));
    }
    let mut new_frame = Frame {
        code_ref: Some((ci, mi)),
        ip: 0,
        sp: 0,
        local_vars,
        stack: zero_words(code.max_stack),
        current_class: class_name.to_owned(),
    };
    core::mem::swap(cur, &mut new_frame);
    frames.push(new_frame);
    proof {
        assert forall|i: int| 0 <= i < frames.len() implies #[trigger] frames[i].wf() && code_ok(
            loader.classes@,
            frames[i],
        ) by {
            if i < frames.len() - 1 {
                assert(frames[i] == old(frames)[i]);
            }
        }
    }
    StepResult::Continue
}

/// The first method with a given name and descriptor is one method.
proof fn lemma_first_method_unique(ms: Seq<Method>, name: Seq<char>, desc: Seq<char>, i: int)
    requires
        0 <= i < ms.len(),
        crate::class::declares_at(ms, name, desc, ms[i]),
    ensures
        forall|m: Method| #![auto] crate::class::declares_at(ms, name, desc, m) ==> m == ms[i],
{
    assert forall|m: Method| #![auto] crate::class::declares_at(ms, name, desc, m) implies m == ms[i] by {
        let j = choose|j: int|
            0 <= j < ms.len() && ms[j] == m && m.name@ == name && m.descriptor@ == desc && forall|k: int|
                0 <= k < j ==> !(#[trigger] ms[k].name@ == name && ms[k].descriptor@ == desc);
        let i2 = choose|i2: int|
            0 <= i2 < ms.len() && ms[i2] == ms[i] && ms[i].name@ == name && ms[i].descriptor@ == desc
                && forall|k: int| 0 <= k < i2 ==> !(#[trigger] ms[k].name@ == name && ms[k].descriptor@ == desc);
        if j < i2 {
            assert(!(ms[j].name@ == name && ms[j].descriptor@ == desc));
        }
        if i2 < j {
            assert(!(ms[i2].name@ == name && ms[i2].descriptor@ == desc));
        }
    }
}

/// Executes a binary `int` or `long` operation on the operand stack; a
/// `long` shift takes a one-word count. Division by zero faults.
fn exec_int(cur: &mut Frame, op: IntOp, t: Type) -> (r: StepResult)
    requires
        old(cur).wf(),
        t == Type::Int || t == Type::Long,
    ensures
        r is Continue || r is Fault,
        final(cur).wf(),
        final(cur).code_ref == old(cur).code_ref,
        final(cur).ip == old(cur).ip,
        t == Type::Int && old(cur).sp >= 2 ==> {
            let ops = old(cur).operands();
            let a = ops[ops.len() - 2];
            let b = ops[ops.len() - 1];
            match int_op_spec(op, a, b) {
                Some(v) => r is Continue && final(cur).operands() == ops.subrange(0, ops.len() - 2).push(v),
                None => r is Fault,
            }
        },
        t == Type::Long ==> (long_arith_result(op, old(cur).operands()) matches Some(after) ==> r is Continue
            && final(cur).operands() == after),
        t == Type::Long && long_arith_ready(op, old(cur).operands()) && long_arith_result(op, old(cur).operands())
            is None ==> r is Fault,
        final(cur).local_vars == old(cur).local_vars,
{
    if t == Type::Int {
        let b = match cur.pop() {
            Ok(v) => v,
            Err(f) => {
                return StepResult::Fault(f);
            },
        };
        let a = match cur.pop() {
            Ok(v) => v,
            Err(f) => {
                return StepResult::Fault(f);
            },
        };
        match int_op(op, a, b) {
            Some(v) => match cur.push(v) {
                Ok(()) => {
                    proof {
                        let ops = old(cur).operands();
                        assert(ops.drop_last().drop_last() =~= ops.subrange(0, ops.len() - 2));
                    }
                    StepResult::Continue
                },
                Err(f) => StepResult::Fault(f),
            },
            None => StepResult::Fault(VmFault::ArithmeticException),
        }
    } else {
        let shift = op == IntOp::Shl || op == IntOp::Shr || op == IntOp::UShr;
        let b: i64 = if shift {
            match cur.pop() {
                Ok(v) => v as i64,
                Err(f) => {
                    return StepResult::Fault(f);
                },
            }
        } else {
            match cur.pop2() {
                Ok(w) => join_long(w),
                Err(f) => {
                    return StepResult::Fault(f);
                },
            }
        };
        let a = match cur.pop2() {
            Ok(w) => join_long(w),
            Err(f) => {
                return StepResult::Fault(f);
            },
        };
        match long_op(op, a, b) {
            Some(v) => match cur.push2(split_long(v)) {
                Ok(()) => {
                    proof {
                        let ops = old(cur).operands();
                        let n: int = if shift { 3 } else { 4 };
                        assert(cur.operands() =~= with_long(ops, n, v));
                    }
                    StepResult::Continue
                },
                Err(f) => StepResult::Fault(f),
            },
            None => StepResult::Fault(VmFault::ArithmeticException),
        }
    }
}

/// Negates an `int` or a `long`, wrapping at the least value.
fn exec_neg(cur: &mut Frame, t: Type) -> (r: StepResult)
    requires
        old(cur).wf(),
        t == Type::Int || t == Type::Long,
    ensures
        r is Continue || r is Fault,
        final(cur).wf(),
        final(cur).code_ref == old(cur).code_ref,
        final(cur).ip == old(cur).ip,
        final(cur).local_vars == old(cur).local_vars,
        t == Type::Int && old(cur).sp >= 1 ==> r is Continue && final(cur).operands() == old(
            cur,
        ).operands().drop_last().push(0i32.wrapping_sub(old(cur).operands().last())),
        t == Type::Long && old(cur).sp >= 2 ==> r is Continue && final(cur).operands() == with_long(
            old(cur).operands(),
            2,
            0i64.wrapping_sub(
                long_of_words(old(cur).operands()[old(cur).sp - 2], old(cur).operands()[old(cur).sp - 1]),
            ),
        ),
{
    if t == Type::Int {
        match cur.pop() {
            Ok(a) => match cur.push(0i32.wrapping_sub(a)) {
                Ok(()) => StepResult::Continue,
                Err(f) => StepResult::Fault(f),
            },
            Err(f) => StepResult::Fault(f),
        }
    } else {
        match cur.pop2() {
            Ok(w) => {
                let v = 0i64.wrapping_sub(join_long(w));
                match cur.push2(split_long(v)) {
                Ok(()) => {
                    proof {
                        let ops = old(cur).operands();
                        assert(cur.operands() =~= with_long(ops, 2, v));
                    }
                    StepResult::Continue
                },
                Err(f) => StepResult::Fault(f),
                }
            },
            Err(f) => StepResult::Fault(f),
        }
    }
}

/// Pushes a 64-bit value as two words.
fn push_long(cur: &mut Frame, v: i64) -> (r: StepResult)
    requires
        old(cur).wf(),
    ensures
        r is Continue || r is Fault,
        final(cur).wf(),
        final(cur).code_ref == old(cur).code_ref,
        final(cur).ip == old(cur).ip,
        final(cur).local_vars == old(cur).local_vars,
        old(cur).sp + 2 <= old(cur).stack.len() ==> r is Continue && final(cur).operands() == push_long_words(
            old(cur).operands(),
            v,
        ),
{
    match cur.push2(split_long(v)) {
        Ok(()) => StepResult::Continue,
        Err(f) => StepResult::Fault(f),
    }
}

fn push_word(cur: &mut Frame, v: i32) -> (r: StepResult)
    requires
        old(cur).wf(),
    ensures
        r is Continue || r is Fault,
        final(cur).wf(),
        final(cur).code_ref == old(cur).code_ref,
        final(cur).ip == old(cur).ip,
        r is Continue ==> final(cur).operands() == old(cur).operands().push(v),
        old(cur).sp < old(cur).stack.len() ==> r is Continue,
        final(cur).local_vars == old(cur).local_vars,
{
    match cur.push(v) {
        Ok(()) => StepResult::Continue,
        Err(f) => StepResult::Fault(f),
    }
}

/// Integer conversions: int to byte, short and char narrow; int and long
/// widen and narrow into each other. The others involve floats.
fn exec_convert(cur: &mut Frame, from: Type, to: Type) -> (r: StepResult)
    requires
        old(cur).wf(),
    ensures
        r is Continue || r is Fault,
        final(cur).wf(),
        final(cur).code_ref == old(cur).code_ref,
        final(cur).ip == old(cur).ip,
        final(cur).local_vars == old(cur).local_vars,
        from == Type::Int && to == Type::Long && old(cur).sp >= 1 && old(cur).sp + 1 <= old(cur).stack.len()
            ==> r is Continue && final(cur).operands() == push_long_words(
            old(cur).operands().drop_last(),
            old(cur).operands().last() as i64,
        ),
{
    if from == Type::Int {
        let a = match cur.pop() {
            Ok(v) => v,
            Err(f) => {
                return StepResult::Fault(f);
            },
        };
        if to == Type::Byte {
            push_word(cur, #[verifier::truncate] (a as i8) as i32)
        } else if to == Type::Short {
            push_word(cur, #[verifier::truncate] (a as i16) as i32)
        } else if to == Type::Char {
            push_word(cur, #[verifier::truncate] (a as u16) as i32)
        } else if to == Type::Long {
            push_long(cur, a as i64)
        } else {
            StepResult::Fault(VmFault::Unimplemented)
        }
    } else if from == Type::Long && to == Type::Int {
        match cur.pop2() {
            Ok(w) => push_word(cur, #[verifier::truncate] (join_long(w) as i32)),
            Err(f) => StepResult::Fault(f),
        }
    } else {
        StepResult::Fault(VmFault::Unimplemented)
    }
}

/// Loads a local variable (two for a long or double) onto the stack.
fn exec_load(cur: &mut Frame, t: Type, idx: LocalVarRef) -> (r: StepResult)
    requires
        old(cur).wf(),
    ensures
        r is Continue || r is Fault,
        final(cur).wf(),
        final(cur).code_ref == old(cur).code_ref,
        final(cur).ip == old(cur).ip,
        local_effect(Instruction::LOAD(t, idx), old(cur).operands(), old(cur).local_vars@, old(cur).stack.len() as nat) matches Some(e)
            ==> r is Continue && final(cur).operands() == e.0 && final(cur).local_vars@ == e.1 && final(cur).ip
            == old(cur).ip,
{
    if t.is_double_sized() {
        match cur.load2(idx) {
            Ok(v) => match cur.push2(v) {
                Ok(()) => StepResult::Continue,
                Err(f) => StepResult::Fault(f),
            },
            Err(f) => StepResult::Fault(f),
        }
    } else {
        match cur.load(idx) {
            Ok(v) => push_word(cur, v),
            Err(f) => StepResult::Fault(f),
        }
    }
}

fn exec_store(cur: &mut Frame, t: Type, idx: LocalVarRef) -> (r: StepResult)
    requires
        old(cur).wf(),
    ensures
        r is Continue || r is Fault,
        final(cur).wf(),
        final(cur).code_ref == old(cur).code_ref,
        final(cur).ip == old(cur).ip,
        local_effect(Instruction::STORE(t, idx), old(cur).operands(), old(cur).local_vars@, old(cur).stack.len() as nat) matches Some(e)
            ==> r is Continue && final(cur).operands() == e.0 && final(cur).local_vars@ == e.1 && final(cur).ip
            == old(cur).ip,
{
    if t.is_double_sized() {
        match cur.pop2() {
            Ok(v) => match cur.store2(idx, v) {
                Ok(()) => StepResult::Continue,
                Err(f) => StepResult::Fault(f),
            },
            Err(f) => StepResult::Fault(f),
        }
    } else {
        match cur.pop() {
            Ok(v) => match cur.store(idx, v) {
                Ok(()) => StepResult::Continue,
                Err(f) => StepResult::Fault(f),
            },
            Err(f) => StepResult::Fault(f),
        }
    }
}

/// The element at `index` of the array `aref`, pushed as one or two words.
fn exec_array_load(cur: &mut Frame, heap: &Vec<Option<Object>>, t: Type) -> (r: StepResult)
    requires
        old(cur).wf(),
        heap_ok(heap@),
    ensures
        r is Continue || r is Fault,
        final(cur).wf(),
        final(cur).code_ref == old(cur).code_ref,
        final(cur).ip == old(cur).ip,
        final(cur).local_vars == old(cur).local_vars,
        array_read_effect(Instruction::ALOAD(t), heap@, old(cur).operands()) matches Some(e) ==> match e {
            Some(after) => r is Continue && final(cur).operands() == after,
            None => r is Fault,
        },
{
    let index = match cur.pop() {
        Ok(v) => v,
        Err(f) => {
            return StepResult::Fault(f);
        },
    };
    let aref = match cur.pop() {
        Ok(v) => v,
        Err(f) => {
            return StepResult::Fault(f);
        },
    };
    let i = match deref(heap, aref) {
        Ok(i) => i,
        Err(f) => {
            return StepResult::Fault(f);
        },
    };
    match &heap[i] {
        Some(Object::Array(a)) => {
            assert(a.wf());
            if a.content_needs_two_words != t.is_double_sized() {
                return StepResult::Fault(VmFault::WrongObjectKind);
            }
            if index < 0 || index >= a.length {
                return StepResult::Fault(VmFault::ArrayIndexOutOfBounds);
            }
            if a.content_needs_two_words {
                match cur.push2(a.get2(index)) {
                    Ok(()) => StepResult::Continue,
                    Err(f) => StepResult::Fault(f),
                }
            } else {
                push_word(cur, a.get(index))
            }
        },
        _ => StepResult::Fault(VmFault::WrongObjectKind),
    }
}

/// Stores one or two words into element `index` of the array `aref`.
fn exec_array_store(cur: &mut Frame, heap: &mut Vec<Option<Object>>, t: Type) -> (r: StepResult)
    requires
        old(cur).wf(),
        heap_ok(old(heap)@),
    ensures
        r is Continue || r is Fault,
        final(cur).wf(),
        final(cur).code_ref == old(cur).code_ref,
        final(cur).ip == old(cur).ip,
        heap_ok(final(heap)@),
        final(heap).len() == old(heap).len(),
{
    let two = t.is_double_sized();
    let val: [i32; 2] = if two {
        match cur.pop2() {
            Ok(v) => v,
            Err(f) => {
                return StepResult::Fault(f);
            },
        }
    } else {
        match cur.pop() {
            Ok(v) => [v, 0],
            Err(f) => {
                return StepResult::Fault(f);
            },
        }
    };
    let index = match cur.pop() {
        Ok(v) => v,
        Err(f) => {
            return StepResult::Fault(f);
        },
    };
    let aref = match cur.pop() {
        Ok(v) => v,
        Err(f) => {
            return StepResult::Fault(f);
        },
    };
    let i = match deref(heap, aref) {
        Ok(i) => i,
        Err(f) => {
            return StepResult::Fault(f);
        },
    };
    let mut a = match take_array(heap, i) {
        Ok(a) => a,
        Err(f) => {
            return StepResult::Fault(f);
        },
    };
    let result = if a.content_needs_two_words != two {
        StepResult::Fault(VmFault::WrongObjectKind)
    } else if index < 0 || index >= a.length {
        StepResult::Fault(VmFault::ArrayIndexOutOfBounds)
    } else {
        if two {
            a.set2(index, val);
        } else {
            a.set(index, val[0]);
        }
        StepResult::Continue
    };
    let ghost before = heap@;
    heap.set(i, Some(Object::Array(a)));
    proof {
        assert forall|k: int| 0 <= k < heap.len() implies (#[trigger] heap@[k] matches Some(Object::Array(b))
            ==> b.wf()) by {
            if k != i {
                assert(heap@[k] == before[k]);
            }
        }
    }
    result
}

/// A new array of `length` elements of type `elem`, allocated on the heap.
fn new_array(heap: &mut Vec<Option<Object>>, length: i32, elem: FieldDescriptor) -> (r: Result<i32, VmFault>)
    requires
        heap_ok(old(heap)@),
        elem.wf(),
    ensures
        heap_ok(final(heap)@),
        final(heap).len() >= old(heap).len(),
        r matches Ok(i) ==> i >= 1,
{
    if length < 0 {
        return Err(VmFault::NegativeArraySize);
    }
    if elem.num_array >= usize::MAX {
        return Err(VmFault::Unimplemented);
    }
    allocate(heap, Object::Array(ArrayObject::new(length, elem)))
}

/// Builds nested arrays, one level per length in `lengths[depth..]`, of
/// elements of `desc` with `lengths.len()` array levels taken off.
fn create_array(heap: &mut Vec<Option<Object>>, lengths: &Vec<i32>, depth: usize, desc: &FieldDescriptor) -> (r:
    Result<i32, VmFault>)
    requires
        heap_ok(old(heap)@),
        desc.wf(),
        depth < lengths.len() <= desc.num_array,
    ensures
        heap_ok(final(heap)@),
        final(heap).len() >= old(heap).len(),
    decreases lengths.len() - depth,
{
    let len = lengths[depth];
    if len < 0 {
        return Err(VmFault::NegativeArraySize);
    }
    let elem = FieldDescriptor::new(desc.typ.duplicate(), desc.num_array - depth - 1);
    if depth + 1 == lengths.len() {
        return new_array(heap, len, elem);
    }
    let mut array = ArrayObject::new(len, elem);
    let mut k: i32 = 0;
    while k < len
        invariant
            heap_ok(heap@),
            heap.len() >= old(heap).len(),
            array.wf(),
            array.length == len,
            !array.content_needs_two_words,
            0 <= k <= len,
            desc.wf(),
            depth + 1 < lengths.len() <= desc.num_array,
        decreases len - k,
    {
        let child = create_array(heap, lengths, depth + 1, desc)?;
        array.set(k, child);
        k = k + 1;
    }
    allocate(heap, Object::Array(array))
}

/// Takes the instance out of slot `i`, leaving it empty, so it can be changed.
fn take_instance(heap: &mut Vec<Option<Object>>, i: usize) -> (r: Result<InstanceObject, VmFault>)
    requires
        heap_ok(old(heap)@),
        0 < i < old(heap).len(),
    ensures
        r is Ok ==> final(heap)@ == old(heap)@.update(i as int, None),
        r is Err ==> final(heap)@ == old(heap)@,
        heap_ok(final(heap)@),
{
    let mut slot: Option<Object> = None;
    heap.set_and_swap(i, &mut slot);
    match slot {
        Some(Object::Instance(o)) => Ok(o),
        other => {
            heap.set(i, other);
            assert(heap@ =~= old(heap)@);
            Err(VmFault::WrongObjectKind)
        },
    }
}

/// `getfield` and `putfield`. The field's offset is found before anything
/// changes, so a missing class leaves the frame as it was.
fn exec_field(cur: &mut Frame, heap: &mut Vec<Option<Object>>, loader: &ClassLoader, field: &FieldRef, put: bool) -> (r:
    StepResult)
    requires
        old(cur).wf(),
        heap_ok(old(heap)@),
        loader.wf(),
    ensures
        final(cur).wf(),
        final(cur).code_ref == old(cur).code_ref,
        final(cur).ip == old(cur).ip,
        heap_ok(final(heap)@),
        final(heap).len() == old(heap).len(),
        r is NeedClass ==> *final(cur) == *old(cur),
{
    match Class::get_field_offset(field, loader) {
        Ok(_) => {},
        Err(e) => {
            return linkage(e);
        },
    }
    let two = field.typ.is_double_sized();
    if !put {
        let objref = match cur.pop() {
            Ok(v) => v,
            Err(f) => {
                return StepResult::Fault(f);
            },
        };
        let i = match deref(heap, objref) {
            Ok(i) => i,
            Err(f) => {
                return StepResult::Fault(f);
            },
        };
        match &heap[i] {
            Some(Object::Instance(o)) => {
                if two {
                    match o.get_field2(field, loader) {
                        Ok(v) => match cur.push2(v) {
                            Ok(()) => StepResult::Continue,
                            Err(f) => StepResult::Fault(f),
                        },
                        Err(e) => StepResult::Fault(VmFault::Linkage(e)),
                    }
                } else {
                    match o.get_field(field, loader) {
                        Ok(v) => push_word(cur, v),
                        Err(e) => StepResult::Fault(VmFault::Linkage(e)),
                    }
                }
            },
            _ => StepResult::Fault(VmFault::WrongObjectKind),
        }
    } else {
        let val: [i32; 2] = if two {
            match cur.pop2() {
                Ok(v) => v,
                Err(f) => {
                    return StepResult::Fault(f);
                },
            }
        } else {
            match cur.pop() {
                Ok(v) => [v, 0],
                Err(f) => {
                    return StepResult::Fault(f);
                },
            }
        };
        let objref = match cur.pop() {
            Ok(v) => v,
            Err(f) => {
                return StepResult::Fault(f);
            },
        };
        let i = match deref(heap, objref) {
            Ok(i) => i,
            Err(f) => {
                return StepResult::Fault(f);
            },
        };
        let mut o = match take_instance(heap, i) {
            Ok(o) => o,
            Err(f) => {
                return StepResult::Fault(f);
            },
        };
        let res = if two {
            o.set_field2(field, val, loader)
        } else {
            o.set_field(field, val[0], loader)
        };
        let ghost before = heap@;
        heap.set(i, Some(Object::Instance(o)));
        proof {
            assert forall|k: int| 0 <= k < heap.len() implies (#[trigger] heap@[k] matches Some(
                Object::Array(b),
            ) ==> b.wf()) by {
                if k != i {
                    assert(heap@[k] == before[k]);
                }
            }
        }
        match res {
            Ok(()) => StepResult::Continue,
            Err(e) => StepResult::Fault(VmFault::Linkage(e)),
        }
    }
}

/// `getstatic` and `putstatic`: the words of the field in the static store
/// of the class that declares it, made (zeroed) on first use. The slot is
/// found before anything changes, so a missing class leaves the frame as it was.
fn exec_static(
    cur: &mut Frame,
    statics: &mut Vec<(String, Vec<i32>)>,
    loader: &ClassLoader,
    field: &FieldRef,
    put: bool,
) -> (r: StepResult)
    requires
        old(cur).wf(),
        loader.wf(),
    ensures
        final(cur).wf(),
        final(cur).code_ref == old(cur).code_ref,
        final(cur).ip == old(cur).ip,
        r is NeedClass ==> *final(cur) == *old(cur),
{
    let (owner, off, total) = match Class::get_static_field_slot(field, loader) {
        Ok(t) => t,
        Err(e) => {
            return linkage(e);
        },
    };
    let mut i: usize = 0;
    while i < statics.len() && !str_eq(statics[i].0.as_str(), owner.as_str())
        invariant
            i <= statics.len(),
        decreases statics.len() - i,
    {
        i = i + 1;
    }
    if i == statics.len() {
        statics.push((owner, zero_words(total)));
    }
    let two = field.typ.is_double_sized();
    let len = statics[i].1.len();
    if off >= len || (two && off + 1 >= len) {
        return StepResult::Fault(VmFault::Linkage(ClassLoadingError::IncompatibleClassChange));
    }
    if !put {
        if two {
            match cur.push2([statics[i].1[off], statics[i].1[off + 1]]) {
                Ok(()) => StepResult::Continue,
                Err(f) => StepResult::Fault(f),
            }
        } else {
            push_word(cur, statics[i].1[off])
        }
    } else {
        let val: [i32; 2] = if two {
            match cur.pop2() {
                Ok(v) => v,
                Err(f) => {
                    return StepResult::Fault(f);
                },
            }
        } else {
            match cur.pop() {
                Ok(v) => [v, 0],
                Err(f) => {
                    return StepResult::Fault(f);
                },
            }
        };
        let mut entry: (String, Vec<i32>) = (String::new(), Vec::new());
        statics.set_and_swap(i, &mut entry);
        if entry.1.len() == len {
            entry.1.set(off, val[0]);
            if two {
                entry.1.set(off + 1, val[1]);
            }
        }
        statics.set(i, entry);
        StepResult::Continue
    }
}

/// `instanceof` and `checkcast` against the type `name` (a class name or an
/// array descriptor). A null reference is no instance, and passes a cast.
fn exec_type_check(cur: &mut Frame, heap: &Vec<Option<Object>>, loader: &ClassLoader, name: &str, cast: bool) -> (r:
    StepResult)
    requires
        old(cur).wf(),
        heap_ok(heap@),
        loader.wf(),
    ensures
        final(cur).wf(),
        final(cur).code_ref == old(cur).code_ref,
        final(cur).ip == old(cur).ip,
        r is NeedClass ==> *final(cur) == *old(cur),
{
    let objref = match cur.top() {
        Ok(v) => v,
        Err(f) => {
            return StepResult::Fault(f);
        },
    };
    let is_instance = if objref == 0 {
        false
    } else {
        let i = match deref(heap, objref) {
            Ok(i) => i,
            Err(f) => {
                return StepResult::Fault(f);
            },
        };
        let typ = match &heap[i] {
            Some(o) => o.typ(),
            None => {
                return StepResult::Fault(VmFault::NullReference);
            },
        };
        let src = FieldDescriptor::new(typ.typ.duplicate(), typ.num_array);
        let dest = match FieldDescriptor::from_symbolic_reference(name) {
            Some(d) => d,
            None => {
                return StepResult::Fault(VmFault::ClassCast);
            },
        };
        match Class::is_instance_of(&src, dest, loader) {
            Ok(b) => b,
            Err(e) => {
                return linkage(e);
            },
        }
    };
    if cast {
        if objref != 0 && !is_instance {
            return StepResult::Fault(VmFault::ClassCast);
        }
        StepResult::Continue
    } else {
        match cur.pop() {
            Ok(_) => push_word(
                cur,
                if is_instance {
                    1
                } else {
                    0
                },
            ),
            Err(f) => StepResult::Fault(f),
        }
    }
}


/// `ops` with its top `n` words replaced by those words in the order
/// given (0 is the deepest of them).
pub open spec fn shuffled(ops: Seq<i32>, n: int, order: Seq<usize>) -> Seq<i32> {
    ops.subrange(0, ops.len() - n) + Seq::new(order.len(), |k: int| ops[ops.len() - n + order[k]])
}

/// The words a stack-shuffling instruction takes and the order it puts them back in.
pub open spec fn shuffle_of(ins: Instruction) -> Option<(int, Seq<usize>)> {
    match ins {
        Instruction::DUP => Some((1, seq![0usize, 0])),
        Instruction::DUP_X1 => Some((2, seq![1usize, 0, 1])),
        Instruction::DUP_X2 => Some((3, seq![2usize, 0, 1, 2])),
        Instruction::DUP2 => Some((2, seq![0usize, 1, 0, 1])),
        Instruction::DUP2_X1 => Some((3, seq![1usize, 2, 0, 1, 2])),
        Instruction::DUP2_X2 => Some((4, seq![2usize, 3, 0, 1, 2, 3])),
        Instruction::SWAP => Some((2, seq![1usize, 0])),
        _ => None,
    }
}

/// Pops `n` words, deepest first.
fn pop_words(cur: &mut Frame, n: usize) -> (r: Result<Vec<i32>, VmFault>)
    requires
        old(cur).wf(),
    ensures
        final(cur).wf(),
        final(cur).code_ref == old(cur).code_ref,
        final(cur).ip == old(cur).ip,
        final(cur).stack.len() == old(cur).stack.len(),
        final(cur).local_vars == old(cur).local_vars,
        r matches Ok(v) ==> v.len() == n,
        r is Ok <==> old(cur).sp >= n,
        r matches Ok(v) ==> v@ == old(cur).operands().subrange(old(cur).sp - n, old(cur).sp as int)
            && final(cur).operands() == old(cur).operands().subrange(0, old(cur).sp - n),
{
    let mut v: Vec<i32> = Vec::new();
    let mut k: usize = 0;
    while k < n
        invariant
            cur.wf(),
            cur.code_ref == old(cur).code_ref,
            cur.ip == old(cur).ip,
            cur.stack.len() == old(cur).stack.len(),
            cur.local_vars == old(cur).local_vars,
            cur.stack == old(cur).stack,
            old(cur).sp <= old(cur).stack.len(),
            k <= n,
            k <= old(cur).sp,
            cur.sp == old(cur).sp - k,
            v.len() == k,
            v@ == old(cur).operands().subrange(old(cur).sp - k, old(cur).sp as int),
        decreases n - k,
    {
        if cur.sp == 0 {
            return Err(VmFault::StackUnderflow);
        }
        let w = cur.stack[cur.sp - 1];
        let ghost v0 = v@;
        cur.sp = cur.sp - 1;
        v.insert(0, w);
        k = k + 1;
        proof {
            let ops = old(cur).operands();
            let i = old(cur).sp - k;
            assert(i == cur.sp);
            assert(w == cur.stack@[i]);
            assert(cur.stack@ == old(cur).stack@);
            assert(ops[i] == old(cur).stack@[i]);
            assert(w == ops[i]);
            assert(v@ == v0.insert(0, w));
            assert forall|q: int| 0 <= q < v@.len() implies v@[q] == ops.subrange(old(cur).sp - k, old(cur).sp as int)[q] by {
                if q > 0 {
                    assert(v@[q] == v0[q - 1]);
                }
            }
            assert(v@ =~= ops.subrange(old(cur).sp - k, old(cur).sp as int));
        }
    }
    proof {
        assert(cur.operands() =~= old(cur).operands().subrange(0, old(cur).sp - n));
    }
    Ok(v)
}

/// Pushes the words of `ws` at positions given by `order`.
fn push_words(cur: &mut Frame, ws: &Vec<i32>, order: &[usize]) -> (r: StepResult)
    requires
        old(cur).wf(),
    ensures
        r is Continue || r is Fault,
        final(cur).wf(),
        final(cur).code_ref == old(cur).code_ref,
        final(cur).ip == old(cur).ip,
        final(cur).local_vars == old(cur).local_vars,
        (forall|k: int| 0 <= k < order@.len() ==> order@[k] < ws.len()) && old(cur).sp + order@.len()
            <= old(cur).stack.len() ==> r is Continue && final(cur).operands() == old(cur).operands() + Seq::new(
            order@.len(),
            |k: int| ws@[order@[k] as int],
        ),
{
    let mut k: usize = 0;
    while k < order.len()
        invariant
            cur.wf(),
            cur.code_ref == old(cur).code_ref,
            cur.ip == old(cur).ip,
            cur.local_vars == old(cur).local_vars,
            cur.stack.len() == old(cur).stack.len(),
            k <= order.len(),
            cur.sp == old(cur).sp + k,
            cur.operands() == old(cur).operands() + Seq::new(k as nat, |q: int| ws@[order@[q] as int]),
        decreases order.len() - k,
    {
        let i = order[k];
        if i >= ws.len() {
            return StepResult::Fault(VmFault::StackUnderflow);
        }
        if let Err(f) = cur.push(ws[i]) {
            return StepResult::Fault(f);
        }
        k = k + 1;
        assert(cur.operands() =~= old(cur).operands() + Seq::new(k as nat, |q: int| ws@[order@[q] as int]));
    }
    StepResult::Continue
}

/// Rearranges the top `n` words: they are popped (the deepest is word 0)
/// and pushed again in the order given.
fn shuffle(cur: &mut Frame, n: usize, order: &[usize]) -> (r: StepResult)
    requires
        old(cur).wf(),
    ensures
        r is Continue || r is Fault,
        final(cur).wf(),
        final(cur).code_ref == old(cur).code_ref,
        final(cur).ip == old(cur).ip,
        final(cur).local_vars == old(cur).local_vars,
        old(cur).sp >= n && old(cur).sp - n + order@.len() <= old(cur).stack.len() && (forall|k: int|
            0 <= k < order@.len() ==> order@[k] < n) ==> r is Continue && final(cur).operands() == shuffled(
            old(cur).operands(),
            n as int,
            order@,
        ),
{
    match pop_words(cur, n) {
        Ok(ws) => {
            let ghost mid = cur.operands();
            let r = push_words(cur, &ws, order);
            proof {
                let ops = old(cur).operands();
                if old(cur).sp >= n && old(cur).sp - n + order@.len() <= old(cur).stack.len() && (forall|k: int|
                    0 <= k < order@.len() ==> order@[k] < n) {
                    assert(cur.operands() =~= shuffled(ops, n as int, order@));
                }
            }
            r
        },
        Err(f) => StepResult::Fault(f),
    }
}

/// Words a return of type `o` hands back.
pub open spec fn return_words(o: Option<Type>) -> int {
    match o {
        None => 0,
        Some(t) => crate::instruction::type_words(t) as int,
    }
}

/// What `return` does: with no caller the run is finished; otherwise the
/// caller becomes the running frame (and leaves the frame stack) with the
/// returned words pushed on its operand stack.
pub open spec fn return_post(c0: Frame, c1: Frame, f0: Seq<Frame>, f1: Seq<Frame>, o: Option<Type>, r: StepResult) -> bool {
    let w = return_words(o);
    if f0.len() == 0 {
        r is Finished
    } else {
        let caller = f0.last();
        c0.sp >= w && caller.sp + w <= caller.stack.len() ==> {
            &&& r is Continue
            &&& f1 == f0.drop_last()
            &&& c1.operands() == caller.operands() + c0.operands().subrange(c0.sp - w, c0.sp as int)
            &&& c1.ip == caller.ip
            &&& c1.local_vars == caller.local_vars
            &&& c1.code_ref == caller.code_ref
            &&& c1.current_class == caller.current_class
        }
    }
}

/// Pops the returning frame, handing its one or two result words to the caller.
fn exec_return(cur: &mut Frame, frames: &mut Vec<Frame>, loader: &ClassLoader, o: Option<Type>) -> (r: StepResult)
    requires
        old(cur).wf(),
        code_ok(loader.classes@, *old(cur)),
        frames_ok(loader.classes@, old(frames)@),
    ensures
        r is Continue || r is Fault || r is Finished,
        final(cur).wf(),
        code_ok(loader.classes@, *final(cur)),
        frames_ok(loader.classes@, final(frames)@),
        return_post(*old(cur), *final(cur), old(frames)@, final(frames)@, o, r),
{
    if frames.len() == 0 {
        return StepResult::Finished;
    }
    let two = match o {
        None => false,
        Some(t) => t.is_double_sized(),
    };
    let w: [i32; 2] = if o.is_none() {
        [0, 0]
    } else if two {
        match cur.pop2() {
            Ok(v) => v,
            Err(f) => {
                return StepResult::Fault(f);
            },
        }
    } else {
        match cur.pop() {
            Ok(v) => [v, 0],
            Err(f) => {
                return StepResult::Fault(f);
            },
        }
    };
    let ghost c0 = *old(cur);
    let mut caller = match frames.pop() {
        Some(f) => f,
        None => {
            return StepResult::Finished;
        },
    };
    proof {
        assert(old(frames)@[old(frames)@.len() - 1] == caller);
        assert(frames@ =~= old(frames)@.drop_last());
        assert forall|i: int| 0 <= i < frames.len() implies (#[trigger] frames@[i]).wf() && code_ok(
            loader.classes@,
            frames@[i],
        ) by {
            assert(frames@[i] == old(frames)@[i]);
        }
    }
    core::mem::swap(cur, &mut caller);
    let ghost c = *cur;
    if o.is_none() {
        proof {
            assert(c0.operands().subrange(c0.sp as int, c0.sp as int) =~= Seq::<i32>::empty());
            assert(c.operands() + Seq::<i32>::empty() =~= c.operands());
        }
        StepResult::Continue
    } else if two {
        match cur.push2(w) {
            Ok(()) => {
                proof {
                    assert(cur.operands() =~= c.operands() + c0.operands().subrange(c0.sp - 2, c0.sp as int));
                }
                StepResult::Continue
            },
            Err(f) => StepResult::Fault(f),
        }
    } else {
        match cur.push(w[0]) {
            Ok(()) => {
                proof {
                    assert(cur.operands() =~= c.operands() + c0.operands().subrange(c0.sp - 1, c0.sp as int));
                }
                StepResult::Continue
            },
            Err(f) => StepResult::Fault(f),
        }
    }
}

/// Jumps to `dest` when `taken`.
fn branch_to(cur: &mut Frame, taken: bool, dest: u32) -> (r: StepResult)
    requires
        old(cur).wf(),
    ensures
        r is Continue,
        final(cur).wf(),
        final(cur).code_ref == old(cur).code_ref,
        taken ==> final(cur).ip == dest,
        !taken ==> *final(cur) == *old(cur),
        final(cur).operands() == old(cur).operands(),
        final(cur).local_vars == old(cur).local_vars,
{
    if taken {
        cur.ip = dest as usize;
    }
    StepResult::Continue
}

/// The conditional branches and `goto`.
fn exec_branch(cur: &mut Frame, ins: &Instruction) -> (r: StepResult)
    requires
        old(cur).wf(),
        branch_target(*ins) is Some,
    ensures
        r is Continue || r is Fault,
        final(cur).wf(),
        final(cur).code_ref == old(cur).code_ref,
        frame_effect(*ins, old(cur).operands(), old(cur).stack.len() as nat, old(cur).ip as int) matches Some(
            e,
        ) ==> r is Continue && final(cur).operands() == e.0 && final(cur).ip == e.1,
        final(cur).local_vars == old(cur).local_vars,
{
    match ins {
        Instruction::GOTO(dest) => branch_to(cur, true, *dest),
        Instruction::IF_ICMP(c, dest) => {
            let b = match cur.pop() {
                Ok(v) => v,
                Err(f) => {
                    return StepResult::Fault(f);
                },
            };
            let a = match cur.pop() {
                Ok(v) => v,
                Err(f) => {
                    return StepResult::Fault(f);
                },
            };
            proof {
                let ops = old(cur).operands();
                assert(ops.drop_last().drop_last() =~= ops.subrange(0, ops.len() - 2));
                assert(a == ops[ops.len() - 2]);
                assert(b == ops[ops.len() - 1]);
            }
            branch_to(cur, c.compare(a, b), *dest)
        },
        Instruction::IF(c, dest) => match cur.pop() {
            Ok(a) => branch_to(cur, c.compare(a, 0), *dest),
            Err(f) => StepResult::Fault(f),
        },
        Instruction::IF_ACMP(equal, dest) => {
            let b = match cur.pop() {
                Ok(v) => v,
                Err(f) => {
                    return StepResult::Fault(f);
                },
            };
            let a = match cur.pop() {
                Ok(v) => v,
                Err(f) => {
                    return StepResult::Fault(f);
                },
            };
            proof {
                let ops = old(cur).operands();
                assert(ops.drop_last().drop_last() =~= ops.subrange(0, ops.len() - 2));
                assert(a == ops[ops.len() - 2]);
                assert(b == ops[ops.len() - 1]);
            }
            branch_to(cur, (a == b) == *equal, *dest)
        },
        Instruction::IFNULL(equal, dest) => match cur.pop() {
            Ok(a) => branch_to(cur, (a == 0) == *equal, *dest),
            Err(f) => StepResult::Fault(f),
        },
        _ => StepResult::Fault(VmFault::Unimplemented),
    }
}

/// `invokevirtual`: the receiver lies below the argument words; the method
/// is looked up from its runtime class upwards.
fn exec_invoke_virtual(
    loader: &ClassLoader,
    m: &MethodRef,
    cur: &mut Frame,
    frames: &mut Vec<Frame>,
    heap: &Vec<Option<Object>>,
    natives: &mut Vec<(String, String, Vec<i32>)>,
) -> (r: StepResult)
    requires
        loader.wf(),
        heap_ok(heap@),
        old(cur).wf(),
        code_ok(loader.classes@, *old(cur)),
        frames_ok(loader.classes@, old(frames)@),
    ensures
        final(cur).wf(),
        code_ok(loader.classes@, *final(cur)),
        frames_ok(loader.classes@, final(frames)@),
        r is NeedClass ==> *final(cur) == *old(cur) && final(frames)@ == old(frames)@,
        receiver_class(heap@, *old(cur), m.descriptor@) matches Some(rc) ==> (method_owner_spec(
            loader.classes@,
            rc,
            m.name@,
            m.descriptor@,
            (loader.classes.len() + 1) as nat,
        ) matches Ok(Some(owner)) ==> call_post(
            loader.classes@,
            owner,
            m.name@,
            m.descriptor@,
            *old(cur),
            *final(cur),
            old(frames)@,
            final(frames)@,
            old(natives)@,
            final(natives)@,
            r,
        )),
{
    let desc = match MethodDescriptor::parse(m.descriptor.as_str()) {
        Some(d) => d,
        None => {
            return StepResult::Fault(VmFault::NoSuchMethod);
        },
    };
    proof {
        let vs = crate::descriptor::views_of(desc.params@);
        crate::descriptor::lemma_method_descriptor_round_trip(vs, crate::descriptor::opt_view(desc.ret_type));
    }
    let receiver = match cur.nth_from_top(desc.words_for_params()) {
        Ok(v) => v,
        Err(f) => {
            return StepResult::Fault(f);
        },
    };
    let class = match instance_class(heap, receiver) {
        Ok(c) => c,
        Err(f) => {
            return StepResult::Fault(f);
        },
    };
    match VM::resolve_virtual(loader, class.as_str(), m) {
        Ok(Some(owner)) => invoke(
            loader,
            owner.as_str(),
            m.name.as_str(),
            m.descriptor.as_str(),
            cur,
            frames,
            natives,
        ),
        Ok(None) => StepResult::Fault(VmFault::NoSuchMethod),
        Err(e) => linkage(e),
    }
}

/// Executes one instruction; `cur`'s instruction pointer is already past it.
#[verifier::rlimit(100)]
fn execute(
    ins: &Instruction,
    loader: &ClassLoader,
    cur: &mut Frame,
    frames: &mut Vec<Frame>,
    heap: &mut Vec<Option<Object>>,
    statics: &mut Vec<(String, Vec<i32>)>,
    natives: &mut Vec<(String, String, Vec<i32>)>,
) -> (r: StepResult)
    requires
        loader.wf(),
        heap_ok(old(heap)@),
        old(cur).wf(),
        code_ok(loader.classes@, *old(cur)),
        frames_ok(loader.classes@, old(frames)@),
    ensures
        heap_ok(final(heap)@),
        final(cur).wf(),
        code_ok(loader.classes@, *final(cur)),
        frames_ok(loader.classes@, final(frames)@),
        r is NeedClass ==> *final(cur) == *old(cur) && final(frames)@ == old(frames)@,
        frame_effect(*ins, old(cur).operands(), old(cur).stack.len() as nat, old(cur).ip as int) matches Some(
            e,
        ) ==> r is Continue && final(cur).operands() == e.0 && final(cur).ip == e.1 && final(cur).local_vars
            == old(cur).local_vars,
        array_read_effect(*ins, old(heap)@, old(cur).operands()) matches Some(e) ==> final(heap)@ == old(heap)@
            && final(cur).ip == old(cur).ip && match e {
            Some(after) => r is Continue && final(cur).operands() == after,
            None => r is Fault,
        },
        *ins matches Instruction::RETURN(o) ==> return_post(*old(cur), *final(cur), old(frames)@, final(frames)@, o, r),
        long_arith_of(*ins) matches Some(op) ==> (long_arith_ready(op, old(cur).operands()) && long_arith_result(
            op,
            old(cur).operands(),
        ) is None ==> r is Fault),
        local_effect(*ins, old(cur).operands(), old(cur).local_vars@, old(cur).stack.len() as nat) matches Some(e)
            ==> r is Continue && final(cur).operands() == e.0 && final(cur).local_vars@ == e.1 && final(cur).ip
            == old(cur).ip,
        *ins matches Instruction::INVOKEVIRTUAL(m) ==> (receiver_class(old(heap)@, *old(cur), m.descriptor@) matches Some(
            rc,
        ) ==> (method_owner_spec(loader.classes@, rc, m.name@, m.descriptor@, (loader.classes.len() + 1) as nat)
            matches Ok(Some(owner)) ==> call_post(
            loader.classes@,
            owner,
            m.name@,
            m.descriptor@,
            *old(cur),
            *final(cur),
            old(frames)@,
            final(frames)@,
            old(natives)@,
            final(natives)@,
            r,
        ))),
        *ins matches Instruction::INVOKESTATIC(m) ==> call_post(
            loader.classes@,
            m.class@,
            m.name@,
            m.descriptor@,
            *old(cur),
            *final(cur),
            old(frames)@,
            final(frames)@,
            old(natives)@,
            final(natives)@,
            r,
        ),
        *ins matches Instruction::INVOKEINTERFACE(m, _) ==> call_post(
            loader.classes@,
            m.class@,
            m.name@,
            m.descriptor@,
            *old(cur),
            *final(cur),
            old(frames)@,
            final(frames)@,
            old(natives)@,
            final(natives)@,
            r,
        ),
        *ins matches Instruction::INVOKESPECIAL(m) ==> (special_spec(
            loader.classes@,
            old(cur).current_class@,
            m.class@,
            m.name@,
            m.descriptor@,
        ) matches Ok(Some(owner)) ==> call_post(
            loader.classes@,
            owner,
            m.name@,
            m.descriptor@,
            *old(cur),
            *final(cur),
            old(frames)@,
            final(frames)@,
            old(natives)@,
            final(natives)@,
            r,
        )),
        int_arith_of(*ins) matches Some(op) ==> (old(cur).sp >= 2 ==> match int_arith_result(
            op,
            old(cur).operands(),
        ) {
            Some(after) => r is Continue && final(cur).operands() == after && final(cur).ip == old(cur).ip,
            None => r is Fault,
        }),
{
    match ins {
        Instruction::ALOAD(t) => exec_array_load(cur, heap, *t),
        Instruction::ASTORE(t) => exec_array_store(cur, heap, *t),
        Instruction::LOAD(t, idx) => exec_load(cur, *t, *idx),
        Instruction::STORE(t, idx) => exec_store(cur, *t, *idx),
        Instruction::ARRAYLENGTH => {
            let aref = match cur.pop() {
                Ok(v) => v,
                Err(f) => {
                    return StepResult::Fault(f);
                },
            };
            let i = match deref(heap, aref) {
                Ok(i) => i,
                Err(f) => {
                    return StepResult::Fault(f);
                },
            };
            match &heap[i] {
                Some(Object::Array(a)) => push_word(cur, a.length),
                _ => StepResult::Fault(VmFault::WrongObjectKind),
            }
        },
        Instruction::CHECKCAST(name) => exec_type_check(cur, heap, loader, name.as_str(), true),
        Instruction::INSTANCEOF(name) => exec_type_check(cur, heap, loader, name.as_str(), false),
        Instruction::ANEWARRAY(name) => {
            let elem = match FieldDescriptor::from_symbolic_reference(name.as_str()) {
                Some(d) => d,
                None => {
                    return StepResult::Fault(VmFault::ClassCast);
                },
            };
            let length = match cur.pop() {
                Ok(v) => v,
                Err(f) => {
                    return StepResult::Fault(f);
                },
            };
            match new_array(heap, length, elem) {
                Ok(r) => push_word(cur, r),
                Err(f) => StepResult::Fault(f),
            }
        },
        Instruction::NEWARRAY(t) => {
            let elem = if *t == Type::Reference {
                FieldDescriptor::from_class(crate::class::OBJECT_NAME)
            } else {
                FieldDescriptor::from_type_without_reference(*t)
            };
            let length = match cur.pop() {
                Ok(v) => v,
                Err(f) => {
                    return StepResult::Fault(f);
                },
            };
            match new_array(heap, length, elem) {
                Ok(r) => push_word(cur, r),
                Err(f) => StepResult::Fault(f),
            }
        },
        Instruction::MULTIANEWARRAY(descriptor, count) => {
            let desc = match FieldDescriptor::parse(descriptor.as_str()) {
                Some(d) => d,
                None => {
                    return StepResult::Fault(VmFault::ClassCast);
                },
            };
            let n = *count as usize;
            if n == 0 || n > desc.num_array {
                return StepResult::Fault(VmFault::ClassCast);
            }
            let lengths = match pop_words(cur, n) {
                Ok(v) => v,
                Err(f) => {
                    return StepResult::Fault(f);
                },
            };
            match create_array(heap, &lengths, 0, &desc) {
                Ok(r) => push_word(cur, r),
                Err(f) => StepResult::Fault(f),
            }
        },
        Instruction::NEW(class) => {
            let instance = match InstanceObject::new(class.as_str(), loader) {
                Ok(i) => i,
                Err(e) => {
                    return linkage(e);
                },
            };
            match allocate(heap, Object::Instance(instance)) {
                Ok(r) => push_word(cur, r),
                Err(f) => StepResult::Fault(f),
            }
        },
        Instruction::CONVERT(from, to) => {
            if *from == Type::Float || *from == Type::Double || *to == Type::Float || *to == Type::Double {
                StepResult::Float(FloatOp::Convert(*from, *to))
            } else {
                exec_convert(cur, *from, *to)
            }
        },
        Instruction::ADD(t) => arith(cur, IntOp::Add, *t, FloatOp::Add(*t)),
        Instruction::SUB(t) => arith(cur, IntOp::Sub, *t, FloatOp::Sub(*t)),
        Instruction::MUL(t) => arith(cur, IntOp::Mul, *t, FloatOp::Mul(*t)),
        Instruction::DIV(t) => arith(cur, IntOp::Div, *t, FloatOp::Div(*t)),
        Instruction::REM(t) => arith(cur, IntOp::Rem, *t, FloatOp::Rem(*t)),
        Instruction::AND(t) => int_only(cur, IntOp::And, *t),
        Instruction::OR(t) => int_only(cur, IntOp::Or, *t),
        Instruction::XOR(t) => int_only(cur, IntOp::Xor, *t),
        Instruction::SHL(t) => int_only(cur, IntOp::Shl, *t),
        Instruction::SHR(t) => int_only(cur, IntOp::Shr, *t),
        Instruction::USHR(t) => int_only(cur, IntOp::UShr, *t),
        Instruction::NEG(t) => {
            if *t == Type::Int || *t == Type::Long {
                exec_neg(cur, *t)
            } else if *t == Type::Float || *t == Type::Double {
                StepResult::Float(FloatOp::Neg(*t))
            } else {
                StepResult::Fault(VmFault::Unimplemented)
            }
        },
        Instruction::RETURN(o) => exec_return(cur, frames, loader, *o),
        Instruction::IINC(var, val) => match cur.load(*var) {
            Ok(a) => match cur.store(*var, a.wrapping_add(*val as i32)) {
                Ok(()) => StepResult::Continue,
                Err(f) => StepResult::Fault(f),
            },
            Err(f) => StepResult::Fault(f),
        },
        Instruction::ACONST_NULL => push_word(cur, 0),
        Instruction::DCONST_0 => push_long(cur, 0),
        // the bit pattern of the double 1.0
        Instruction::DCONST_1 => push_long(cur, 0x3ff0_0000_0000_0000i64),
        Instruction::FCONST_0 => push_word(cur, 0),
        // the bit patterns of the floats 1.0 and 2.0
        Instruction::FCONST_1 => push_word(cur, 0x3f80_0000i32),
        Instruction::FCONST_2 => push_word(cur, 0x4000_0000i32),
        Instruction::LCONST_0 => push_long(cur, 0),
        Instruction::LCONST_1 => push_long(cur, 1),
        Instruction::BIPUSH(i) => push_word(cur, *i as i32),
        Instruction::SIPUSH(i) => push_word(cur, *i as i32),
        Instruction::LDC_INT(i) => push_word(cur, *i),
        Instruction::LDC_FLOAT(bits) => push_word(cur, #[verifier::truncate] (*bits as i32)),
        Instruction::LDC_DOUBLE(bits) => push_long(cur, #[verifier::truncate] (*bits as i64)),
        Instruction::LDC_LONG(v) => push_long(cur, *v),
        Instruction::DUP => shuffle(cur, 1, &[0, 0]),
        Instruction::DUP_X1 => shuffle(cur, 2, &[1, 0, 1]),
        Instruction::DUP_X2 => shuffle(cur, 3, &[2, 0, 1, 2]),
        Instruction::DUP2 => shuffle(cur, 2, &[0, 1, 0, 1]),
        Instruction::DUP2_X1 => shuffle(cur, 3, &[1, 2, 0, 1, 2]),
        Instruction::DUP2_X2 => shuffle(cur, 4, &[2, 3, 0, 1, 2, 3]),
        Instruction::POP => match cur.pop() {
            Ok(_) => StepResult::Continue,
            Err(f) => StepResult::Fault(f),
        },
        Instruction::POP2 => match cur.pop2() {
            Ok(_) => StepResult::Continue,
            Err(f) => StepResult::Fault(f),
        },
        Instruction::SWAP => shuffle(cur, 2, &[1, 0]),
        Instruction::GETFIELD(f) => exec_field(cur, heap, loader, f, false),
        Instruction::PUTFIELD(f) => exec_field(cur, heap, loader, f, true),
        Instruction::GETSTATIC(f) => exec_static(cur, statics, loader, f, false),
        Instruction::PUTSTATIC(f) => exec_static(cur, statics, loader, f, true),
        Instruction::DCMPG => StepResult::Float(FloatOp::CmpG(Type::Double)),
        Instruction::DCMPL => StepResult::Float(FloatOp::CmpL(Type::Double)),
        Instruction::FCMPG => StepResult::Float(FloatOp::CmpG(Type::Float)),
        Instruction::FCMPL => StepResult::Float(FloatOp::CmpL(Type::Float)),
        Instruction::LCMP => {
            let b = match cur.pop2() {
                Ok(w) => join_long(w),
                Err(f) => {
                    return StepResult::Fault(f);
                },
            };
            let a = match cur.pop2() {
                Ok(w) => join_long(w),
                Err(f) => {
                    return StepResult::Fault(f);
                },
            };
            proof {
                let ops = old(cur).operands();
                assert(cur.operands() =~= ops.subrange(0, ops.len() - 4));
            }
            push_word(
                cur,
                if a == b {
                    0
                } else if a < b {
                    -1
                } else {
                    1
                },
            )
        },
        Instruction::GOTO(_) | Instruction::IF_ICMP(..) | Instruction::IF(..) | Instruction::IF_ACMP(..)
        | Instruction::IFNULL(..) => exec_branch(cur, ins),
        Instruction::INVOKESPECIAL(m) => {
            match VM::resolve_special(loader, cur.current_class.as_str(), m) {
                Ok(Some(owner)) => invoke(
                    loader,
                    owner.as_str(),
                    m.name.as_str(),
                    m.descriptor.as_str(),
                    cur,
                    frames,
                    natives,
                ),
                Ok(None) => StepResult::Fault(VmFault::NoSuchMethod),
                Err(e) => linkage(e),
            }
        },
        Instruction::INVOKEVIRTUAL(m) => exec_invoke_virtual(loader, m, cur, frames, heap, natives),
        Instruction::INVOKESTATIC(m) | Instruction::INVOKEINTERFACE(m, _) => invoke(
            loader,
            m.class.as_str(),
            m.name.as_str(),
            m.descriptor.as_str(),
            cur,
            frames,
            natives,
        ),
        Instruction::MONITORENTER | Instruction::MONITOREXIT => match cur.pop() {
            Ok(_) => StepResult::Continue,
            Err(f) => StepResult::Fault(f),
        },
        Instruction::NOP => StepResult::Continue,
        _ => StepResult::Fault(VmFault::Unimplemented),
    }
}

/// `int` and `long` arithmetic here; float and double arithmetic is handed out.
fn arith(cur: &mut Frame, op: IntOp, t: Type, fop: FloatOp) -> (r: StepResult)
    requires
        old(cur).wf(),
    ensures
        r is Continue || r is Fault || r is Float,
        final(cur).wf(),
        final(cur).code_ref == old(cur).code_ref,
        final(cur).ip == old(cur).ip,
        t == Type::Int && old(cur).sp >= 2 ==> {
            let ops = old(cur).operands();
            match int_op_spec(op, ops[ops.len() - 2], ops[ops.len() - 1]) {
                Some(v) => r is Continue && final(cur).operands() == ops.subrange(0, ops.len() - 2).push(v),
                None => r is Fault,
            }
        },
        t == Type::Long ==> (long_arith_result(op, old(cur).operands()) matches Some(after) ==> r is Continue
            && final(cur).operands() == after),
        t == Type::Long && long_arith_ready(op, old(cur).operands()) && long_arith_result(op, old(cur).operands())
            is None ==> r is Fault,
        final(cur).local_vars == old(cur).local_vars,
{
    if t == Type::Int || t == Type::Long {
        exec_int(cur, op, t)
    } else if t == Type::Float || t == Type::Double {
        StepResult::Float(fop)
    } else {
        StepResult::Fault(VmFault::Unimplemented)
    }
}

/// Bitwise and shift operations, which exist for `int` and `long` only.
fn int_only(cur: &mut Frame, op: IntOp, t: Type) -> (r: StepResult)
    requires
        old(cur).wf(),
    ensures
        r is Continue || r is Fault,
        final(cur).wf(),
        final(cur).code_ref == old(cur).code_ref,
        final(cur).ip == old(cur).ip,
        t == Type::Int && old(cur).sp >= 2 ==> {
            let ops = old(cur).operands();
            match int_op_spec(op, ops[ops.len() - 2], ops[ops.len() - 1]) {
                Some(v) => r is Continue && final(cur).operands() == ops.subrange(0, ops.len() - 2).push(v),
                None => r is Fault,
            }
        },
        t == Type::Long ==> (long_arith_result(op, old(cur).operands()) matches Some(after) ==> r is Continue
            && final(cur).operands() == after),
        t == Type::Long && long_arith_ready(op, old(cur).operands()) && long_arith_result(op, old(cur).operands())
            is None ==> r is Fault,
        final(cur).local_vars == old(cur).local_vars,
{
    if t == Type::Int || t == Type::Long {
        exec_int(cur, op, t)
    } else {
        StepResult::Fault(VmFault::Unimplemented)
    }
}

/// What one step does, as far as it is stated: `b` is the machine after a
/// step from `a` that came to `r`.
pub open spec fn step_post(a: VM, b: VM, r: StepResult) -> bool {
    &&& b.wf()
    &&& b.classloader == a.classloader
    &&& r is NeedClass ==> b.current == a.current && b.frames@ == a.frames@
    &&& a.current_instruction() matches Some(Instruction::INVOKEVIRTUAL(m)) ==> (receiver_class(
        a.heap@,
        a.current,
        m.descriptor@,
    ) matches Some(rc) ==> (method_owner_spec(
        a.classloader.classes@,
        rc,
        m.name@,
        m.descriptor@,
        (a.classloader.classes.len() + 1) as nat,
    ) matches Ok(Some(owner)) ==> call_post(
        a.classloader.classes@,
        owner,
        m.name@,
        m.descriptor@,
        advanced(a.current),
        b.current,
        a.frames@,
        b.frames@,
        a.native_calls@,
        b.native_calls@,
        r,
    )))
    &&& a.current_instruction() matches Some(Instruction::INVOKEINTERFACE(m, _)) ==> call_post(
        a.classloader.classes@,
        m.class@,
        m.name@,
        m.descriptor@,
        advanced(a.current),
        b.current,
        a.frames@,
        b.frames@,
        a.native_calls@,
        b.native_calls@,
        r,
    )
    &&& a.current_instruction() matches Some(Instruction::INVOKESTATIC(m)) ==> call_post(
        a.classloader.classes@,
        m.class@,
        m.name@,
        m.descriptor@,
        advanced(a.current),
        b.current,
        a.frames@,
        b.frames@,
        a.native_calls@,
        b.native_calls@,
        r,
    )
    &&& a.current_instruction() matches Some(Instruction::INVOKESPECIAL(m)) ==> (special_spec(
        a.classloader.classes@,
        a.current.current_class@,
        m.class@,
        m.name@,
        m.descriptor@,
    ) matches Ok(Some(owner)) ==> call_post(
        a.classloader.classes@,
        owner,
        m.name@,
        m.descriptor@,
        advanced(a.current),
        b.current,
        a.frames@,
        b.frames@,
        a.native_calls@,
        b.native_calls@,
        r,
    ))
    &&& a.current_instruction() matches Some(ins) ==> (local_effect(
        ins,
        a.current.operands(),
        a.current.local_vars@,
        a.current.stack.len() as nat,
    ) matches Some(e) ==> r is Continue && b.current.operands() == e.0 && b.current.local_vars@ == e.1
        && b.current.ip == a.current.ip + 1)
    &&& a.current_instruction() matches Some(ins) ==> (long_arith_of(ins) matches Some(op) ==> (long_arith_ready(
        op,
        a.current.operands(),
    ) && long_arith_result(op, a.current.operands()) is None ==> r is Fault))
    &&& a.current_instruction() matches Some(ins) ==> (array_read_effect(ins, a.heap@, a.current.operands())
        matches Some(e) ==> b.heap@ == a.heap@ && b.current.ip == a.current.ip + 1 && match e {
        Some(after) => r is Continue && b.current.operands() == after,
        None => r is Fault,
    })
    &&& a.current_instruction() matches Some(Instruction::RETURN(o)) ==> return_post(
        a.current,
        b.current,
        a.frames@,
        b.frames@,
        o,
        r,
    )
    &&& a.current_instruction() matches Some(ins) ==> (frame_effect(
        ins,
        a.current.operands(),
        a.current.stack.len() as nat,
        a.current.ip + 1,
    ) matches Some(e) ==> r is Continue && b.current.operands() == e.0 && b.current.ip == e.1
        && b.current.local_vars == a.current.local_vars)
    &&& a.current_instruction() matches Some(ins) ==> (int_arith_of(ins) matches Some(op) ==> (a.current.sp
        >= 2 ==> match int_arith_result(op, a.current.operands()) {
        Some(after) => r is Continue && b.current.operands() == after && b.current.ip == a.current.ip + 1,
        None => r is Fault,
    }))
}

/// `t` is the run of `step` from `a` to `b`: at most `max` steps, each but
/// the last coming to `Continue`; the last comes to `r`, and a run that
/// only continued took all `max` steps.
pub open spec fn run_trace(t: Seq<VM>, a: VM, b: VM, r: StepResult, max: nat) -> bool {
    &&& t.len() >= 1
    &&& t[0] == a
    &&& t.last() == b
    &&& t.len() - 1 <= max
    &&& forall|i: int| 0 <= i < t.len() - 2 ==> step_post(#[trigger] t[i], t[i + 1], StepResult::Continue)
    &&& if r is Continue {
        t.len() - 1 == max && (t.len() >= 2 ==> step_post(t[t.len() - 2], t.last(), StepResult::Continue))
    } else {
        t.len() >= 2 && step_post(t[t.len() - 2], t.last(), r)
    }
}

impl VM {
    /// The instruction at the running frame's instruction pointer.
    pub open spec fn current_instruction(&self) -> Option<Instruction> {
        match self.current.code_ref {
            Some((ci, mi)) => match self.classloader.classes[ci as int].methods[mi as int].code {
                Some(c) => if self.current.ip < c.code.len() {
                    Some(c.code[self.current.ip as int])
                } else {
                    None
                },
                None => None,
            },
            None => None,
        }
    }

    /// Executes the instruction at the running frame's instruction pointer.
    /// When it returns `NeedClass`, nothing has changed.
    pub fn step(&mut self) -> (r: StepResult)
        requires
            old(self).wf(),
        ensures
            final(self).wf(),
            final(self).classloader == old(self).classloader,
            r is NeedClass ==> final(self).current == old(self).current && final(self).frames@ == old(
                self,
            ).frames@,
            step_post(*old(self), *final(self), r),
    {
        let (ci, mi) = match self.current.code_ref {
            Some(p) => p,
            None => {
                return StepResult::Fault(VmFault::EndOfCode);
            },
        };
        let code = match &self.classloader.classes[ci].methods[mi].code {
            Some(c) => &c.code,
            None => {
                return StepResult::Fault(VmFault::NoCode);
            },
        };
        let ip = self.current.ip;
        if ip >= code.len() {
            return StepResult::Fault(VmFault::EndOfCode);
        }
        let ghost before = self.current;
        self.current.ip = ip + 1;
        proof {
            assert(self.current == advanced(before));
        }
        let r = execute(
            &code[ip],
            &self.classloader,
            &mut self.current,
            &mut self.frames,
            &mut self.heap,
            &mut self.statics,
            &mut self.native_calls,
        );
        if let StepResult::NeedClass(_) = r {
            self.current.ip = ip;
            proof {
                assert(self.current == before);
            }
        }
        r
    }

    /// Steps until something other than `Continue` comes, or `max_steps`
    /// steps are taken (then `Continue`).
    pub fn run(&mut self, max_steps: u64) -> (r: StepResult)
        requires
            old(self).wf(),
        ensures
            final(self).wf(),
            final(self).classloader == old(self).classloader,
            exists|t: Seq<VM>| run_trace(t, *old(self), *final(self), r, max_steps as nat),
    {
        let mut n: u64 = 0;
        let ghost mut t: Seq<VM> = seq![*self];
        while n < max_steps
            invariant
                self.wf(),
                self.classloader == old(self).classloader,
                n <= max_steps,
                t.len() == n + 1,
                t[0] == *old(self),
                t.last() == *self,
                forall|i: int| 0 <= i < t.len() - 1 ==> step_post(#[trigger] t[i], t[i + 1], StepResult::Continue),
            decreases max_steps - n,
        {
            let r = self.step();
            proof {
                let t0 = t;
                t = t.push(*self);
                assert(t[t.len() - 2] == t0.last());
                assert forall|i: int| 0 <= i < t.len() - 2 implies step_post(#[trigger] t[i], t[i + 1], StepResult::Continue) by {
                    assert(t[i] == t0[i] && t[i + 1] == t0[i + 1]);
                }
            }
            match r {
                StepResult::Continue => {},
                other => {
                    proof {
                        assert(run_trace(t, *old(self), *self, other, max_steps as nat));
                    }
                    return other;
                },
            }
            proof {
                assert forall|i: int| 0 <= i < t.len() - 1 implies step_post(#[trigger] t[i], t[i + 1], StepResult::Continue) by {
                    if i == t.len() - 2 {
                    } else {
                    }
                }
            }
            n = n + 1;
        }
        proof {
            if t.len() >= 2 {
                assert(step_post(t[t.len() - 2], t[t.len() - 1], StepResult::Continue));
            }
            assert(run_trace(t, *old(self), *self, StepResult::Continue, max_steps as nat));
        }
        StepResult::Continue
    }

    /// Sets up a run of `main([Ljava/lang/String;)V` of `class`, which must be
    /// loaded and whose `main` must be exactly public and static. `main`
    /// gets a null argument array: the program arguments are not passed on.
    pub fn start(&mut self, class: &str, _args: &[&str]) -> (r: Result<(), VmFault>)
        requires
            old(self).wf(),
        ensures
            final(self).wf(),
            final(self).classloader == old(self).classloader,
            old(self).classloader.lookup(class@) is None ==> r is Err,
            r is Err ==> final(self).heap == old(self).heap && final(self).native_calls@ == old(self).native_calls@
                && final(self).frames@ == old(self).frames@ && final(self).current == old(self).current,
            final(self).heap == old(self).heap,
            old(self).classloader.lookup(class@) matches Some(c) ==> (!crate::class::declares(
                c.methods@,
                "main"@,
                "([Ljava/lang/String;)V"@,
            ) ==> r matches Err(VmFault::StartMethodMissing)),
            forall|m: Method|
                #![auto]
                old(self).classloader.lookup(class@) matches Some(c) && crate::class::declares_at(
                    c.methods@,
                    "main"@,
                    "([Ljava/lang/String;)V"@,
                    m,
                ) ==> ((m.access_flags != ACC_PUBLIC | ACC_STATIC <==> r matches Err(
                    VmFault::StartMethodSignatureMismatch,
                )) && (m.access_flags == ACC_PUBLIC | ACC_STATIC && m.words_for_params <= 1 && (m.code matches Some(
                    code,
                ) && m.words_for_params <= code.max_locals) ==> {
                    &&& r is Ok
                    &&& final(self).current.ip == 0
                    &&& final(self).current.sp == 0
                    &&& final(self).current.local_vars.len() == m.code->Some_0.max_locals
                    &&& forall|k: int| 0 <= k < final(self).current.local_vars.len() ==> final(self).current.local_vars@[k] == 0
                    &&& final(self).current.code_ref matches Some((ci, mi)) && ci < old(self).classloader.classes.len()
                        && mi < old(self).classloader.classes[ci as int].methods.len()
                        && old(self).classloader.classes[ci as int].methods[mi as int] == m
                    &&& final(self).frames@ == old(self).frames@
                })),
    {
        let start_class = match self.classloader.load_class(class) {
            Ok(c) => c,
            Err(e) => {
                return Err(VmFault::Linkage(e));
            },
        };
        let main = match start_class.method_by_signature("main", "([Ljava/lang/String;)V") {
            Some(m) => m,
            None => {
                return Err(VmFault::StartMethodMissing);
            },
        };
        proof {
            let ms = start_class.methods@;
            let i = choose|i: int|
                0 <= i < ms.len() && ms[i] == *main && main.name@ == "main"@ && main.descriptor@
                    == "([Ljava/lang/String;)V"@ && forall|k: int|
                    0 <= k < i ==> !(#[trigger] ms[k].name@ == "main"@ && ms[k].descriptor@
                        == "([Ljava/lang/String;)V"@);
            lemma_first_method_unique(ms, "main"@, "([Ljava/lang/String;)V"@, i);
        }
        if main.access_flags != ACC_PUBLIC | ACC_STATIC {
            return Err(VmFault::StartMethodSignatureMismatch);
        }
        let mut start_frame = Frame::dummy_frame(1);
        let _ = start_frame.push(0);
        proof {
            assert(start_frame.operands() =~= seq![0i32]);
            assert(start_frame.operands()[0] == start_frame.stack@[0]);
            let fl = main.access_flags;
            assert(fl == (1u16 | 8u16) ==> fl & 0x100u16 == 0u16) by (bit_vector);
        }
        let ghost frames_before = self.frames@;
        let ghost c0 = start_frame;
        let ghost n0 = self.native_calls@;
        let ghost main_m = *main;
        proof {
            assert(crate::class::declares_at(start_class.methods@, "main"@, "([Ljava/lang/String;)V"@, main_m));
        }
        let r = invoke(
            &self.classloader,
            class,
            "main",
            "([Ljava/lang/String;)V",
            &mut start_frame,
            &mut self.frames,
            &mut self.native_calls,
        );
        proof {
            assert(invoke_post(
                self.classloader.classes@,
                main_m,
                class@,
                "main"@,
                "([Ljava/lang/String;)V"@,
                c0,
                start_frame,
                frames_before,
                self.frames@,
                n0,
                self.native_calls@,
                r,
            ));
        }
        match r {
            StepResult::Continue => {},
            StepResult::Fault(f) => {
                return Err(f);
            },
            _ => {
                return Err(VmFault::NoCode);
            },
        }
        // the frame that called main holds no code: main returns to nothing
        match self.frames.pop() {
            Some(_) => {},
            None => {},
        }
        proof {
            if self.frames@.len() + 1 == frames_before.len() + 1 {
                assert(self.frames@ =~= frames_before);
            }
            assert forall|k: int| 0 <= k < start_frame.local_vars.len() implies start_frame.local_vars@[k] == 0 by {
            }
            assert forall|i: int| 0 <= i < self.frames.len() implies (#[trigger] self.frames@[i]).wf() && code_ok(
                self.classloader.classes@,
                self.frames@[i],
            ) by {
                assert(self.frames@[i] == self.frames@.push(self.frames@[0])[i]);
            }
        }
        self.current = start_frame;
        Ok(())
    }

    /// Pops one word of the running frame; `None` on an empty stack.
    pub fn pop_word(&mut self) -> (r: Option<i32>)
        requires
            old(self).wf(),
        ensures
            final(self).wf(),
            final(self).classloader == old(self).classloader,
            old(self).current.sp > 0 ==> r == Some(old(self).current.operands().last())
                && final(self).current.operands() == old(self).current.operands().drop_last(),
            old(self).current.sp == 0 ==> r is None && final(self).current == old(self).current,
            final(self).current.local_vars == old(self).current.local_vars,
            final(self).current.ip == old(self).current.ip,
            final(self).frames == old(self).frames,
            final(self).heap == old(self).heap,
    {
        match self.current.pop() {
            Ok(v) => Some(v),
            Err(_) => None,
        }
    }

    /// Pushes one word onto the running frame; `false` on a full stack.
    pub fn push_word(&mut self, v: i32) -> (r: bool)
        requires
            old(self).wf(),
        ensures
            final(self).wf(),
            final(self).classloader == old(self).classloader,
            r == (old(self).current.sp < old(self).current.stack.len()),
            r ==> final(self).current.operands() == old(self).current.operands().push(v),
            !r ==> final(self).current == old(self).current,
            final(self).current.local_vars == old(self).current.local_vars,
            final(self).current.ip == old(self).current.ip,
            final(self).frames == old(self).frames,
            final(self).heap == old(self).heap,
    {
        self.current.push(v).is_ok()
    }
}

} // verus!
