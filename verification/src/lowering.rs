//! What every part of a program is lowered to.
//!
//! The rules take the code so far, with the registers and variables that it uses, and
//! answer with the code that goes on. They are meant for programs that the type checker
//! accepts; the type of an expression is the one that [`crate::typing`] gives it.
use crate::ast::{BinOp, UnOp};
use crate::builtins::Builtin;
use crate::ir::{IrTy, Op, Pred, Rt};
use vstd::prelude::*;
#[allow(unused_imports)]
use crate::ast::{
    EnumDefV, EnumVariantV, ExprKindV, ExprV, FieldInitV, FunctionV, MatchArmV, ParamV, ProgramV,
    StmtKindV, StmtV, StructDefV,
};
#[allow(unused_imports)]
use crate::builtins::builtin_named;
#[allow(unused_imports)]
use crate::ir::{basic_ty, CodeV, InstV, IrFuncV, OpndV};
#[allow(unused_imports)]
use crate::types::{ty_is_numeric, Ty};
#[allow(unused_imports)]
use crate::typing::{
    enum_named, func_index, is_empty_literal, item_type, let_type, param_index, resolve,
    scrut_enum, struct_named, type_of, variant_home, variant_index, variant_named,
};

verus! {

/// Code, and the types of the registers and variables that it uses.
pub ghost struct Gen {
    pub code: Seq<CodeV>,
    pub regs: Seq<IrTy>,
    pub slots: Seq<IrTy>,
}

/// A variable of the program: its name, where it is held, and its type.
pub ghost struct VarV {
    pub name: Seq<char>,
    pub slot: usize,
    pub ty: Ty,
}

/// The variables without where they are held.
pub open spec fn tenv(vars: Seq<VarV>) -> Seq<(Seq<char>, Ty)> {
    Seq::new(vars.len(), |i: int| (vars[i].name, vars[i].ty))
}

/// Where the innermost variable of this name is held.
pub open spec fn slot_of(vars: Seq<VarV>, name: Seq<char>) -> usize
    decreases vars.len(),
{
    if vars.len() == 0 {
        0
    } else if vars.last().name == name {
        vars.last().slot
    } else {
        slot_of(vars.drop_last(), name)
    }
}

/// The type of an expression that the type checker accepts.
pub open spec fn ty_of(p: ProgramV, vars: Seq<VarV>, e: ExprV) -> Ty {
    type_of(p, tenv(vars), e)->Ok_0
}

// Building code.

/// One more instruction, whose value is of type `ty`.
pub open spec fn put(g: Gen, ty: IrTy, op: Op, args: Seq<OpndV>) -> Gen {
    Gen {
        code: g.code.push(CodeV::Do(InstV::Op { dst: g.regs.len(), op, args })),
        regs: g.regs.push(ty),
        slots: g.slots,
    }
}

/// The value of the last instruction.
pub open spec fn val(g: Gen) -> OpndV {
    OpndV::Reg((g.regs.len() - 1) as nat)
}

/// One more instruction, and its value.
pub open spec fn emit(g: Gen, ty: IrTy, op: Op, args: Seq<OpndV>) -> (Gen, OpndV) {
    (put(g, ty, op, args), OpndV::Reg(g.regs.len()))
}

/// A call of a function that is no part of the program.
pub open spec fn call_rt(g: Gen, ty: IrTy, f: Rt, args: Seq<OpndV>) -> (Gen, OpndV) {
    emit(g, ty, Op::Rt(f), args)
}

/// Code of its own that goes on with the registers and variables of `g`.
pub open spec fn inner(g: Gen) -> Gen {
    Gen { code: Seq::empty(), regs: g.regs, slots: g.slots }
}

/// One more piece of code, after which the registers and variables are those of `last`.
pub open spec fn then_code(g: Gen, c: CodeV, last: Gen) -> Gen {
    Gen { code: g.code.push(c), regs: last.regs, slots: last.slots }
}

/// Ends the program with a message where `cond` is true.
pub open spec fn stop_if(g: Gen, cond: OpndV, msg: Seq<char>) -> Gen {
    then_code(g, CodeV::If { cond, then: seq![CodeV::Panic(msg)], els: Seq::empty() }, g)
}

/// Ends the program with a message where `cond` is false.
pub open spec fn stop_unless(g: Gen, cond: OpndV, msg: Seq<char>) -> Gen {
    then_code(g, CodeV::If { cond, then: Seq::empty(), els: seq![CodeV::Panic(msg)] }, g)
}

/// A new variable.
pub open spec fn new_slot(g: Gen, ty: IrTy) -> Gen {
    Gen { code: g.code, regs: g.regs, slots: g.slots.push(ty) }
}

pub open spec fn set_var(g: Gen, slot: usize, v: OpndV) -> Gen {
    put(g, IrTy::I64, Op::SetVar(slot), seq![v])
}

/// Writes a value to memory.
pub open spec fn store(g: Gen, p: OpndV, v: OpndV) -> Gen {
    put(g, IrTy::I64, Op::Store, seq![p, v])
}

/// Writes a value to a slot of the object at `p`.
pub open spec fn store_slot(g: Gen, p: OpndV, i: usize, v: OpndV) -> Gen {
    let (g1, a) = emit(g, IrTy::Ptr, Op::Slot(i), seq![p]);
    store(g1, a, v)
}

/// Reads a slot of the object at `p`.
pub open spec fn load_slot(g: Gen, ty: IrTy, p: OpndV, i: usize) -> (Gen, OpndV) {
    let (g1, a) = emit(g, IrTy::Ptr, Op::Slot(i), seq![p]);
    emit(g1, ty, Op::Load(ty), seq![a])
}

/// The address of the element at `idx` in the data of an array.
pub open spec fn elem_slot(g: Gen, data: OpndV, idx: OpndV) -> (Gen, OpndV) {
    let (g1, off) = emit(g, IrTy::I64, Op::Mul, seq![idx, OpndV::Int(8)]);
    emit(g1, IrTy::Ptr, Op::Offset, seq![data, off])
}

// Checks.

pub open spec fn null_check(g: Gen, p: OpndV) -> Gen {
    let (g1, c) = emit(g, IrTy::I1, Op::IsNull, seq![p]);
    stop_if(g1, c, "lumo: null reference\n"@)
}

/// Ends the program unless `idx` is an index below `len`. A negative index, taken without
/// its sign, is too large.
pub open spec fn bounds_check(g: Gen, idx: OpndV, len: OpndV) -> Gen {
    let (g1, c) = emit(g, IrTy::I1, Op::ICmp(Pred::AtLeast), seq![idx, len]);
    stop_if(g1, c, "lumo: index out of bounds\n"@)
}

pub open spec fn divide_check(g: Gen, d: OpndV) -> Gen {
    let (g1, c) = emit(g, IrTy::I1, Op::ICmp(Pred::Eq), seq![d, OpndV::Int(0)]);
    stop_if(g1, c, "lumo: division by zero\n"@)
}

/// Ends the program with a message unless all three conditions are true.
pub open spec fn require3(g: Gen, c1: OpndV, c2: OpndV, c3: OpndV, msg: Seq<char>) -> Gen {
    let (g1, c12) = emit(g, IrTy::I1, Op::Both, seq![c1, c2]);
    let (g2, ok) = emit(g1, IrTy::I1, Op::Both, seq![c12, c3]);
    stop_unless(g2, ok, msg)
}

// Values in slots.

/// A value of type `t` as the contents of a slot.
pub open spec fn to_slot(g: Gen, v: OpndV, t: Ty) -> (Gen, OpndV) {
    match t {
        Ty::Int => (g, v),
        Ty::Bool => emit(g, IrTy::I64, Op::BoolToSlot, seq![v]),
        Ty::Float => emit(g, IrTy::I64, Op::FloatToSlot, seq![v]),
        _ => emit(g, IrTy::I64, Op::PtrToSlot, seq![v]),
    }
}

/// The contents of a slot as a value of type `t`.
pub open spec fn from_slot(g: Gen, v: OpndV, t: Ty) -> (Gen, OpndV) {
    match t {
        Ty::Int => (g, v),
        Ty::Bool => emit(g, IrTy::I1, Op::SlotToBool, seq![v]),
        Ty::Float => emit(g, IrTy::F64, Op::SlotToFloat, seq![v]),
        _ => emit(g, IrTy::Ptr, Op::SlotToPtr, seq![v]),
    }
}

/// The value that stands for nothing of a type.
pub open spec fn zero_of(t: Ty) -> OpndV {
    match t {
        Ty::Int => OpndV::Int(0),
        Ty::Bool => OpndV::Bool(false),
        Ty::Float => OpndV::Float("0.0"@),
        _ => OpndV::Null,
    }
}

/// The type of the elements of an array or of the values of a map.
pub open spec fn elem_of(t: Ty) -> Ty {
    match t {
        Ty::Array(e) => *e,
        Ty::MapOf(v) => *v,
        _ => t,
    }
}

// Operators.

pub open spec fn pred_of(op: BinOp) -> Option<Pred> {
    match op {
        BinOp::Eq => Some(Pred::Eq),
        BinOp::Ne => Some(Pred::Ne),
        BinOp::Lt => Some(Pred::Lt),
        BinOp::Le => Some(Pred::Le),
        BinOp::Gt => Some(Pred::Gt),
        BinOp::Ge => Some(Pred::Ge),
        _ => None,
    }
}

pub open spec fn int_op(op: BinOp) -> Op {
    match op {
        BinOp::Add => Op::Add,
        BinOp::Sub => Op::Sub,
        BinOp::Mul => Op::Mul,
        BinOp::Div => Op::SDiv,
        BinOp::Mod => Op::SRem,
        BinOp::BitAnd => Op::And,
        BinOp::BitOr => Op::Or,
        BinOp::BitXor => Op::Xor,
        BinOp::Shl => Op::Shl,
        _ => Op::AShr,
    }
}

pub open spec fn float_op(op: BinOp) -> Op {
    match op {
        BinOp::Add => Op::FAdd,
        BinOp::Sub => Op::FSub,
        BinOp::Mul => Op::FMul,
        _ => Op::FDiv,
    }
}

/// An operator that evaluates both operands, the left of which is of type `lt`.
pub open spec fn arith(g: Gen, op: BinOp, l: OpndV, r: OpndV, lt: Ty) -> (Gen, OpndV) {
    if lt is Str {
        str_arith(g, op, l, r)
    } else if lt is Float {
        match pred_of(op) {
            Some(pr) => emit(g, IrTy::I1, Op::FCmp(pr), seq![l, r]),
            None => emit(g, IrTy::F64, float_op(op), seq![l, r]),
        }
    } else {
        match pred_of(op) {
            Some(pr) => emit(g, IrTy::I1, Op::ICmp(pr), seq![l, r]),
            None => {
                let g1 = if op == BinOp::Div || op == BinOp::Mod {
                    divide_check(g, r)
                } else {
                    g
                };
                emit(g1, IrTy::I64, int_op(op), seq![l, r])
            },
        }
    }
}

/// The operators on strings: `+` makes room and copies both, the others compare byte by
/// byte.
pub open spec fn str_arith(g: Gen, op: BinOp, l: OpndV, r: OpndV) -> (Gen, OpndV) {
    match pred_of(op) {
        Some(pr) => {
            let (g1, c) = call_rt(g, IrTy::I64, Rt::StrCmp, seq![l, r]);
            emit(g1, IrTy::I1, Op::ICmp(pr), seq![c, OpndV::Int(0)])
        },
        None => {
            let (g1, la) = call_rt(g, IrTy::I64, Rt::StrLen, seq![l]);
            let (g2, lb) = call_rt(g1, IrTy::I64, Rt::StrLen, seq![r]);
            let (g3, sum) = emit(g2, IrTy::I64, Op::Add, seq![la, lb]);
            let (g4, size) = emit(g3, IrTy::I64, Op::Add, seq![sum, OpndV::Int(1)]);
            let (g5, buf) = call_rt(g4, IrTy::Ptr, Rt::Alloc, seq![size]);
            let (g6, _) = call_rt(g5, IrTy::Ptr, Rt::StrCpy, seq![buf, l]);
            let (g7, _) = call_rt(g6, IrTy::Ptr, Rt::StrCat, seq![buf, r]);
            (g7, buf)
        },
    }
}

/// A reference compared with `null`, or `null` with a reference.
pub open spec fn ref_compare(g: Gen, op: BinOp, l: OpndV, r: OpndV) -> (Gen, OpndV) {
    let (g1, li) = emit(g, IrTy::I64, Op::PtrToSlot, seq![l]);
    let (g2, ri) = emit(g1, IrTy::I64, Op::PtrToSlot, seq![r]);
    emit(g2, IrTy::I1, Op::ICmp(pred_of(op)->0), seq![li, ri])
}

pub open spec fn prefix(g: Gen, op: UnOp, v: OpndV, t: Ty) -> (Gen, OpndV) {
    match op {
        UnOp::Neg => if t is Float {
            emit(g, IrTy::F64, Op::FNeg, seq![v])
        } else {
            emit(g, IrTy::I64, Op::Neg, seq![v])
        },
        UnOp::Not => emit(g, IrTy::I1, Op::Not, seq![v]),
        UnOp::BitNot => emit(g, IrTy::I64, Op::BitNot, seq![v]),
    }
}

/// `lhs && rhs` or `lhs || rhs`, where `l` is the value of `lhs`, the right operand is
/// lowered to the code `rg` with the value `r`, and the value of the whole goes to the
/// variable `slot`. The right operand is evaluated only where the left one does not decide.
pub open spec fn logical(g: Gen, op: BinOp, l: OpndV, slot: usize, rg: Gen, r: OpndV) -> (
    Gen,
    OpndV,
) {
    let long = set_var(rg, slot, r);
    let short = set_var(inner(long), slot, OpndV::Bool(op == BinOp::Or));
    let c = if op == BinOp::And {
        CodeV::If { cond: l, then: long.code, els: short.code }
    } else {
        CodeV::If { cond: l, then: short.code, els: long.code }
    };
    emit(then_code(g, c, short), IrTy::I1, Op::GetVar(slot), Seq::empty())
}

// Built-in functions, on arguments that are values already.

/// `int(v)` and `float(v)`.
pub open spec fn convert(g: Gen, to_int: bool, v: OpndV, t: Ty) -> (Gen, OpndV) {
    if to_int {
        match t {
            Ty::Float => emit(g, IrTy::I64, Op::FpToSi, seq![v]),
            Ty::Str => call_rt(g, IrTy::I64, Rt::ParseInt, seq![v]),
            _ => (g, v),
        }
    } else {
        match t {
            Ty::Int => emit(g, IrTy::F64, Op::SiToFp, seq![v]),
            Ty::Str => call_rt(g, IrTy::F64, Rt::ParseFloat, seq![v]),
            _ => (g, v),
        }
    }
}

pub open spec fn absolute(g: Gen, v: OpndV, t: Ty) -> (Gen, OpndV) {
    if t is Float {
        call_rt(g, IrTy::F64, Rt::Fabs, seq![v])
    } else {
        let (g1, neg) = emit(g, IrTy::I64, Op::Neg, seq![v]);
        let (g2, c) = emit(g1, IrTy::I1, Op::ICmp(Pred::Lt), seq![v, OpndV::Int(0)]);
        emit(g2, IrTy::I64, Op::Select, seq![c, neg, v])
    }
}

/// `min(a, b)` and `max(a, b)`.
pub open spec fn extremum(g: Gen, min: bool, a: OpndV, b: OpndV, t: Ty) -> (Gen, OpndV) {
    if t is Float {
        call_rt(
            g,
            IrTy::F64,
            if min {
                Rt::MinNum
            } else {
                Rt::MaxNum
            },
            seq![a, b],
        )
    } else {
        let (g1, c) = emit(
            g,
            IrTy::I1,
            Op::ICmp(
                if min {
                    Pred::Lt
                } else {
                    Pred::Gt
                },
            ),
            seq![a, b],
        );
        emit(g1, IrTy::I64, Op::Select, seq![c, a, b])
    }
}

/// `len(v)`: strings are measured, arrays and maps begin with their length.
pub open spec fn length(g: Gen, v: OpndV, t: Ty) -> (Gen, OpndV) {
    if t is Str {
        call_rt(g, IrTy::I64, Rt::StrLen, seq![v])
    } else {
        emit(g, IrTy::I64, Op::Load(IrTy::I64), seq![v])
    }
}

/// `str(v)`.
pub open spec fn to_text(g: Gen, v: OpndV, t: Ty) -> (Gen, OpndV) {
    match t {
        Ty::Str => (g, v),
        Ty::Bool => emit(
            g,
            IrTy::Ptr,
            Op::Select,
            seq![v, OpndV::Str("true"@), OpndV::Str("false"@)],
        ),
        _ => {
            let (g1, buf) = call_rt(g, IrTy::Ptr, Rt::Alloc, seq![OpndV::Int(32)]);
            let f = if t is Float {
                Rt::FormatFloat
            } else {
                Rt::FormatInt
            };
            let (g2, _) = call_rt(g1, IrTy::Ptr, f, seq![buf, OpndV::Int(32), v]);
            (g2, buf)
        },
    }
}

/// `chr(v)`: a string of the one byte.
pub open spec fn byte_text(g: Gen, v: OpndV) -> (Gen, OpndV) {
    let (g1, buf) = call_rt(g, IrTy::Ptr, Rt::Alloc, seq![OpndV::Int(2)]);
    let g2 = put(g1, IrTy::I64, Op::StoreByte, seq![buf, v]);
    let (g3, end) = emit(g2, IrTy::Ptr, Op::Offset, seq![buf, OpndV::Int(1)]);
    (put(g3, IrTy::I64, Op::StoreByte, seq![end, OpndV::Int(0)]), buf)
}

/// `read_line()`: the line without its line feed, or null.
pub open spec fn read_line(g: Gen) -> (Gen, OpndV) {
    let (g1, buf) = call_rt(g, IrTy::Ptr, Rt::Alloc, seq![OpndV::Int(4096)]);
    let (g2, line) = call_rt(g1, IrTy::Ptr, Rt::Fgets, seq![buf, OpndV::Int(4096)]);
    let (g3, end) = emit(g2, IrTy::I1, Op::IsNull, seq![line]);
    let (s1, pos) = call_rt(inner(g3), IrTy::I64, Rt::NewlinePos, seq![buf]);
    let (s2, at) = emit(s1, IrTy::Ptr, Op::Offset, seq![buf, pos]);
    let s3 = put(s2, IrTy::I64, Op::StoreByte, seq![at, OpndV::Int(0)]);
    (then_code(g3, CodeV::If { cond: end, then: Seq::empty(), els: s3.code }, s3), line)
}

/// `substr(s, start, count)`.
pub open spec fn substr(g: Gen, s: OpndV, start: OpndV, count: OpndV) -> (Gen, OpndV) {
    let (g1, len) = call_rt(g, IrTy::I64, Rt::StrLen, seq![s]);
    let (g2, c1) = emit(g1, IrTy::I1, Op::ICmp(Pred::Ge), seq![start, OpndV::Int(0)]);
    let (g3, c2) = emit(g2, IrTy::I1, Op::ICmp(Pred::Ge), seq![count, OpndV::Int(0)]);
    let (g4, rest) = emit(g3, IrTy::I64, Op::Sub, seq![len, start]);
    let (g5, c3) = emit(g4, IrTy::I1, Op::ICmp(Pred::Le), seq![count, rest]);
    let g6 = require3(g5, c1, c2, c3, "lumo: substr out of range\n"@);
    call_rt(g6, IrTy::Ptr, Rt::Substr, seq![s, start, count])
}

/// The code after the value of `push(a, x)` is known: makes room where the data is full,
/// writes the value behind the last element and counts it.
pub open spec fn push_value(g: Gen, hdr: OpndV, v: OpndV) -> (Gen, OpndV) {
    let (g1, len) = emit(g, IrTy::I64, Op::Load(IrTy::I64), seq![hdr]);
    let (g2, cap) = load_slot(g1, IrTy::I64, hdr, 1);
    let (g3, enough) = emit(g2, IrTy::I1, Op::ICmp(Pred::Lt), seq![len, cap]);
    let (s1, old) = load_slot(inner(g3), IrTy::Ptr, hdr, 2);
    let (s2, none) = emit(s1, IrTy::I1, Op::ICmp(Pred::Eq), seq![cap, OpndV::Int(0)]);
    let (s3, twice) = emit(s2, IrTy::I64, Op::Mul, seq![cap, OpndV::Int(2)]);
    let (s4, room) = emit(s3, IrTy::I64, Op::Select, seq![none, OpndV::Int(4), twice]);
    let (s5, size) = emit(s4, IrTy::I64, Op::Mul, seq![room, OpndV::Int(8)]);
    let (s6, data) = call_rt(s5, IrTy::Ptr, Rt::Realloc, seq![old, size]);
    let s7 = store_slot(s6, hdr, 2, data);
    let s8 = store_slot(s7, hdr, 1, room);
    let g4 = then_code(
        g3,
        CodeV::If { cond: enough, then: Seq::empty(), els: s8.code },
        s8,
    );
    let (g5, data2) = load_slot(g4, IrTy::Ptr, hdr, 2);
    let (g6, at) = elem_slot(g5, data2, len);
    let g7 = store(g6, at, v);
    let (g8, more) = emit(g7, IrTy::I64, Op::Add, seq![len, OpndV::Int(1)]);
    (store(g8, hdr, more), hdr)
}

/// `pop(a)`, of elements of type `t`.
pub open spec fn pop_value(g: Gen, hdr: OpndV, t: Ty) -> (Gen, OpndV) {
    let g0 = null_check(g, hdr);
    let (g1, len) = emit(g0, IrTy::I64, Op::Load(IrTy::I64), seq![hdr]);
    let (g2, empty) = emit(g1, IrTy::I1, Op::ICmp(Pred::Eq), seq![len, OpndV::Int(0)]);
    let g3 = stop_if(g2, empty, "lumo: pop from empty array\n"@);
    let (g4, less) = emit(g3, IrTy::I64, Op::Sub, seq![len, OpndV::Int(1)]);
    let g5 = store(g4, hdr, less);
    let (g6, data) = load_slot(g5, IrTy::Ptr, hdr, 2);
    let (g7, at) = elem_slot(g6, data, less);
    emit(g7, basic_ty(t), Op::Load(basic_ty(t)), seq![at])
}

/// `sorted(a)`, of elements of type `t`.
pub open spec fn sort_fn(t: Ty) -> Rt {
    match t {
        Ty::Int => Rt::SortInt,
        Ty::Float => Rt::SortFloat,
        _ => Rt::SortStr,
    }
}

/// The function, the type of its value and its further operand, for built-in functions
/// that only hand their values on.
pub open spec fn plain_rt(b: Builtin) -> Option<(Rt, IrTy, Seq<OpndV>)> {
    if b == Builtin::IsInt {
        Some((Rt::IsInt, IrTy::I1, seq![]))
    } else if b == Builtin::IsFloat {
        Some((Rt::IsFloat, IrTy::I1, seq![]))
    } else if b == Builtin::Sqrt {
        Some((Rt::Sqrt, IrTy::F64, seq![]))
    } else if b == Builtin::Floor {
        Some((Rt::Floor, IrTy::F64, seq![]))
    } else if b == Builtin::Ceil {
        Some((Rt::Ceil, IrTy::F64, seq![]))
    } else if b == Builtin::Pow {
        Some((Rt::Pow, IrTy::F64, seq![]))
    } else if b == Builtin::Split {
        Some((Rt::Split, IrTy::Ptr, seq![]))
    } else if b == Builtin::ToUpper {
        Some((Rt::ToCase, IrTy::Ptr, seq![OpndV::Bool(true)]))
    } else if b == Builtin::ToLower {
        Some((Rt::ToCase, IrTy::Ptr, seq![OpndV::Bool(false)]))
    } else if b == Builtin::Trim {
        Some((Rt::Trim, IrTy::Ptr, seq![]))
    } else if b == Builtin::Find {
        Some((Rt::Find, IrTy::I64, seq![]))
    } else if b == Builtin::StartsWith {
        Some((Rt::HasAffix, IrTy::I1, seq![OpndV::Bool(false)]))
    } else if b == Builtin::EndsWith {
        Some((Rt::HasAffix, IrTy::I1, seq![OpndV::Bool(true)]))
    } else if b == Builtin::Repeat {
        Some((Rt::Repeat, IrTy::Ptr, seq![]))
    } else if b == Builtin::ReadFile {
        Some((Rt::ReadFile, IrTy::Ptr, seq![]))
    } else if b == Builtin::WriteFile {
        Some((Rt::WriteFile, IrTy::I1, seq![]))
    } else {
        None
    }
}

/// A built-in function on values, of which the first is of type `t`: those that need no
/// check between the evaluation of their arguments.
pub open spec fn builtin(g: Gen, b: Builtin, vs: Seq<OpndV>, t: Ty) -> (Gen, OpndV) {
    match plain_rt(b) {
        Some((f, ty, more)) => call_rt(g, ty, f, vs + more),
        None => if b == Builtin::Int {
            convert(g, true, vs[0], t)
        } else if b == Builtin::Float {
            convert(g, false, vs[0], t)
        } else if b == Builtin::Abs {
            absolute(g, vs[0], t)
        } else if b == Builtin::Min {
            extremum(g, true, vs[0], vs[1], t)
        } else if b == Builtin::Max {
            extremum(g, false, vs[0], vs[1], t)
        } else if b == Builtin::Len {
            length(g, vs[0], t)
        } else if b == Builtin::Str {
            to_text(g, vs[0], t)
        } else if b == Builtin::Chr {
            byte_text(g, vs[0])
        } else if b == Builtin::ReadLine {
            read_line(g)
        } else if b == Builtin::Substr {
            substr(g, vs[0], vs[1], vs[2])
        } else if b == Builtin::Contains {
            let (g1, pos) = call_rt(g, IrTy::I64, Rt::Find, vs);
            emit(g1, IrTy::I1, Op::ICmp(Pred::Ge), seq![pos, OpndV::Int(0)])
        } else if b == Builtin::Replace {
            let (g1, parts) = call_rt(g, IrTy::Ptr, Rt::Split, seq![vs[0], vs[1]]);
            call_rt(g1, IrTy::Ptr, Rt::Join, seq![parts, vs[2]])
        } else if b == Builtin::Pop {
            pop_value(g, vs[0], elem_of(t))
        } else if b == Builtin::Sorted {
            let g1 = null_check(g, vs[0]);
            call_rt(g1, IrTy::Ptr, sort_fn(elem_of(t)), vs)
        } else if b == Builtin::Reversed {
            let g1 = null_check(g, vs[0]);
            call_rt(g1, IrTy::Ptr, Rt::Reverse, vs)
        } else {
            let g1 = null_check(g, vs[0]);
            call_rt(g1, IrTy::Ptr, Rt::MapKeys, vs)
        },
    }
}

/// A built-in function whose first argument is checked before its second is evaluated.
pub open spec fn checks_first(b: Builtin) -> bool {
    b == Builtin::Has || b == Builtin::Delete || b == Builtin::Join || b == Builtin::Push
}

/// Such a function on values.
pub open spec fn builtin_checked(g: Gen, b: Builtin, x: OpndV, y: OpndV) -> (Gen, OpndV) {
    if b == Builtin::Push {
        push_value(g, x, y)
    } else if b == Builtin::Join {
        call_rt(g, IrTy::Ptr, Rt::Join, seq![x, y])
    } else {
        let (g1, h) = call_rt(g, IrTy::I64, Rt::StrHash, seq![y]);
        if b == Builtin::Has {
            call_rt(g1, IrTy::I1, Rt::MapHas, seq![x, y, h])
        } else {
            let (g2, _) = call_rt(g1, IrTy::I64, Rt::MapDel, seq![x, y, h]);
            (g2, OpndV::Int(0))
        }
    }
}

// Expressions.

/// The most values that the payload of one of the variants has.
pub open spec fn max_arity(vs: Seq<EnumVariantV>) -> nat
    decreases vs.len(),
{
    if vs.len() == 0 {
        0
    } else {
        let rest = max_arity(vs.drop_last());
        if vs.last().fields.len() > rest {
            vs.last().fields.len()
        } else {
            rest
        }
    }
}

/// Writes the values from `i` on behind the index of a variant.
pub open spec fn store_payload(g: Gen, obj: OpndV, vs: Seq<OpndV>, i: int) -> Gen
    decreases vs.len() - i,
{
    if !(0 <= i < vs.len()) {
        g
    } else {
        store_payload(store_slot(g, obj, (i + 1) as usize, vs[i]), obj, vs, i + 1)
    }
}

/// A value of a sum type: the variant of this name with the payload `vs`.
pub open spec fn build_variant(p: ProgramV, g: Gen, name: Seq<char>, vs: Seq<OpndV>) -> (
    Gen,
    OpndV,
) {
    let variants = p.enums[variant_home(p, name, 0)].variants;
    let (g1, obj) = emit(
        g,
        IrTy::Ptr,
        Op::NewTagged(max_arity(variants) as usize),
        Seq::empty(),
    );
    let g2 = store(g1, obj, OpndV::Size(variant_index(variants, name, 0) as usize));
    (store_payload(g2, obj, vs, 0), obj)
}

/// The index of the field of this name in a structure literal.
pub open spec fn init_index(inits: Seq<FieldInitV>, name: Seq<char>, i: int) -> int
    decreases inits.len() - i,
{
    if !(0 <= i < inits.len()) || inits[i].name == name {
        i
    } else {
        init_index(inits, name, i + 1)
    }
}

/// The code of an expression after the code of `g`, and the value of the expression.
pub open spec fn lower(p: ProgramV, vars: Seq<VarV>, g: Gen, e: ExprV) -> (Gen, OpndV)
    decreases e, 0int,
{
    match e.kind {
        ExprKindV::Int(n) => (g, OpndV::Int(n)),
        ExprKindV::Float(s) => (g, OpndV::Float(s)),
        ExprKindV::Bool(b) => (g, OpndV::Bool(b)),
        ExprKindV::Str(s) => (g, OpndV::Str(s)),
        ExprKindV::Null => (g, OpndV::Null),
        ExprKindV::Var(name) => if variant_named(p, name) is Some {
            build_variant(p, g, name, Seq::empty())
        } else {
            emit(
                g,
                basic_ty(ty_of(p, vars, e)),
                Op::GetVar(slot_of(vars, name)),
                Seq::empty(),
            )
        },
        ExprKindV::Unary { op, expr } => {
            let (g1, v) = lower(p, vars, g, *expr);
            prefix(g1, op, v, ty_of(p, vars, *expr))
        },
        ExprKindV::Binary { op, lhs, rhs } => {
            let (g1, l) = lower(p, vars, g, *lhs);
            if op == BinOp::And || op == BinOp::Or {
                let slot = g1.slots.len() as usize;
                let g2 = new_slot(g1, IrTy::I1);
                let (rg, r) = lower(p, vars, inner(g2), *rhs);
                logical(g2, op, l, slot, rg, r)
            } else {
                let (g2, r) = lower(p, vars, g1, *rhs);
                let lt = ty_of(p, vars, *lhs);
                let rt = ty_of(p, vars, *rhs);
                if (op == BinOp::Eq || op == BinOp::Ne) && (lt is Null || rt is Null) {
                    ref_compare(g2, op, l, r)
                } else {
                    arith(g2, op, l, r, lt)
                }
            }
        },
        ExprKindV::Call { name, args } => lower_call(p, vars, g, name, args),
        ExprKindV::Array(elems) => {
            let n = elems.len() as usize;
            let (g1, hdr) = emit(g, IrTy::Ptr, Op::New(3), Seq::empty());
            let (g2, data) = if n == 0 {
                (g1, OpndV::Null)
            } else {
                emit(g1, IrTy::Ptr, Op::New(n), Seq::empty())
            };
            let g3 = store(g2, hdr, OpndV::Size(n));
            let g4 = store_slot(g3, hdr, 1, OpndV::Size(n));
            let g5 = store_slot(g4, hdr, 2, data);
            (lower_elems(p, vars, g5, data, elems, 0), hdr)
        },
        ExprKindV::Index { array, index } => {
            let (g1, a) = lower(p, vars, g, *array);
            match ty_of(p, vars, *array) {
                Ty::MapOf(t) => {
                    let g2 = null_check(g1, a);
                    let (g3, key) = lower(p, vars, g2, *index);
                    let (g4, h) = call_rt(g3, IrTy::I64, Rt::StrHash, seq![key]);
                    let (g5, raw) = call_rt(g4, IrTy::I64, Rt::MapGet, seq![a, key, h]);
                    from_slot(g5, raw, *t)
                },
                Ty::Str => {
                    let g2 = null_check(g1, a);
                    let (g3, i) = lower(p, vars, g2, *index);
                    let (g4, len) = call_rt(g3, IrTy::I64, Rt::StrLen, seq![a]);
                    let g5 = bounds_check(g4, i, len);
                    let (g6, at) = emit(g5, IrTy::Ptr, Op::Offset, seq![a, i]);
                    emit(g6, IrTy::I64, Op::LoadByte, seq![at])
                },
                t => {
                    let g2 = null_check(g1, a);
                    let (g3, i) = lower(p, vars, g2, *index);
                    let (g4, at) = elem_addr(g3, a, i);
                    let ty = basic_ty(elem_of(t));
                    emit(g4, ty, Op::Load(ty), seq![at])
                },
            }
        },
        ExprKindV::Slice { seq, lo, hi } => {
            let (g1, s) = lower(p, vars, g, *seq);
            let t = ty_of(p, vars, *seq);
            let g2 = null_check(g1, s);
            let (g3, len) = length(g2, s, t);
            let (g4, l) = lower_bound(p, vars, g3, lo, OpndV::Int(0));
            let (g5, h) = lower_bound(p, vars, g4, hi, len);
            slice(g5, s, l, h, len, t)
        },
        ExprKindV::StructLit { name, fields } => {
            let def = struct_named(p, name)->0;
            let (g1, obj) = emit(g, IrTy::Ptr, Op::New(def.fields.len() as usize), Seq::empty());
            (lower_fields(p, vars, g1, obj, def.fields, fields, 0), obj)
        },
        ExprKindV::MapLit(pairs) => {
            let (g1, hdr) = call_rt(g, IrTy::Ptr, Rt::MapNew, Seq::empty());
            (lower_pairs(p, vars, g1, hdr, pairs, 0), hdr)
        },
        ExprKindV::Field { obj, field } => {
            let (g1, o) = lower(p, vars, g, *obj);
            let g2 = null_check(g1, o);
            load_slot(
                g2,
                basic_ty(ty_of(p, vars, e)),
                o,
                field_slot(p, ty_of(p, vars, *obj), field),
            )
        },
    }
}

/// The slot of a field in a structure of type `t`.
pub open spec fn field_slot(p: ProgramV, t: Ty, field: Seq<char>) -> usize {
    param_index(struct_named(p, t->Struct_0)->0.fields, field, 0) as usize
}

/// The address of the element at `i` of the array `a`, after a check of the index.
pub open spec fn elem_addr(g: Gen, a: OpndV, i: OpndV) -> (Gen, OpndV) {
    let (g1, len) = emit(g, IrTy::I64, Op::Load(IrTy::I64), seq![a]);
    let g2 = bounds_check(g1, i, len);
    let (g3, data) = load_slot(g2, IrTy::Ptr, a, 2);
    elem_slot(g3, data, i)
}

/// The part from `l` up to `h` of an array or a string of length `len`.
pub open spec fn slice(g: Gen, s: OpndV, l: OpndV, h: OpndV, len: OpndV, t: Ty) -> (Gen, OpndV) {
    let (g1, c1) = emit(g, IrTy::I1, Op::ICmp(Pred::Ge), seq![l, OpndV::Int(0)]);
    let (g2, c2) = emit(g1, IrTy::I1, Op::ICmp(Pred::Le), seq![l, h]);
    let (g3, c3) = emit(g2, IrTy::I1, Op::ICmp(Pred::Le), seq![h, len]);
    let g4 = require3(g3, c1, c2, c3, "lumo: slice out of range\n"@);
    if t is Str {
        let (g5, count) = emit(g4, IrTy::I64, Op::Sub, seq![h, l]);
        call_rt(g5, IrTy::Ptr, Rt::Substr, seq![s, l, count])
    } else {
        call_rt(g4, IrTy::Ptr, Rt::ArraySlice, seq![s, l, h])
    }
}

/// A bound of a slice, or `other` where it is left out.
pub open spec fn lower_bound(
    p: ProgramV,
    vars: Seq<VarV>,
    g: Gen,
    b: Option<Box<ExprV>>,
    other: OpndV,
) -> (Gen, OpndV)
    decreases b, 0int,
{
    match b {
        Some(e) => lower(p, vars, g, *e),
        None => (g, other),
    }
}

/// The elements of an array literal from `i` on, written to its data.
pub open spec fn lower_elems(
    p: ProgramV,
    vars: Seq<VarV>,
    g: Gen,
    data: OpndV,
    es: Seq<ExprV>,
    i: int,
) -> Gen
    decreases es, es.len() - i,
{
    if !(0 <= i < es.len()) {
        g
    } else {
        let (g1, v) = lower(p, vars, g, es[i]);
        lower_elems(p, vars, store_slot(g1, data, i as usize, v), data, es, i + 1)
    }
}

/// The expressions from `i` on one after the other, after the values in `acc`.
pub open spec fn lower_list(
    p: ProgramV,
    vars: Seq<VarV>,
    g: Gen,
    es: Seq<ExprV>,
    i: int,
    acc: Seq<OpndV>,
) -> (Gen, Seq<OpndV>)
    decreases es, es.len() - i,
{
    if !(0 <= i < es.len()) {
        (g, acc)
    } else {
        let (g1, v) = lower(p, vars, g, es[i]);
        lower_list(p, vars, g1, es, i + 1, acc.push(v))
    }
}

/// The fields of a structure from `i` on, in the order of the definition, written to it.
pub open spec fn lower_fields(
    p: ProgramV,
    vars: Seq<VarV>,
    g: Gen,
    obj: OpndV,
    fields: Seq<ParamV>,
    inits: Seq<FieldInitV>,
    i: int,
) -> Gen
    decreases inits, fields.len() - i,
{
    if !(0 <= i < fields.len()) {
        g
    } else {
        let k = init_index(inits, fields[i].name, 0);
        if 0 <= k < inits.len() {
            let (g1, v) = lower(p, vars, g, inits[k].value);
            lower_fields(
                p,
                vars,
                store_slot(g1, obj, i as usize, v),
                obj,
                fields,
                inits,
                i + 1,
            )
        } else {
            g
        }
    }
}

/// The entries of a map literal from `i` on, put into it.
pub open spec fn lower_pairs(
    p: ProgramV,
    vars: Seq<VarV>,
    g: Gen,
    hdr: OpndV,
    es: Seq<(ExprV, ExprV)>,
    i: int,
) -> Gen
    decreases es, es.len() - i,
{
    if !(0 <= i < es.len()) {
        g
    } else {
        let (g1, key) = lower(p, vars, g, es[i].0);
        let (g2, v) = lower(p, vars, g1, es[i].1);
        let g3 = put_entry(g2, hdr, key, v, ty_of(p, vars, es[i].1));
        lower_pairs(p, vars, g3, hdr, es, i + 1)
    }
}

/// Puts a value of type `t` into a map.
pub open spec fn put_entry(g: Gen, hdr: OpndV, key: OpndV, v: OpndV, t: Ty) -> Gen {
    let (g1, h) = call_rt(g, IrTy::I64, Rt::StrHash, seq![key]);
    let (g2, raw) = to_slot(g1, v, t);
    let (g3, _) = call_rt(g2, IrTy::I64, Rt::MapPut, seq![hdr, key, h, raw]);
    g3
}

/// A call of a built-in function, of a variant or of a function of the program.
pub open spec fn lower_call(
    p: ProgramV,
    vars: Seq<VarV>,
    g: Gen,
    name: Seq<char>,
    args: Seq<ExprV>,
) -> (Gen, OpndV)
    decreases args, args.len() + 1,
{
    match builtin_named(name) {
        Some(b) => if checks_first(b) && args.len() == 2 {
            let (g1, x) = lower(p, vars, g, args[0]);
            let g2 = null_check(g1, x);
            let (g3, y) = lower(p, vars, g2, args[1]);
            builtin_checked(g3, b, x, y)
        } else {
            let (g1, vs) = lower_list(p, vars, g, args, 0, Seq::empty());
            builtin(
                g1,
                b,
                vs,
                if args.len() == 0 {
                    Ty::Null
                } else {
                    ty_of(p, vars, args[0])
                },
            )
        },
        None => {
            let (g1, vs) = lower_list(p, vars, g, args, 0, Seq::empty());
            if variant_named(p, name) is Some {
                build_variant(p, g1, name, vs)
            } else {
                let f = func_index(p, name, 0);
                call_func(g1, f as nat, basic_ty(resolve(p, p.funcs[f].ret)), vs)
            }
        },
    }
}

/// A call of the function of the program at index `f`.
pub open spec fn call_func(g: Gen, f: nat, ty: IrTy, vs: Seq<OpndV>) -> (Gen, OpndV) {
    (
        Gen {
            code: g.code.push(
                CodeV::Do(InstV::Call { dst: g.regs.len(), func: f, args: vs }),
            ),
            regs: g.regs.push(ty),
            slots: g.slots,
        },
        OpndV::Reg(g.regs.len()),
    )
}

// Statements.

/// A statement after which nothing of its block is reached.
pub open spec fn closes(s: StmtV) -> bool {
    s.kind is Return || s.kind is Break || s.kind is Continue
}

/// `print v`, of a value of type `t`.
pub open spec fn print_value(g: Gen, v: OpndV, t: Ty) -> Gen {
    match t {
        Ty::Int => call_rt(g, IrTy::I64, Rt::PrintInt, seq![v]).0,
        Ty::Float => call_rt(g, IrTy::I64, Rt::PrintFloat, seq![v]).0,
        Ty::Bool => {
            let (g1, s) = emit(
                g,
                IrTy::Ptr,
                Op::Select,
                seq![v, OpndV::Str("true"@), OpndV::Str("false"@)],
            );
            call_rt(g1, IrTy::I64, Rt::PrintStr, seq![s]).0
        },
        _ => call_rt(g, IrTy::I64, Rt::PrintStr, seq![v]).0,
    }
}

/// `target = value`. The value is evaluated first.
pub open spec fn lower_assign(
    p: ProgramV,
    vars: Seq<VarV>,
    g: Gen,
    target: ExprV,
    value: ExprV,
) -> Gen {
    let (g1, v) = lower(p, vars, g, value);
    match target.kind {
        ExprKindV::Var(name) => set_var(g1, slot_of(vars, name), v),
        ExprKindV::Index { array, index } => {
            let (g2, a) = lower(p, vars, g1, *array);
            let g3 = null_check(g2, a);
            let (g4, i) = lower(p, vars, g3, *index);
            if ty_of(p, vars, *array) is MapOf {
                put_entry(g4, a, i, v, ty_of(p, vars, value))
            } else {
                let (g5, at) = elem_addr(g4, a, i);
                store(g5, at, v)
            }
        },
        ExprKindV::Field { obj, field } => {
            let (g2, o) = lower(p, vars, g1, *obj);
            let g3 = null_check(g2, o);
            store_slot(g3, o, field_slot(p, ty_of(p, vars, *obj), field), v)
        },
        _ => g1,
    }
}

/// The names for the payload of the value `v` from `i` on, as variables.
pub open spec fn bind_payload(
    p: ProgramV,
    vars: Seq<VarV>,
    g: Gen,
    v: OpndV,
    names: Seq<Seq<char>>,
    fields: Seq<Ty>,
    i: int,
) -> (Gen, Seq<VarV>)
    decreases names.len() - i,
{
    if !(0 <= i < names.len()) {
        (g, vars)
    } else {
        let t = resolve(p, fields[i]);
        let (g1, x) = load_slot(g, basic_ty(t), v, (i + 1) as usize);
        let slot = g1.slots.len() as usize;
        let g2 = set_var(new_slot(g1, basic_ty(t)), slot, x);
        bind_payload(
            p,
            vars.push(VarV { name: names[i], slot, ty: t }),
            g2,
            v,
            names,
            fields,
            i + 1,
        )
    }
}

/// The code of a statement after that of `g`, and the variables after it.
pub open spec fn lower_stmt(p: ProgramV, vars: Seq<VarV>, g: Gen, s: StmtV) -> (Gen, Seq<VarV>)
    decreases s, 0int,
{
    match s.kind {
        StmtKindV::Let { name, ty, value } => {
            let (g1, v) = lower(p, vars, g, value);
            let t = let_type(p, tenv(vars), ty, value, s.span)->Ok_0;
            let slot = g1.slots.len() as usize;
            let g2 = set_var(new_slot(g1, basic_ty(t)), slot, v);
            (g2, vars.push(VarV { name, slot, ty: t }))
        },
        StmtKindV::Assign { target, value } => (lower_assign(p, vars, g, target, value), vars),
        StmtKindV::Print(e) => {
            let (g1, v) = lower(p, vars, g, e);
            (print_value(g1, v, ty_of(p, vars, e)), vars)
        },
        StmtKindV::Return(e) => {
            let (g1, v) = lower(p, vars, g, e);
            (then_code(g1, CodeV::Return(v), g1), vars)
        },
        StmtKindV::ExprStmt(e) => (lower(p, vars, g, e).0, vars),
        StmtKindV::If { cond, then_body, else_body } => {
            let (g1, c) = lower(p, vars, g, cond);
            let t = lower_stmts(p, vars, inner(g1), then_body, 0);
            let e = lower_stmts(p, vars, inner(t), else_body, 0);
            (then_code(g1, CodeV::If { cond: c, then: t.code, els: e.code }, e), vars)
        },
        StmtKindV::While { cond, body } => {
            let (h, c) = lower(p, vars, inner(g), cond);
            let b = lower_stmts(p, vars, inner(h), body, 0);
            (
                then_code(
                    g,
                    CodeV::Loop { head: h.code, cond: c, body: b.code, step: Seq::empty() },
                    b,
                ),
                vars,
            )
        },
        StmtKindV::For { init, cond, step, body } => {
            let (g1, inside) = lower_opt(p, vars, g, init);
            let (h, c) = lower(p, inside, inner(g1), cond);
            let b = lower_stmts(p, inside, inner(h), body, 0);
            let (st, _) = lower_opt(p, inside, inner(b), step);
            (
                then_code(
                    g1,
                    CodeV::Loop { head: h.code, cond: c, body: b.code, step: st.code },
                    st,
                ),
                vars,
            )
        },
        StmtKindV::ForIn { var, iter, body } => {
            let (g1, it) = lower(p, vars, g, iter);
            let t = item_type(p, tenv(vars), iter)->Ok_0;
            let g2 = null_check(g1, it);
            let (g3, arr) = if ty_of(p, vars, iter) is MapOf {
                call_rt(g2, IrTy::Ptr, Rt::MapKeys, seq![it])
            } else {
                (g2, it)
            };
            let (g4, len) = emit(g3, IrTy::I64, Op::Load(IrTy::I64), seq![arr]);
            let i_slot = g4.slots.len() as usize;
            let g6 = set_var(new_slot(g4, IrTy::I64), i_slot, OpndV::Int(0));
            let slot = g6.slots.len() as usize;
            let g7 = new_slot(g6, basic_ty(t));
            let (h1, i) = emit(inner(g7), IrTy::I64, Op::GetVar(i_slot), Seq::empty());
            let (h2, c) = emit(h1, IrTy::I1, Op::ICmp(Pred::Below), seq![i, len]);
            let (b0, data) = load_slot(inner(h2), IrTy::Ptr, arr, 2);
            let (b1, at) = elem_slot(b0, data, i);
            let (b2, x) = emit(b1, basic_ty(t), Op::Load(basic_ty(t)), seq![at]);
            let b3 = set_var(b2, slot, x);
            let b = lower_stmts(p, vars.push(VarV { name: var, slot, ty: t }), b3, body, 0);
            let (s1, j) = emit(inner(b), IrTy::I64, Op::GetVar(i_slot), Seq::empty());
            let (s2, next) = emit(s1, IrTy::I64, Op::Add, seq![j, OpndV::Int(1)]);
            let s3 = set_var(s2, i_slot, next);
            (
                then_code(
                    g7,
                    CodeV::Loop { head: h2.code, cond: c, body: b.code, step: s3.code },
                    s3,
                ),
                vars,
            )
        },
        StmtKindV::Match { scrut, arms } => {
            let (g1, v) = lower(p, vars, g, scrut);
            let def = scrut_enum(p, tenv(vars), scrut)->Ok_0;
            let g2 = null_check(g1, v);
            let (g3, tag) = emit(g2, IrTy::I64, Op::Load(IrTy::I64), seq![v]);
            let out = lower_arms(
                p,
                vars,
                Arms { tags: Seq::empty(), cases: Seq::empty(), default: Seq::empty(), last: inner(g3) },
                v,
                def,
                arms,
                0,
            );
            (
                then_code(
                    g3,
                    CodeV::Switch {
                        on: tag,
                        tags: out.tags,
                        cases: out.cases,
                        default: out.default,
                    },
                    out.last,
                ),
                vars,
            )
        },
        StmtKindV::Break => (then_code(g, CodeV::Break, g), vars),
        StmtKindV::Continue => (then_code(g, CodeV::Continue, g), vars),
    }
}

/// The arms of a `match` as far as they are lowered, and the registers and variables after
/// them.
pub ghost struct Arms {
    pub tags: Seq<usize>,
    pub cases: Seq<Seq<CodeV>>,
    pub default: Seq<CodeV>,
    pub last: Gen,
}

/// The arms of a `match` on `v` from `i` on.
pub open spec fn lower_arms(
    p: ProgramV,
    vars: Seq<VarV>,
    out: Arms,
    v: OpndV,
    def: EnumDefV,
    arms: Seq<MatchArmV>,
    i: int,
) -> Arms
    decreases arms, arms.len() - i,
{
    if !(0 <= i < arms.len()) {
        out
    } else if arms[i].wildcard {
        let b = lower_stmts(p, vars, inner(out.last), arms[i].body, 0);
        lower_arms(
            p,
            vars,
            Arms { tags: out.tags, cases: out.cases, default: b.code, last: b },
            v,
            def,
            arms,
            i + 1,
        )
    } else {
        let k = variant_index(def.variants, arms[i].variant, 0);
        let (b1, inside) = bind_payload(
            p,
            vars,
            inner(out.last),
            v,
            arms[i].bindings,
            def.variants[k].fields,
            0,
        );
        let b = lower_stmts(p, inside, b1, arms[i].body, 0);
        lower_arms(
            p,
            vars,
            Arms {
                tags: out.tags.push(k as usize),
                cases: out.cases.push(b.code),
                default: out.default,
                last: b,
            },
            v,
            def,
            arms,
            i + 1,
        )
    }
}

/// A statement that may be left out.
pub open spec fn lower_opt(p: ProgramV, vars: Seq<VarV>, g: Gen, s: Option<Box<StmtV>>) -> (
    Gen,
    Seq<VarV>,
)
    decreases s, 0int,
{
    match s {
        Some(s) => lower_stmt(p, vars, g, *s),
        None => (g, vars),
    }
}

/// The statements from `i` on, as far as they are reached.
pub open spec fn lower_stmts(
    p: ProgramV,
    vars: Seq<VarV>,
    g: Gen,
    ss: Seq<StmtV>,
    i: int,
) -> Gen
    decreases ss, ss.len() - i,
{
    if !(0 <= i < ss.len()) {
        g
    } else {
        let (g1, after) = lower_stmt(p, vars, g, ss[i]);
        if closes(ss[i]) {
            g1
        } else {
            lower_stmts(p, after, g1, ss, i + 1)
        }
    }
}

/// One of the statements from `i` on ends their block.
pub open spec fn block_closed(ss: Seq<StmtV>) -> bool {
    exists|k: int| 0 <= k < ss.len() && closes(#[trigger] ss[k])
}

// Programs.

/// The types of the registers that hold the parameters.
pub open spec fn param_slots(p: ProgramV, ps: Seq<ParamV>) -> Seq<IrTy> {
    Seq::new(ps.len(), |i: int| basic_ty(resolve(p, ps[i].ty)))
}

/// The parameters as variables.
pub open spec fn param_vars(p: ProgramV, ps: Seq<ParamV>) -> Seq<VarV> {
    Seq::new(
        ps.len(),
        |i: int| VarV { name: ps[i].name, slot: i as usize, ty: resolve(p, ps[i].ty) },
    )
}

/// A function. Where its end is reached without a `return`, it returns the zero of its type.
pub open spec fn lower_func(p: ProgramV, f: FunctionV) -> IrFuncV {
    let params = param_slots(p, f.params);
    let ret = resolve(p, f.ret);
    let start = Gen { code: Seq::empty(), regs: Seq::empty(), slots: params };
    let body = lower_stmts(p, param_vars(p, f.params), start, f.body, 0);
    let whole = if block_closed(f.body) {
        body
    } else {
        then_code(body, CodeV::Return(zero_of(ret)), body)
    };
    IrFuncV {
        name: f.name,
        params,
        ret: basic_ty(ret),
        slots: whole.slots,
        regs: whole.regs,
        code: whole.code,
    }
}

/// All the functions of a program, in its order.
pub open spec fn lowered(p: ProgramV) -> Seq<IrFuncV> {
    Seq::new(p.funcs.len(), |i: int| lower_func(p, p.funcs[i]))
}

} // verus!
