//! The code generator: lowers a program that the type checker accepts to intermediate code,
//! by the rules of [`crate::lowering`].
use crate::ast::{
    BinOp, EnumDef, EnumVariant, Expr, ExprKind, FieldInit, Function, MatchArm, Param, Program,
    Stmt, StmtKind, UnOp,
};
use crate::builtins::{builtin_of, Builtin};
use crate::ir::{basic_type, Code, Inst, IrFunc, IrModule, IrTy, Op, Opnd, Pred, Rt};
use crate::span::Span;
use crate::text::text_eq;
use crate::typeck::{
    find_enum, find_func, find_home, find_param, find_struct, find_variant, fixed_sig_of,
    generic_arity_of, resolve_type,
};
use crate::types::{intern, Elem, Type};
use vstd::prelude::*;
#[allow(unused_imports)]
use crate::ast::{
    arm_view, arms_view, enum_view, expr_view, exprs_view, function_view, init_view, inits_view,
    names_view, opt_expr_view, opt_stmt_view, opt_ty_view, pair_view, pairs_view, param_view,
    params_view, program_view, stmt_view, stmts_view, struct_view, types_view, variant_view,
    variants_view, EnumDefV, EnumVariantV, ExprKindV, ExprV, FieldInitV, FunctionV, MatchArmV,
    ParamV, ProgramV, StmtKindV, StmtV, StructDefV,
};
#[allow(unused_imports)]
use crate::builtins::builtin_named;
#[allow(unused_imports)]
use crate::diagnostics::DiagV;
#[allow(unused_imports)]
use crate::ir::{
    basic_ty, cases_view, code_view, codes_view, func_view, opnds_view, CodeV, InstV, IrFuncV,
    OpndV,
};
#[allow(unused_imports)]
use crate::lowering;
#[allow(unused_imports)]
use crate::lowering::{inner, max_arity, new_slot, slot_of, tenv, then_code, ty_of, Arms, Gen, VarV};
#[allow(unused_imports)]
use crate::types::{ty_is_numeric, Ty};
#[allow(unused_imports)]
use crate::typing;
#[allow(unused_imports)]
use crate::typing::{
    check_stmt, check_stmts, enum_named, fixed_sig, func_index, generic_arity, is_empty_literal,
    item_type, let_type, param_index, resolve, scrut_enum, struct_index, struct_named, type_of,
    variant_home, variant_index, variant_named, Place,
};

verus! {

// Operands.

fn dup(v: &Opnd) -> (r: Opnd)
    ensures
        r@ == v@,
{
    match v {
        Opnd::Reg(n) => Opnd::Reg(*n),
        Opnd::Int(n) => Opnd::Int(*n),
        Opnd::Size(n) => Opnd::Size(*n),
        Opnd::Bool(b) => Opnd::Bool(*b),
        Opnd::Float(s) => Opnd::Float(s.clone()),
        Opnd::Str(s) => Opnd::Str(s.clone()),
        Opnd::Null => Opnd::Null,
    }
}

fn opnds1(a: &Opnd) -> (r: Vec<Opnd>)
    ensures
        opnds_view(r@) == seq![a@],
{
    let mut r: Vec<Opnd> = Vec::new();
    r.push(dup(a));
    assert(opnds_view(r@) =~= seq![a@]);
    r
}

fn opnds2(a: &Opnd, b: &Opnd) -> (r: Vec<Opnd>)
    ensures
        opnds_view(r@) == seq![a@, b@],
{
    let mut r: Vec<Opnd> = Vec::new();
    r.push(dup(a));
    r.push(dup(b));
    assert(opnds_view(r@) =~= seq![a@, b@]);
    r
}

fn opnds3(a: &Opnd, b: &Opnd, c: &Opnd) -> (r: Vec<Opnd>)
    ensures
        opnds_view(r@) == seq![a@, b@, c@],
{
    let mut r: Vec<Opnd> = Vec::new();
    r.push(dup(a));
    r.push(dup(b));
    r.push(dup(c));
    assert(opnds_view(r@) =~= seq![a@, b@, c@]);
    r
}

fn opnds4(a: &Opnd, b: &Opnd, c: &Opnd, d: &Opnd) -> (r: Vec<Opnd>)
    ensures
        opnds_view(r@) == seq![a@, b@, c@, d@],
{
    let mut r: Vec<Opnd> = Vec::new();
    r.push(dup(a));
    r.push(dup(b));
    r.push(dup(c));
    r.push(dup(d));
    assert(opnds_view(r@) =~= seq![a@, b@, c@, d@]);
    r
}

/// A variable of the program: its name, where it is held, and its type.
struct Var {
    name: String,
    slot: usize,
    ty: Type,
}

spec fn var_view(v: Var) -> VarV {
    VarV { name: v.name@, slot: v.slot, ty: v.ty@ }
}

spec fn vars_view(v: Seq<Var>) -> Seq<VarV> {
    Seq::new(v.len(), |i: int| var_view(v[i]))
}

/// Code under construction, with the types of its registers and variables.
struct Builder {
    code: Vec<Code>,
    regs: Vec<IrTy>,
    slots: Vec<IrTy>,
}

impl Builder {
    spec fn gen(&self) -> Gen {
        Gen { code: codes_view(self.code@), regs: self.regs@, slots: self.slots@ }
    }

    fn push(&mut self, c: Code)
        ensures
            final(self).gen() == then_code(old(self).gen(), code_view(c), old(self).gen()),
    {
        self.code.push(c);
        assert(codes_view(self.code@) =~= codes_view(old(self).code@).push(code_view(c)));
    }

    /// Starts code of its own, and answers with the code so far.
    fn enter(&mut self) -> (saved: Vec<Code>)
        ensures
            final(self).gen() == inner(old(self).gen()),
            codes_view(saved@) == old(self).gen().code,
    {
        let mut saved: Vec<Code> = Vec::new();
        std::mem::swap(&mut saved, &mut self.code);
        assert(codes_view(self.code@) =~= Seq::empty());
        saved
    }

    /// Goes back to the code before, and answers with the code of its own.
    fn leave(&mut self, saved: Vec<Code>) -> (done: Vec<Code>)
        ensures
            final(self).gen() == (Gen { code: codes_view(saved@), ..old(self).gen() }),
            codes_view(done@) == old(self).gen().code,
    {
        let mut saved = saved;
        std::mem::swap(&mut saved, &mut self.code);
        saved
    }

    fn emit(&mut self, ty: IrTy, op: Op, args: Vec<Opnd>) -> (v: Opnd)
        ensures
            (final(self).gen(), v@) == lowering::emit(old(self).gen(), ty, op, opnds_view(args@)),
    {
        let dst: usize = self.regs.len();
        self.regs.push(ty);
        self.push(Code::Do(Inst::Op { dst, op, args }));
        Opnd::Reg(dst)
    }

    fn emit0(&mut self, ty: IrTy, op: Op) -> (v: Opnd)
        ensures
            (final(self).gen(), v@) == lowering::emit(old(self).gen(), ty, op, Seq::empty()),
    {
        let args: Vec<Opnd> = Vec::new();
        assert(opnds_view(args@) =~= Seq::empty());
        self.emit(ty, op, args)
    }

    fn emit1(&mut self, ty: IrTy, op: Op, a: &Opnd) -> (v: Opnd)
        ensures
            (final(self).gen(), v@) == lowering::emit(old(self).gen(), ty, op, seq![a@]),
    {
        self.emit(ty, op, opnds1(a))
    }

    fn emit2(&mut self, ty: IrTy, op: Op, a: &Opnd, b: &Opnd) -> (v: Opnd)
        ensures
            (final(self).gen(), v@) == lowering::emit(old(self).gen(), ty, op, seq![a@, b@]),
    {
        self.emit(ty, op, opnds2(a, b))
    }

    fn emit3(&mut self, ty: IrTy, op: Op, a: &Opnd, b: &Opnd, c: &Opnd) -> (v: Opnd)
        ensures
            (final(self).gen(), v@) == lowering::emit(old(self).gen(), ty, op, seq![a@, b@, c@]),
    {
        self.emit(ty, op, opnds3(a, b, c))
    }

    /// Ends the program with a message where `cond` is true.
    fn stop_if(&mut self, cond: Opnd, msg: &'static str)
        ensures
            final(self).gen() == lowering::stop_if(old(self).gen(), cond@, msg@),
    {
        let mut then: Vec<Code> = Vec::new();
        then.push(Code::Panic(msg));
        let els: Vec<Code> = Vec::new();
        assert(codes_view(then@) =~= seq![CodeV::Panic(msg@)]);
        assert(codes_view(els@) =~= Seq::empty());
        self.push(Code::If { cond, then, els });
    }

    /// Ends the program with a message where `cond` is false.
    fn stop_unless(&mut self, cond: Opnd, msg: &'static str)
        ensures
            final(self).gen() == lowering::stop_unless(old(self).gen(), cond@, msg@),
    {
        let then: Vec<Code> = Vec::new();
        let mut els: Vec<Code> = Vec::new();
        els.push(Code::Panic(msg));
        assert(codes_view(then@) =~= Seq::empty());
        assert(codes_view(els@) =~= seq![CodeV::Panic(msg@)]);
        self.push(Code::If { cond, then, els });
    }

    /// A new variable.
    fn new_slot(&mut self, ty: IrTy) -> (slot: usize)
        ensures
            final(self).gen() == new_slot(old(self).gen(), ty),
            slot == old(self).gen().slots.len() as usize,
    {
        let slot: usize = self.slots.len();
        self.slots.push(ty);
        slot
    }

    fn set_var(&mut self, slot: usize, v: &Opnd)
        ensures
            final(self).gen() == lowering::set_var(old(self).gen(), slot, v@),
    {
        let _r = self.emit1(IrTy::I64, Op::SetVar(slot), v);
    }

    fn store(&mut self, p: &Opnd, v: &Opnd)
        ensures
            final(self).gen() == lowering::store(old(self).gen(), p@, v@),
    {
        let _r = self.emit2(IrTy::I64, Op::Store, p, v);
    }

    fn store_slot(&mut self, p: &Opnd, i: usize, v: &Opnd)
        ensures
            final(self).gen() == lowering::store_slot(old(self).gen(), p@, i, v@),
    {
        let a = self.emit1(IrTy::Ptr, Op::Slot(i), p);
        self.store(&a, v);
    }

    fn load_slot(&mut self, ty: IrTy, p: &Opnd, i: usize) -> (v: Opnd)
        ensures
            (final(self).gen(), v@) == lowering::load_slot(old(self).gen(), ty, p@, i),
    {
        let a = self.emit1(IrTy::Ptr, Op::Slot(i), p);
        self.emit1(ty, Op::Load(ty), &a)
    }

    fn elem_slot(&mut self, data: &Opnd, idx: &Opnd) -> (v: Opnd)
        ensures
            (final(self).gen(), v@) == lowering::elem_slot(old(self).gen(), data@, idx@),
    {
        let off = self.emit2(IrTy::I64, Op::Mul, idx, &Opnd::Int(8));
        self.emit2(IrTy::Ptr, Op::Offset, data, &off)
    }

    fn null_check(&mut self, p: &Opnd)
        ensures
            final(self).gen() == lowering::null_check(old(self).gen(), p@),
    {
        let c = self.emit1(IrTy::I1, Op::IsNull, p);
        self.stop_if(c, "lumo: null reference\n");
    }

    fn bounds_check(&mut self, idx: &Opnd, len: &Opnd)
        ensures
            final(self).gen() == lowering::bounds_check(old(self).gen(), idx@, len@),
    {
        let c = self.emit2(IrTy::I1, Op::ICmp(Pred::AtLeast), idx, len);
        self.stop_if(c, "lumo: index out of bounds\n");
    }

    fn divide_check(&mut self, d: &Opnd)
        ensures
            final(self).gen() == lowering::divide_check(old(self).gen(), d@),
    {
        let c = self.emit2(IrTy::I1, Op::ICmp(Pred::Eq), d, &Opnd::Int(0));
        self.stop_if(c, "lumo: division by zero\n");
    }

    fn require3(&mut self, c1: &Opnd, c2: &Opnd, c3: &Opnd, msg: &'static str)
        ensures
            final(self).gen() == lowering::require3(old(self).gen(), c1@, c2@, c3@, msg@),
    {
        let c12 = self.emit2(IrTy::I1, Op::Both, c1, c2);
        let ok = self.emit2(IrTy::I1, Op::Both, &c12, c3);
        self.stop_unless(ok, msg);
    }

    fn to_slot(&mut self, v: &Opnd, t: Type) -> (r: Opnd)
        ensures
            (final(self).gen(), r@) == lowering::to_slot(old(self).gen(), v@, t@),
    {
        match t {
            Type::Int => dup(v),
            Type::Bool => self.emit1(IrTy::I64, Op::BoolToSlot, v),
            Type::Float => self.emit1(IrTy::I64, Op::FloatToSlot, v),
            _ => self.emit1(IrTy::I64, Op::PtrToSlot, v),
        }
    }

    fn from_slot(&mut self, v: &Opnd, t: Type) -> (r: Opnd)
        ensures
            (final(self).gen(), r@) == lowering::from_slot(old(self).gen(), v@, t@),
    {
        match t {
            Type::Int => dup(v),
            Type::Bool => self.emit1(IrTy::I1, Op::SlotToBool, v),
            Type::Float => self.emit1(IrTy::F64, Op::SlotToFloat, v),
            _ => self.emit1(IrTy::Ptr, Op::SlotToPtr, v),
        }
    }

    // Operators.

    fn arith(&mut self, op: BinOp, l: &Opnd, r: &Opnd, lt: Type) -> (v: Opnd)
        ensures
            (final(self).gen(), v@) == lowering::arith(old(self).gen(), op, l@, r@, lt@),
    {
        if matches!(lt, Type::Str) {
            return self.str_arith(op, l, r);
        }
        if matches!(lt, Type::Float) {
            return match pred_of(op) {
                Some(pr) => self.emit2(IrTy::I1, Op::FCmp(pr), l, r),
                None => self.emit2(IrTy::F64, float_op(op), l, r),
            };
        }
        match pred_of(op) {
            Some(pr) => self.emit2(IrTy::I1, Op::ICmp(pr), l, r),
            None => {
                if matches!(op, BinOp::Div | BinOp::Mod) {
                    self.divide_check(r);
                }
                self.emit2(IrTy::I64, int_op(op), l, r)
            },
        }
    }

    fn str_arith(&mut self, op: BinOp, l: &Opnd, r: &Opnd) -> (v: Opnd)
        ensures
            (final(self).gen(), v@) == lowering::str_arith(old(self).gen(), op, l@, r@),
    {
        match pred_of(op) {
            Some(pr) => {
                let c = self.emit2(IrTy::I64, Op::Rt(Rt::StrCmp), l, r);
                self.emit2(IrTy::I1, Op::ICmp(pr), &c, &Opnd::Int(0))
            },
            None => {
                let la = self.emit1(IrTy::I64, Op::Rt(Rt::StrLen), l);
                let lb = self.emit1(IrTy::I64, Op::Rt(Rt::StrLen), r);
                let sum = self.emit2(IrTy::I64, Op::Add, &la, &lb);
                let size = self.emit2(IrTy::I64, Op::Add, &sum, &Opnd::Int(1));
                let buf = self.emit1(IrTy::Ptr, Op::Rt(Rt::Alloc), &size);
                let _c = self.emit2(IrTy::Ptr, Op::Rt(Rt::StrCpy), &buf, l);
                let _d = self.emit2(IrTy::Ptr, Op::Rt(Rt::StrCat), &buf, r);
                buf
            },
        }
    }

    fn ref_compare(&mut self, op: BinOp, l: &Opnd, r: &Opnd) -> (v: Opnd)
        requires
            op == BinOp::Eq || op == BinOp::Ne,
        ensures
            (final(self).gen(), v@) == lowering::ref_compare(old(self).gen(), op, l@, r@),
    {
        let li = self.emit1(IrTy::I64, Op::PtrToSlot, l);
        let ri = self.emit1(IrTy::I64, Op::PtrToSlot, r);
        let pr = if matches!(op, BinOp::Eq) {
            Pred::Eq
        } else {
            Pred::Ne
        };
        self.emit2(IrTy::I1, Op::ICmp(pr), &li, &ri)
    }

    fn prefix(&mut self, op: UnOp, v: &Opnd, t: Type) -> (r: Opnd)
        ensures
            (final(self).gen(), r@) == lowering::prefix(old(self).gen(), op, v@, t@),
    {
        match op {
            UnOp::Neg => if matches!(t, Type::Float) {
                self.emit1(IrTy::F64, Op::FNeg, v)
            } else {
                self.emit1(IrTy::I64, Op::Neg, v)
            },
            UnOp::Not => self.emit1(IrTy::I1, Op::Not, v),
            UnOp::BitNot => self.emit1(IrTy::I64, Op::BitNot, v),
        }
    }

    // Built-in functions.

    fn convert(&mut self, to_int: bool, v: &Opnd, t: Type) -> (r: Opnd)
        ensures
            (final(self).gen(), r@) == lowering::convert(old(self).gen(), to_int, v@, t@),
    {
        if to_int {
            match t {
                Type::Float => self.emit1(IrTy::I64, Op::FpToSi, v),
                Type::Str => self.emit1(IrTy::I64, Op::Rt(Rt::ParseInt), v),
                _ => dup(v),
            }
        } else {
            match t {
                Type::Int => self.emit1(IrTy::F64, Op::SiToFp, v),
                Type::Str => self.emit1(IrTy::F64, Op::Rt(Rt::ParseFloat), v),
                _ => dup(v),
            }
        }
    }

    fn absolute(&mut self, v: &Opnd, t: Type) -> (r: Opnd)
        ensures
            (final(self).gen(), r@) == lowering::absolute(old(self).gen(), v@, t@),
    {
        if matches!(t, Type::Float) {
            self.emit1(IrTy::F64, Op::Rt(Rt::Fabs), v)
        } else {
            let neg = self.emit1(IrTy::I64, Op::Neg, v);
            let c = self.emit2(IrTy::I1, Op::ICmp(Pred::Lt), v, &Opnd::Int(0));
            self.emit3(IrTy::I64, Op::Select, &c, &neg, v)
        }
    }

    fn extremum(&mut self, min: bool, a: &Opnd, b: &Opnd, t: Type) -> (r: Opnd)
        ensures
            (final(self).gen(), r@) == lowering::extremum(old(self).gen(), min, a@, b@, t@),
    {
        if matches!(t, Type::Float) {
            let f = if min {
                Rt::MinNum
            } else {
                Rt::MaxNum
            };
            self.emit2(IrTy::F64, Op::Rt(f), a, b)
        } else {
            let pr = if min {
                Pred::Lt
            } else {
                Pred::Gt
            };
            let c = self.emit2(IrTy::I1, Op::ICmp(pr), a, b);
            self.emit3(IrTy::I64, Op::Select, &c, a, b)
        }
    }

    fn length(&mut self, v: &Opnd, t: Type) -> (r: Opnd)
        ensures
            (final(self).gen(), r@) == lowering::length(old(self).gen(), v@, t@),
    {
        if matches!(t, Type::Str) {
            self.emit1(IrTy::I64, Op::Rt(Rt::StrLen), v)
        } else {
            self.emit1(IrTy::I64, Op::Load(IrTy::I64), v)
        }
    }

    /// The text `true` or `false`.
    fn bool_text(&mut self, v: &Opnd) -> (r: Opnd)
        ensures
            (final(self).gen(), r@) == lowering::emit(
                old(self).gen(),
                IrTy::Ptr,
                Op::Select,
                seq![v@, OpndV::Str("true"@), OpndV::Str("false"@)],
            ),
    {
        self.emit3(
            IrTy::Ptr,
            Op::Select,
            v,
            &Opnd::Str("true".to_string()),
            &Opnd::Str("false".to_string()),
        )
    }

    fn to_text(&mut self, v: &Opnd, t: Type) -> (r: Opnd)
        ensures
            (final(self).gen(), r@) == lowering::to_text(old(self).gen(), v@, t@),
    {
        match t {
            Type::Str => dup(v),
            Type::Bool => self.bool_text(v),
            _ => {
                let buf = self.emit1(IrTy::Ptr, Op::Rt(Rt::Alloc), &Opnd::Int(32));
                let f = if matches!(t, Type::Float) {
                    Rt::FormatFloat
                } else {
                    Rt::FormatInt
                };
                let _r = self.emit3(IrTy::Ptr, Op::Rt(f), &buf, &Opnd::Int(32), v);
                buf
            },
        }
    }

    fn byte_text(&mut self, v: &Opnd) -> (r: Opnd)
        ensures
            (final(self).gen(), r@) == lowering::byte_text(old(self).gen(), v@),
    {
        let buf = self.emit1(IrTy::Ptr, Op::Rt(Rt::Alloc), &Opnd::Int(2));
        let _a = self.emit2(IrTy::I64, Op::StoreByte, &buf, v);
        let end = self.emit2(IrTy::Ptr, Op::Offset, &buf, &Opnd::Int(1));
        let _b = self.emit2(IrTy::I64, Op::StoreByte, &end, &Opnd::Int(0));
        buf
    }

    fn read_line(&mut self) -> (r: Opnd)
        ensures
            (final(self).gen(), r@) == lowering::read_line(old(self).gen()),
    {
        let buf = self.emit1(IrTy::Ptr, Op::Rt(Rt::Alloc), &Opnd::Int(4096));
        let line = self.emit2(IrTy::Ptr, Op::Rt(Rt::Fgets), &buf, &Opnd::Int(4096));
        let end = self.emit1(IrTy::I1, Op::IsNull, &line);
        let saved = self.enter();
        let pos = self.emit1(IrTy::I64, Op::Rt(Rt::NewlinePos), &buf);
        let at = self.emit2(IrTy::Ptr, Op::Offset, &buf, &pos);
        let _s = self.emit2(IrTy::I64, Op::StoreByte, &at, &Opnd::Int(0));
        let els = self.leave(saved);
        let then: Vec<Code> = Vec::new();
        assert(codes_view(then@) =~= Seq::empty());
        self.push(Code::If { cond: end, then, els });
        line
    }

    fn substr(&mut self, s: &Opnd, start: &Opnd, count: &Opnd) -> (r: Opnd)
        ensures
            (final(self).gen(), r@) == lowering::substr(old(self).gen(), s@, start@, count@),
    {
        let len = self.emit1(IrTy::I64, Op::Rt(Rt::StrLen), s);
        let c1 = self.emit2(IrTy::I1, Op::ICmp(Pred::Ge), start, &Opnd::Int(0));
        let c2 = self.emit2(IrTy::I1, Op::ICmp(Pred::Ge), count, &Opnd::Int(0));
        let rest = self.emit2(IrTy::I64, Op::Sub, &len, start);
        let c3 = self.emit2(IrTy::I1, Op::ICmp(Pred::Le), count, &rest);
        self.require3(&c1, &c2, &c3, "lumo: substr out of range\n");
        self.emit3(IrTy::Ptr, Op::Rt(Rt::Substr), s, start, count)
    }

    fn push_value(&mut self, hdr: &Opnd, v: &Opnd) -> (r: Opnd)
        ensures
            (final(self).gen(), r@) == lowering::push_value(old(self).gen(), hdr@, v@),
    {
        let len = self.emit1(IrTy::I64, Op::Load(IrTy::I64), hdr);
        let cap = self.load_slot(IrTy::I64, hdr, 1);
        let enough = self.emit2(IrTy::I1, Op::ICmp(Pred::Lt), &len, &cap);
        let saved = self.enter();
        let old_data = self.load_slot(IrTy::Ptr, hdr, 2);
        let none = self.emit2(IrTy::I1, Op::ICmp(Pred::Eq), &cap, &Opnd::Int(0));
        let twice = self.emit2(IrTy::I64, Op::Mul, &cap, &Opnd::Int(2));
        let room = self.emit3(IrTy::I64, Op::Select, &none, &Opnd::Int(4), &twice);
        let size = self.emit2(IrTy::I64, Op::Mul, &room, &Opnd::Int(8));
        let data = self.emit2(IrTy::Ptr, Op::Rt(Rt::Realloc), &old_data, &size);
        self.store_slot(hdr, 2, &data);
        self.store_slot(hdr, 1, &room);
        let els = self.leave(saved);
        let then: Vec<Code> = Vec::new();
        assert(codes_view(then@) =~= Seq::empty());
        self.push(Code::If { cond: enough, then, els });
        let data2 = self.load_slot(IrTy::Ptr, hdr, 2);
        let at = self.elem_slot(&data2, &len);
        self.store(&at, v);
        let more = self.emit2(IrTy::I64, Op::Add, &len, &Opnd::Int(1));
        self.store(hdr, &more);
        dup(hdr)
    }

    fn pop_value(&mut self, hdr: &Opnd, t: Type) -> (r: Opnd)
        ensures
            (final(self).gen(), r@) == lowering::pop_value(old(self).gen(), hdr@, t@),
    {
        self.null_check(hdr);
        let len = self.emit1(IrTy::I64, Op::Load(IrTy::I64), hdr);
        let empty = self.emit2(IrTy::I1, Op::ICmp(Pred::Eq), &len, &Opnd::Int(0));
        self.stop_if(empty, "lumo: pop from empty array\n");
        let less = self.emit2(IrTy::I64, Op::Sub, &len, &Opnd::Int(1));
        self.store(hdr, &less);
        let data = self.load_slot(IrTy::Ptr, hdr, 2);
        let at = self.elem_slot(&data, &less);
        let ty = basic_type(t);
        self.emit1(ty, Op::Load(ty), &at)
    }

    fn elem_addr(&mut self, a: &Opnd, i: &Opnd) -> (r: Opnd)
        ensures
            (final(self).gen(), r@) == lowering::elem_addr(old(self).gen(), a@, i@),
    {
        let len = self.emit1(IrTy::I64, Op::Load(IrTy::I64), a);
        self.bounds_check(i, &len);
        let data = self.load_slot(IrTy::Ptr, a, 2);
        self.elem_slot(&data, i)
    }

    fn slice(&mut self, s: &Opnd, l: &Opnd, h: &Opnd, len: &Opnd, t: Type) -> (r: Opnd)
        ensures
            (final(self).gen(), r@) == lowering::slice(old(self).gen(), s@, l@, h@, len@, t@),
    {
        let c1 = self.emit2(IrTy::I1, Op::ICmp(Pred::Ge), l, &Opnd::Int(0));
        let c2 = self.emit2(IrTy::I1, Op::ICmp(Pred::Le), l, h);
        let c3 = self.emit2(IrTy::I1, Op::ICmp(Pred::Le), h, len);
        self.require3(&c1, &c2, &c3, "lumo: slice out of range\n");
        if matches!(t, Type::Str) {
            let count = self.emit2(IrTy::I64, Op::Sub, h, l);
            self.emit3(IrTy::Ptr, Op::Rt(Rt::Substr), s, l, &count)
        } else {
            self.emit3(IrTy::Ptr, Op::Rt(Rt::ArraySlice), s, l, h)
        }
    }

    fn put_entry(&mut self, hdr: &Opnd, key: &Opnd, v: &Opnd, t: Type)
        ensures
            final(self).gen() == lowering::put_entry(old(self).gen(), hdr@, key@, v@, t@),
    {
        let h = self.emit1(IrTy::I64, Op::Rt(Rt::StrHash), key);
        let raw = self.to_slot(v, t);
        let _r = self.emit(IrTy::I64, Op::Rt(Rt::MapPut), opnds4(hdr, key, &h, &raw));
    }

    fn print_value(&mut self, v: &Opnd, t: Type)
        ensures
            final(self).gen() == lowering::print_value(old(self).gen(), v@, t@),
    {
        match t {
            Type::Int => {
                let _r = self.emit1(IrTy::I64, Op::Rt(Rt::PrintInt), v);
            },
            Type::Float => {
                let _r = self.emit1(IrTy::I64, Op::Rt(Rt::PrintFloat), v);
            },
            Type::Bool => {
                let s = self.bool_text(v);
                let _r = self.emit1(IrTy::I64, Op::Rt(Rt::PrintStr), &s);
            },
            _ => {
                let _r = self.emit1(IrTy::I64, Op::Rt(Rt::PrintStr), v);
            },
        }
    }

    /// A built-in function on values.
    fn builtin(&mut self, b: Builtin, vs: Vec<Opnd>, t: Type) -> (r: Opnd)
        requires
            match fixed_sig(b) {
                Some((params, _)) => vs@.len() == params.len(),
                None => vs@.len() == generic_arity(b),
            },
        ensures
            (final(self).gen(), r@) == lowering::builtin(
                old(self).gen(),
                b,
                opnds_view(vs@),
                t@,
            ),
    {
        let ghost all = opnds_view(vs@);
        assert(vs@.len() >= 1 ==> all[0] == vs@[0]@);
        assert(vs@.len() >= 2 ==> all[1] == vs@[1]@);
        assert(vs@.len() >= 3 ==> all[2] == vs@[2]@);
        match plain_rt(b) {
            Some((f, ty, more)) => {
                let mut vs = vs;
                match more {
                    Some(flag) => {
                        vs.push(Opnd::Bool(flag));
                        assert(opnds_view(vs@) =~= all + seq![OpndV::Bool(flag)]);
                    },
                    None => {
                        assert(all + Seq::<OpndV>::empty() =~= all);
                    },
                }
                self.emit(ty, Op::Rt(f), vs)
            },
            None => if matches!(b, Builtin::Int) {
                self.convert(true, &vs[0], t)
            } else if matches!(b, Builtin::Float) {
                self.convert(false, &vs[0], t)
            } else if matches!(b, Builtin::Abs) {
                self.absolute(&vs[0], t)
            } else if matches!(b, Builtin::Min) {
                self.extremum(true, &vs[0], &vs[1], t)
            } else if matches!(b, Builtin::Max) {
                self.extremum(false, &vs[0], &vs[1], t)
            } else if matches!(b, Builtin::Len) {
                self.length(&vs[0], t)
            } else if matches!(b, Builtin::Str) {
                self.to_text(&vs[0], t)
            } else if matches!(b, Builtin::Chr) {
                self.byte_text(&vs[0])
            } else if matches!(b, Builtin::ReadLine) {
                self.read_line()
            } else if matches!(b, Builtin::Substr) {
                self.substr(&vs[0], &vs[1], &vs[2])
            } else if matches!(b, Builtin::Contains) {
                let pos = self.emit(IrTy::I64, Op::Rt(Rt::Find), vs);
                self.emit2(IrTy::I1, Op::ICmp(Pred::Ge), &pos, &Opnd::Int(0))
            } else if matches!(b, Builtin::Replace) {
                let parts = self.emit2(IrTy::Ptr, Op::Rt(Rt::Split), &vs[0], &vs[1]);
                self.emit2(IrTy::Ptr, Op::Rt(Rt::Join), &parts, &vs[2])
            } else if matches!(b, Builtin::Pop) {
                self.pop_value(&vs[0], elem_of(t))
            } else if matches!(b, Builtin::Sorted) {
                self.null_check(&vs[0]);
                self.emit(IrTy::Ptr, Op::Rt(sort_fn(elem_of(t))), vs)
            } else if matches!(b, Builtin::Reversed) {
                self.null_check(&vs[0]);
                self.emit(IrTy::Ptr, Op::Rt(Rt::Reverse), vs)
            } else {
                self.null_check(&vs[0]);
                self.emit(IrTy::Ptr, Op::Rt(Rt::MapKeys), vs)
            },
        }
    }

    /// A built-in function on values, of which the first is checked already.
    fn builtin_checked(&mut self, b: Builtin, x: &Opnd, y: &Opnd) -> (r: Opnd)
        ensures
            (final(self).gen(), r@) == lowering::builtin_checked(old(self).gen(), b, x@, y@),
    {
        if matches!(b, Builtin::Push) {
            self.push_value(x, y)
        } else if matches!(b, Builtin::Join) {
            self.emit2(IrTy::Ptr, Op::Rt(Rt::Join), x, y)
        } else {
            let h = self.emit1(IrTy::I64, Op::Rt(Rt::StrHash), y);
            if matches!(b, Builtin::Has) {
                self.emit3(IrTy::I1, Op::Rt(Rt::MapHas), x, y, &h)
            } else {
                let _r = self.emit3(IrTy::I64, Op::Rt(Rt::MapDel), x, y, &h);
                Opnd::Int(0)
            }
        }
    }
}

fn pred_of(op: BinOp) -> (r: Option<Pred>)
    ensures
        r == lowering::pred_of(op),
{
    match op {
        BinOp::Eq => Some(Pred::Eq),
        BinOp::Ne => Some(Pred::Ne),
        BinOp::Lt => Some(Pred::Lt),
        BinOp::Le => Some(Pred::Le),
        BinOp::Gt => Some(Pred::Gt),
        BinOp::Ge => Some(Pred::Ge),
        _ => None,
    }
}

fn int_op(op: BinOp) -> (r: Op)
    ensures
        r == lowering::int_op(op),
{
    match op {
        BinOp::Add => Op::Add,
        BinOp::Sub => Op::Sub,
        BinOp::Mul => Op::Mul,
        BinOp::Div => Op::SDiv,
        BinOp::Mod => Op::SRem,
        BinOp::BitAnd => Op::And,
        BinOp::BitOr => Op::Or,
        BinOp::BitXor => Op::Xor,
        BinOp::Shl => Op::Shl,
        _ => Op::AShr,
    }
}

fn float_op(op: BinOp) -> (r: Op)
    ensures
        r == lowering::float_op(op),
{
    match op {
        BinOp::Add => Op::FAdd,
        BinOp::Sub => Op::FSub,
        BinOp::Mul => Op::FMul,
        _ => Op::FDiv,
    }
}

fn zero_of(t: Type) -> (r: Opnd)
    ensures
        r@ == lowering::zero_of(t@),
{
    match t {
        Type::Int => Opnd::Int(0),
        Type::Bool => Opnd::Bool(false),
        Type::Float => Opnd::Float("0.0".to_string()),
        _ => Opnd::Null,
    }
}

fn elem_of(t: Type) -> (r: Type)
    ensures
        r@ == lowering::elem_of(t@),
{
    match t {
        Type::Array(e) => e.to_type(),
        Type::MapOf(v) => v.to_type(),
        _ => t,
    }
}

fn sort_fn(t: Type) -> (r: Rt)
    ensures
        r == lowering::sort_fn(t@),
{
    match t {
        Type::Int => Rt::SortInt,
        Type::Float => Rt::SortFloat,
        _ => Rt::SortStr,
    }
}

/// The function, the type of its value and its further operand, for built-in functions
/// that only hand their values on.
fn plain_rt(b: Builtin) -> (r: Option<(Rt, IrTy, Option<bool>)>)
    ensures
        match r {
            Some((f, ty, more)) => lowering::plain_rt(b) == Some(
                (
                    f,
                    ty,
                    match more {
                        Some(flag) => seq![OpndV::Bool(flag)],
                        None => Seq::empty(),
                    },
                ),
            ),
            None => lowering::plain_rt(b) is None,
        },
{
    if matches!(b, Builtin::IsInt) {
        Some((Rt::IsInt, IrTy::I1, None))
    } else if matches!(b, Builtin::IsFloat) {
        Some((Rt::IsFloat, IrTy::I1, None))
    } else if matches!(b, Builtin::Sqrt) {
        Some((Rt::Sqrt, IrTy::F64, None))
    } else if matches!(b, Builtin::Floor) {
        Some((Rt::Floor, IrTy::F64, None))
    } else if matches!(b, Builtin::Ceil) {
        Some((Rt::Ceil, IrTy::F64, None))
    } else if matches!(b, Builtin::Pow) {
        Some((Rt::Pow, IrTy::F64, None))
    } else if matches!(b, Builtin::Split) {
        Some((Rt::Split, IrTy::Ptr, None))
    } else if matches!(b, Builtin::ToUpper) {
        Some((Rt::ToCase, IrTy::Ptr, Some(true)))
    } else if matches!(b, Builtin::ToLower) {
        Some((Rt::ToCase, IrTy::Ptr, Some(false)))
    } else if matches!(b, Builtin::Trim) {
        Some((Rt::Trim, IrTy::Ptr, None))
    } else if matches!(b, Builtin::Find) {
        Some((Rt::Find, IrTy::I64, None))
    } else if matches!(b, Builtin::StartsWith) {
        Some((Rt::HasAffix, IrTy::I1, Some(false)))
    } else if matches!(b, Builtin::EndsWith) {
        Some((Rt::HasAffix, IrTy::I1, Some(true)))
    } else if matches!(b, Builtin::Repeat) {
        Some((Rt::Repeat, IrTy::Ptr, None))
    } else if matches!(b, Builtin::ReadFile) {
        Some((Rt::ReadFile, IrTy::Ptr, None))
    } else if matches!(b, Builtin::WriteFile) {
        Some((Rt::WriteFile, IrTy::I1, None))
    } else {
        None
    }
}

fn checks_first(b: Builtin) -> (r: bool)
    ensures
        r == lowering::checks_first(b),
{
    matches!(b, Builtin::Has) || matches!(b, Builtin::Delete) || matches!(b, Builtin::Join) || matches!(b, Builtin::Push)
}

// What an accepted expression is made of is accepted.

pub proof fn lemma_args_typed(
    p: ProgramV,
    env: Seq<(Seq<char>, Ty)>,
    ts: Seq<Ty>,
    es: Seq<ExprV>,
    i: int,
)
    requires
        0 <= i,
        typing::args_fit(p, env, ts, es, i) is Ok,
    ensures
        forall|k: int| i <= k < es.len() ==> type_of(p, env, #[trigger] es[k]) is Ok,
    decreases es.len() - i,
{
    if i < es.len() {
        lemma_args_typed(p, env, ts, es, i + 1);
    }
}

pub proof fn lemma_all_typed(p: ProgramV, env: Seq<(Seq<char>, Ty)>, t: Ty, es: Seq<ExprV>, i: int)
    requires
        0 <= i,
        typing::all_fit(p, env, t, es, i) is Ok,
    ensures
        forall|k: int| i <= k < es.len() ==> type_of(p, env, #[trigger] es[k]) is Ok,
    decreases es.len() - i,
{
    if i < es.len() {
        lemma_all_typed(p, env, t, es, i + 1);
    }
}

pub proof fn lemma_pairs_typed(
    p: ProgramV,
    env: Seq<(Seq<char>, Ty)>,
    t: Ty,
    es: Seq<(ExprV, ExprV)>,
    i: int,
)
    requires
        0 <= i,
        typing::pairs_fit(p, env, t, es, i) is Ok,
    ensures
        forall|k: int|
            i <= k < es.len() ==> type_of(p, env, (#[trigger] es[k]).0) is Ok && type_of(
                p,
                env,
                es[k].1,
            ) is Ok,
    decreases es.len() - i,
{
    if i < es.len() {
        lemma_pairs_typed(p, env, t, es, i + 1);
    }
}

pub proof fn lemma_inits_typed(
    p: ProgramV,
    env: Seq<(Seq<char>, Ty)>,
    def: StructDefV,
    inits: Seq<FieldInitV>,
    i: int,
)
    requires
        0 <= i,
        typing::inits_fit(p, env, def, inits, i) is Ok,
    ensures
        forall|k: int|
            i <= k < inits.len() ==> type_of(p, env, (#[trigger] inits[k]).value) is Ok,
    decreases inits.len() - i,
{
    if i < inits.len() {
        lemma_inits_typed(p, env, def, inits, i + 1);
    }
}

/// Every argument of an accepted call is accepted, and there are as many as there should be.
pub proof fn lemma_call_typed(
    p: ProgramV,
    env: Seq<(Seq<char>, Ty)>,
    name: Seq<char>,
    args: Seq<ExprV>,
    span: Span,
)
    requires
        typing::call_type(p, env, name, args, span) is Ok,
    ensures
        forall|k: int| 0 <= k < args.len() ==> type_of(p, env, #[trigger] args[k]) is Ok,
        builtin_named(name) matches Some(b) ==> match fixed_sig(b) {
            Some((params, _)) => args.len() == params.len(),
            None => args.len() == generic_arity(b),
        },
{
    match builtin_named(name) {
        Some(b) => match fixed_sig(b) {
            Some((params, _)) => lemma_args_typed(p, env, params, args, 0),
            None => {},
        },
        None => match variant_named(p, name) {
            Some((_, payload)) => lemma_args_typed(
                p,
                env,
                typing::resolve_all(p, payload),
                args,
                0,
            ),
            None => {
                let f = typing::func_named(p, name)->0;
                lemma_args_typed(p, env, typing::param_types(p, f.params), args, 0);
            },
        },
    }
}

/// An empty array or map literal, which has no type of its own.
pub open spec fn is_empty(e: ExprV) -> bool {
    match e.kind {
        ExprKindV::Array(elems) => elems.len() == 0,
        ExprKindV::MapLit(pairs) => pairs.len() == 0,
        _ => false,
    }
}

/// The innermost variable of this name.
fn find_var(vars: &Vec<Var>, name: &str) -> (r: Option<usize>)
    ensures
        match r {
            Some(k) => k < vars@.len() && vars@[k as int].slot == slot_of(vars_view(vars@), name@)
                && typing::lookup(tenv(vars_view(vars@)), name@) == Some(vars@[k as int].ty@),
            None => typing::lookup(tenv(vars_view(vars@)), name@) is None,
        },
{
    let ghost all = vars_view(vars@);
    let mut i: usize = vars.len();
    assert(all.take(i as int) =~= all);
    while i > 0
        invariant
            0 <= i <= vars@.len(),
            all == vars_view(vars@),
            slot_of(all, name@) == slot_of(all.take(i as int), name@),
            typing::lookup(tenv(all), name@) == typing::lookup(tenv(all.take(i as int)), name@),
        decreases i,
    {
        proof {
            let cut = all.take(i as int);
            assert(cut.drop_last() =~= all.take(i - 1));
            assert(cut.last() == var_view(vars@[i - 1]));
            assert(tenv(cut).drop_last() =~= tenv(all.take(i - 1)));
            assert(tenv(cut).last() == (cut.last().name, cut.last().ty));
        }
        if text_eq(vars[i - 1].name.as_str(), name) {
            return Some(i - 1);
        }
        i -= 1;
    }
    None
}

/// The most values that the payload of one of the variants has.
fn max_arity_of(vs: &Vec<EnumVariant>) -> (r: usize)
    ensures
        r == max_arity(variants_view(vs@)),
{
    let ghost all = variants_view(vs@);
    let mut r: usize = 0;
    let mut i: usize = 0;
    assert(all.take(0) =~= Seq::empty());
    while i < vs.len()
        invariant
            0 <= i <= vs@.len(),
            all == variants_view(vs@),
            r == max_arity(all.take(i as int)),
        decreases vs@.len() - i,
    {
        proof {
            assert(all.take(i + 1).drop_last() =~= all.take(i as int));
            assert(all.take(i + 1).last() == variant_view(vs@[i as int]));
        }
        let n: usize = vs[i].fields.len();
        if n > r {
            r = n;
        }
        i += 1;
    }
    assert(all.take(i as int) =~= all);
    r
}

/// Lowers the functions of one program.
struct Lowerer<'a> {
    prog: &'a Program,
}

impl<'a> Lowerer<'a> {
    /// A value of a sum type.
    fn build_variant(&self, b: &mut Builder, name: &str, vs: &Vec<Opnd>) -> (r: Opnd)
        requires
            variant_named(self.prog@, name@) is Some,
        ensures
            (final(b).gen(), r@) == lowering::build_variant(
                self.prog@,
                old(b).gen(),
                name@,
                opnds_view(vs@),
            ),
    {
        let home: usize = find_home(self.prog, name);
        let def = &self.prog.enums[home];
        assert(self.prog@.enums[home as int] == enum_view(*def));
        let k: usize = find_variant(&def.variants, name);
        let size: usize = max_arity_of(&def.variants);
        let obj = b.emit0(IrTy::Ptr, Op::NewTagged(size));
        b.store(&obj, &Opnd::Size(k));
        let ghost all = opnds_view(vs@);
        let ghost start = b.gen();
        let mut i: usize = 0;
        while i < vs.len()
            invariant
                0 <= i <= vs@.len(),
                all == opnds_view(vs@),
                lowering::store_payload(start, obj@, all, 0) == lowering::store_payload(
                    b.gen(),
                    obj@,
                    all,
                    i as int,
                ),
            decreases vs@.len() - i,
        {
            b.store_slot(&obj, i + 1, &vs[i]);
            i += 1;
        }
        obj
    }

    /// Lowers an expression, and answers with its value and its type.
    fn expr(&self, b: &mut Builder, vars: &Vec<Var>, e: &Expr) -> (r: (Opnd, Type))
        requires
            type_of(self.prog@, tenv(vars_view(vars@)), e@) is Ok || is_empty(e@),
        ensures
            (final(b).gen(), r.0@) == lowering::lower(
                self.prog@,
                vars_view(vars@),
                old(b).gen(),
                e@,
            ),
            type_of(self.prog@, tenv(vars_view(vars@)), e@) is Ok ==> r.1@ == ty_of(
                self.prog@,
                vars_view(vars@),
                e@,
            ),
        decreases e, 1int,
    {
        match &e.kind {
            ExprKind::Int(n) => (Opnd::Int(*n), Type::Int),
            ExprKind::Float(s) => (Opnd::Float(s.clone()), Type::Float),
            ExprKind::Bool(x) => (Opnd::Bool(*x), Type::Bool),
            ExprKind::Str(s) => (Opnd::Str(s.clone()), Type::Str),
            ExprKind::Null => (Opnd::Null, Type::Null),
            ExprKind::Var(name) => self.var(b, vars, e, name),
            ExprKind::Unary { op, expr } => {
                let (v, t) = self.expr(b, vars, expr);
                let r = b.prefix(*op, &v, t);
                let rt = match op {
                    UnOp::Neg => t,
                    UnOp::Not => Type::Bool,
                    UnOp::BitNot => Type::Int,
                };
                (r, rt)
            },
            ExprKind::Binary { op, lhs, rhs } => self.binary(b, vars, e, *op, lhs, rhs),
            ExprKind::Call { name, args } => self.call(b, vars, name, args, e.span),
            ExprKind::Array(elems) => self.array(b, vars, e, elems),
            ExprKind::Index { array, index } => self.index(b, vars, e, array, index),
            ExprKind::Slice { seq, lo, hi } => self.slice(b, vars, e, seq, lo, hi),
            ExprKind::StructLit { name, fields } => self.struct_lit(b, vars, e, name, fields),
            ExprKind::MapLit(pairs) => self.map_lit(b, vars, e, pairs),
            ExprKind::Field { obj, field } => self.field(b, vars, e, obj, field),
        }
    }

    fn var(&self, b: &mut Builder, vars: &Vec<Var>, e: &Expr, name: &String) -> (r: (Opnd, Type))
        requires
            e@.kind == ExprKindV::Var(name@),
            type_of(self.prog@, tenv(vars_view(vars@)), e@) is Ok,
        ensures
            (final(b).gen(), r.0@) == lowering::lower(
                self.prog@,
                vars_view(vars@),
                old(b).gen(),
                e@,
            ),
            r.1@ == ty_of(self.prog@, vars_view(vars@), e@),
    {
        let home: usize = find_home(self.prog, name.as_str());
        if home < self.prog.enums.len() {
            let def = &self.prog.enums[home];
            assert(self.prog@.enums[home as int] == enum_view(*def));
            let none: Vec<Opnd> = Vec::new();
            assert(opnds_view(none@) =~= Seq::empty());
            let v = self.build_variant(b, name.as_str(), &none);
            return (v, Type::Enum(intern(def.name.as_str())));
        }
        let k: usize = find_var(vars, name.as_str()).unwrap();
        let t = vars[k].ty;
        let v = b.emit0(basic_type(t), Op::GetVar(vars[k].slot));
        (v, t)
    }

    fn array(&self, b: &mut Builder, vars: &Vec<Var>, e: &Expr, elems: &Vec<Expr>) -> (r: (
        Opnd,
        Type,
    ))
        requires
            e@.kind == ExprKindV::Array(exprs_view(elems@)),
            decreases_to!(e => elems),
            type_of(self.prog@, tenv(vars_view(vars@)), e@) is Ok || is_empty(e@),
        ensures
            (final(b).gen(), r.0@) == lowering::lower(
                self.prog@,
                vars_view(vars@),
                old(b).gen(),
                e@,
            ),
            type_of(self.prog@, tenv(vars_view(vars@)), e@) is Ok ==> r.1@ == ty_of(
                self.prog@,
                vars_view(vars@),
                e@,
            ),
        decreases e, 0int,
    {
        let n: usize = elems.len();
        proof {
            if n > 0 {
                let env = tenv(vars_view(vars@));
                let t = type_of(self.prog@, env, exprs_view(elems@)[0])->Ok_0;
                lemma_all_typed(self.prog@, env, t, exprs_view(elems@), 1);
            }
        }
        let hdr = b.emit0(IrTy::Ptr, Op::New(3));
        let data = if n == 0 {
            Opnd::Null
        } else {
            b.emit0(IrTy::Ptr, Op::New(n))
        };
        b.store(&hdr, &Opnd::Size(n));
        b.store_slot(&hdr, 1, &Opnd::Size(n));
        b.store_slot(&hdr, 2, &data);
        let first = self.elems(b, vars, &data, elems);
        let t = match first.as_elem() {
            Some(x) => Type::Array(x),
            None => Type::Null,
        };
        (hdr, t)
    }

    fn slice(
        &self,
        b: &mut Builder,
        vars: &Vec<Var>,
        e: &Expr,
        seq: &Expr,
        lo: &Option<Box<Expr>>,
        hi: &Option<Box<Expr>>,
    ) -> (r: (Opnd, Type))
        requires
            e@.kind == (ExprKindV::Slice {
                seq: Box::new(seq@),
                lo: opt_expr_view(*lo),
                hi: opt_expr_view(*hi),
            }),
            decreases_to!(e => seq),
            decreases_to!(e => lo),
            decreases_to!(e => hi),
            type_of(self.prog@, tenv(vars_view(vars@)), e@) is Ok,
        ensures
            (final(b).gen(), r.0@) == lowering::lower(
                self.prog@,
                vars_view(vars@),
                old(b).gen(),
                e@,
            ),
            r.1@ == ty_of(self.prog@, vars_view(vars@), e@),
        decreases e, 0int,
    {
        let (s, t) = self.expr(b, vars, seq);
        b.null_check(&s);
        let len = b.length(&s, t);
        let l = self.bound(b, vars, lo, &Opnd::Int(0));
        let h = self.bound(b, vars, hi, &len);
        let r = b.slice(&s, &l, &h, &len, t);
        (r, t)
    }

    fn struct_lit(
        &self,
        b: &mut Builder,
        vars: &Vec<Var>,
        e: &Expr,
        name: &String,
        fields: &Vec<FieldInit>,
    ) -> (r: (Opnd, Type))
        requires
            e@.kind == (ExprKindV::StructLit { name: name@, fields: inits_view(fields@) }),
            decreases_to!(e => fields),
            type_of(self.prog@, tenv(vars_view(vars@)), e@) is Ok,
        ensures
            (final(b).gen(), r.0@) == lowering::lower(
                self.prog@,
                vars_view(vars@),
                old(b).gen(),
                e@,
            ),
            r.1@ == ty_of(self.prog@, vars_view(vars@), e@),
        decreases e, 0int,
    {
        let k: usize = find_struct(self.prog, name.as_str());
        let def = &self.prog.structs[k];
        assert(self.prog@.structs[k as int] == struct_view(*def));
        proof {
            lemma_inits_typed(
                self.prog@,
                tenv(vars_view(vars@)),
                struct_view(*def),
                inits_view(fields@),
                0,
            );
        }
        let n: usize = def.fields.len();
        let obj = b.emit0(IrTy::Ptr, Op::New(n));
        self.fields(b, vars, &obj, &def.fields, fields);
        (obj, Type::Struct(intern(name.as_str())))
    }

    fn map_lit(&self, b: &mut Builder, vars: &Vec<Var>, e: &Expr, pairs: &Vec<(Expr, Expr)>) -> (r:
        (Opnd, Type))
        requires
            e@.kind == ExprKindV::MapLit(pairs_view(pairs@)),
            decreases_to!(e => pairs),
            type_of(self.prog@, tenv(vars_view(vars@)), e@) is Ok || is_empty(e@),
        ensures
            (final(b).gen(), r.0@) == lowering::lower(
                self.prog@,
                vars_view(vars@),
                old(b).gen(),
                e@,
            ),
            type_of(self.prog@, tenv(vars_view(vars@)), e@) is Ok ==> r.1@ == ty_of(
                self.prog@,
                vars_view(vars@),
                e@,
            ),
        decreases e, 0int,
    {
        proof {
            if pairs@.len() > 0 {
                let env = tenv(vars_view(vars@));
                let t = type_of(self.prog@, env, pairs_view(pairs@)[0].1)->Ok_0;
                lemma_pairs_typed(self.prog@, env, t, pairs_view(pairs@), 1);
            }
        }
        let hdr = b.emit0(IrTy::Ptr, Op::Rt(Rt::MapNew));
        let first = self.pairs(b, vars, &hdr, pairs);
        let t = match first.as_elem() {
            Some(x) => Type::MapOf(x),
            None => Type::Null,
        };
        (hdr, t)
    }

    fn field(&self, b: &mut Builder, vars: &Vec<Var>, e: &Expr, obj: &Expr, field: &String) -> (r: (
        Opnd,
        Type,
    ))
        requires
            e@.kind == (ExprKindV::Field { obj: Box::new(obj@), field: field@ }),
            decreases_to!(e => obj),
            type_of(self.prog@, tenv(vars_view(vars@)), e@) is Ok,
        ensures
            (final(b).gen(), r.0@) == lowering::lower(
                self.prog@,
                vars_view(vars@),
                old(b).gen(),
                e@,
            ),
            r.1@ == ty_of(self.prog@, vars_view(vars@), e@),
        decreases e, 0int,
    {
        let (o, t) = self.expr(b, vars, obj);
        b.null_check(&o);
        proof {
            assert(typing::field_type(self.prog@, t@, field@, e@.span, obj@.span) is Ok);
        }
        let (slot, ft) = self.field_slot(t, field);
        proof {
            assert(typing::field_type(self.prog@, t@, field@, e@.span, obj@.span) == Ok::<
                Ty,
                DiagV,
            >(ft@));
        }
        let v = b.load_slot(basic_type(ft), &o, slot);
        (v, ft)
    }

    /// The slot and the type of a field of a structure of type `t`.
    fn field_slot(&self, t: Type, field: &String) -> (r: (usize, Type))
        requires
            exists|s1: Span, s2: Span|
                (#[trigger] typing::field_type(self.prog@, t@, field@, s1, s2)) is Ok,
        ensures
            r.0 == lowering::field_slot(self.prog@, t@, field@),
            forall|s1: Span, s2: Span|
                (#[trigger] typing::field_type(self.prog@, t@, field@, s1, s2)) == Ok::<Ty, DiagV>(
                    r.1@,
                ),
    {
        match t {
            Type::Struct(name) => {
                let k: usize = find_struct(self.prog, name);
                let def = &self.prog.structs[k];
                assert(self.prog@.structs[k as int] == struct_view(*def));
                let i: usize = find_param(&def.fields, field.as_str());
                assert(self.prog@.structs[k as int].fields[i as int] == param_view(
                    def.fields@[i as int],
                ));
                (i, resolve_type(self.prog, def.fields[i].ty))
            },
            _ => (0, t),
        }
    }

    fn binary(
        &self,
        b: &mut Builder,
        vars: &Vec<Var>,
        e: &Expr,
        op: BinOp,
        lhs: &Expr,
        rhs: &Expr,
    ) -> (r: (Opnd, Type))
        requires
            e@.kind == (ExprKindV::Binary { op, lhs: Box::new(lhs@), rhs: Box::new(rhs@) }),
            decreases_to!(e => lhs),
            decreases_to!(e => rhs),
            type_of(self.prog@, tenv(vars_view(vars@)), e@) is Ok,
        ensures
            (final(b).gen(), r.0@) == lowering::lower(
                self.prog@,
                vars_view(vars@),
                old(b).gen(),
                e@,
            ),
            r.1@ == ty_of(self.prog@, vars_view(vars@), e@),
        decreases e, 0int,
    {
        let (l, lt) = self.expr(b, vars, lhs);
        if matches!(op, BinOp::And | BinOp::Or) {
            let slot: usize = b.new_slot(IrTy::I1);
            let saved = b.enter();
            let (r, _) = self.expr(b, vars, rhs);
            b.set_var(slot, &r);
            let long = b.leave(saved);
            let saved = b.enter();
            b.set_var(slot, &Opnd::Bool(matches!(op, BinOp::Or)));
            let short = b.leave(saved);
            if matches!(op, BinOp::And) {
                b.push(Code::If { cond: l, then: long, els: short });
            } else {
                b.push(Code::If { cond: l, then: short, els: long });
            }
            return (b.emit0(IrTy::I1, Op::GetVar(slot)), Type::Bool);
        }
        let (r, rt) = self.expr(b, vars, rhs);
        if matches!(op, BinOp::Eq | BinOp::Ne) && (matches!(lt, Type::Null) || matches!(
            rt,
            Type::Null
        )) {
            return (b.ref_compare(op, &l, &r), Type::Bool);
        }
        let v = b.arith(op, &l, &r, lt);
        let t = match op {
            BinOp::Eq | BinOp::Ne | BinOp::Lt | BinOp::Le | BinOp::Gt | BinOp::Ge => Type::Bool,
            _ => lt,
        };
        (v, t)
    }

    fn index(&self, b: &mut Builder, vars: &Vec<Var>, e: &Expr, array: &Expr, index: &Expr) -> (r: (
        Opnd,
        Type,
    ))
        requires
            e@.kind == (ExprKindV::Index { array: Box::new(array@), index: Box::new(index@) }),
            decreases_to!(e => array),
            decreases_to!(e => index),
            type_of(self.prog@, tenv(vars_view(vars@)), e@) is Ok,
        ensures
            (final(b).gen(), r.0@) == lowering::lower(
                self.prog@,
                vars_view(vars@),
                old(b).gen(),
                e@,
            ),
            r.1@ == ty_of(self.prog@, vars_view(vars@), e@),
        decreases e, 0int,
    {
        let (a, at) = self.expr(b, vars, array);
        b.null_check(&a);
        let (i, _) = self.expr(b, vars, index);
        match at {
            Type::MapOf(t) => {
                let h = b.emit1(IrTy::I64, Op::Rt(Rt::StrHash), &i);
                let raw = b.emit3(IrTy::I64, Op::Rt(Rt::MapGet), &a, &i, &h);
                let vt = t.to_type();
                (b.from_slot(&raw, vt), vt)
            },
            Type::Str => {
                let len = b.emit1(IrTy::I64, Op::Rt(Rt::StrLen), &a);
                b.bounds_check(&i, &len);
                let p = b.emit2(IrTy::Ptr, Op::Offset, &a, &i);
                (b.emit1(IrTy::I64, Op::LoadByte, &p), Type::Int)
            },
            _ => {
                let p = b.elem_addr(&a, &i);
                let et = elem_of(at);
                let ty = basic_type(et);
                (b.emit1(ty, Op::Load(ty), &p), et)
            },
        }
    }

    fn bound(&self, b: &mut Builder, vars: &Vec<Var>, e: &Option<Box<Expr>>, other: &Opnd) -> (r:
        Opnd)
        requires
            typing::bound_ok(self.prog@, tenv(vars_view(vars@)), opt_expr_view(*e)) is Ok,
        ensures
            (final(b).gen(), r@) == lowering::lower_bound(
                self.prog@,
                vars_view(vars@),
                old(b).gen(),
                opt_expr_view(*e),
                other@,
            ),
        decreases e, 0int,
    {
        match e {
            Some(x) => self.expr(b, vars, x).0,
            None => dup(other),
        }
    }

    /// Lowers the elements of an array literal, and answers with the type of the first.
    fn elems(&self, b: &mut Builder, vars: &Vec<Var>, data: &Opnd, es: &Vec<Expr>) -> (t: Type)
        requires
            forall|k: int|
                0 <= k < es@.len() ==> type_of(
                    self.prog@,
                    tenv(vars_view(vars@)),
                    #[trigger] exprs_view(es@)[k],
                ) is Ok,
        ensures
            final(b).gen() == lowering::lower_elems(
                self.prog@,
                vars_view(vars@),
                old(b).gen(),
                data@,
                exprs_view(es@),
                0,
            ),
            es@.len() > 0 ==> t@ == ty_of(self.prog@, vars_view(vars@), exprs_view(es@)[0]),
        decreases es, 0int,
    {
        let ghost all = exprs_view(es@);
        let ghost vv = vars_view(vars@);
        let ghost start = b.gen();
        let mut t = Type::Null;
        let mut i: usize = 0;
        while i < es.len()
            invariant
                0 <= i <= es@.len(),
                all == exprs_view(es@),
                vv == vars_view(vars@),
                start == old(b).gen(),
                forall|k: int|
                    0 <= k < es@.len() ==> type_of(self.prog@, tenv(vv), #[trigger] all[k]) is Ok,
                lowering::lower_elems(self.prog@, vv, start, data@, all, 0)
                    == lowering::lower_elems(self.prog@, vv, b.gen(), data@, all, i as int),
                i > 0 ==> t@ == ty_of(self.prog@, vv, all[0]),
            decreases es@.len() - i,
        {
            assert(all[i as int] == es@[i as int]@);
            let (v, vt) = self.expr(b, vars, &es[i]);
            b.store_slot(data, i, &v);
            if i == 0 {
                t = vt;
            }
            i += 1;
        }
        t
    }

    /// Lowers expressions one after the other, and answers with their values and the type
    /// of the first.
    fn list(&self, b: &mut Builder, vars: &Vec<Var>, es: &Vec<Expr>) -> (r: (Vec<Opnd>, Type))
        requires
            forall|k: int|
                0 <= k < es@.len() ==> type_of(
                    self.prog@,
                    tenv(vars_view(vars@)),
                    #[trigger] exprs_view(es@)[k],
                ) is Ok,
        ensures
            (final(b).gen(), opnds_view(r.0@)) == lowering::lower_list(
                self.prog@,
                vars_view(vars@),
                old(b).gen(),
                exprs_view(es@),
                0,
                Seq::empty(),
            ),
            r.0@.len() == es@.len(),
            es@.len() > 0 ==> r.1@ == ty_of(self.prog@, vars_view(vars@), exprs_view(es@)[0]),
            es@.len() == 0 ==> r.1@ is Null,
        decreases es, 0int,
    {
        let ghost all = exprs_view(es@);
        let ghost vv = vars_view(vars@);
        let ghost start = b.gen();
        let mut acc: Vec<Opnd> = Vec::new();
        let mut t = Type::Null;
        let mut i: usize = 0;
        assert(opnds_view(acc@) =~= Seq::empty());
        while i < es.len()
            invariant
                0 <= i <= es@.len(),
                all == exprs_view(es@),
                vv == vars_view(vars@),
                start == old(b).gen(),
                acc@.len() == i,
                forall|k: int|
                    0 <= k < es@.len() ==> type_of(self.prog@, tenv(vv), #[trigger] all[k]) is Ok,
                lowering::lower_list(self.prog@, vv, start, all, 0, Seq::empty())
                    == lowering::lower_list(
                    self.prog@,
                    vv,
                    b.gen(),
                    all,
                    i as int,
                    opnds_view(acc@),
                ),
                i > 0 ==> t@ == ty_of(self.prog@, vv, all[0]),
                i == 0 ==> t@ is Null,
            decreases es@.len() - i,
        {
            assert(all[i as int] == es@[i as int]@);
            let (v, vt) = self.expr(b, vars, &es[i]);
            let ghost before = opnds_view(acc@);
            let ghost added = v@;
            acc.push(v);
            assert(opnds_view(acc@) =~= before.push(added));
            if i == 0 {
                t = vt;
            }
            i += 1;
        }
        (acc, t)
    }

    fn fields(
        &self,
        b: &mut Builder,
        vars: &Vec<Var>,
        obj: &Opnd,
        fields: &Vec<Param>,
        inits: &Vec<FieldInit>,
    )
        requires
            forall|k: int|
                0 <= k < inits@.len() ==> type_of(
                    self.prog@,
                    tenv(vars_view(vars@)),
                    (#[trigger] inits_view(inits@)[k]).value,
                ) is Ok,
        ensures
            final(b).gen() == lowering::lower_fields(
                self.prog@,
                vars_view(vars@),
                old(b).gen(),
                obj@,
                params_view(fields@),
                inits_view(inits@),
                0,
            ),
        decreases inits, 0int,
    {
        let ghost ps = params_view(fields@);
        let ghost all = inits_view(inits@);
        let ghost vv = vars_view(vars@);
        let ghost start = b.gen();
        let mut i: usize = 0;
        while i < fields.len()
            invariant
                0 <= i <= fields@.len(),
                ps == params_view(fields@),
                all == inits_view(inits@),
                vv == vars_view(vars@),
                start == old(b).gen(),
                forall|k: int|
                    0 <= k < inits@.len() ==> type_of(
                        self.prog@,
                        tenv(vv),
                        (#[trigger] all[k]).value,
                    ) is Ok,
                lowering::lower_fields(self.prog@, vv, start, obj@, ps, all, 0)
                    == lowering::lower_fields(self.prog@, vv, b.gen(), obj@, ps, all, i as int),
            decreases fields@.len() - i,
        {
            assert(ps[i as int] == param_view(fields@[i as int]));
            let k: usize = find_init(inits, fields[i].name.as_str());
            if k >= inits.len() {
                return ;
            }
            assert(all[k as int] == init_view(inits@[k as int]));
            let (v, _) = self.expr(b, vars, &inits[k].value);
            b.store_slot(obj, i, &v);
            i += 1;
        }
    }

    /// Lowers the entries of a map literal, and answers with the type of the first value.
    fn pairs(&self, b: &mut Builder, vars: &Vec<Var>, hdr: &Opnd, es: &Vec<(Expr, Expr)>) -> (t:
        Type)
        requires
            forall|k: int|
                0 <= k < es@.len() ==> type_of(
                    self.prog@,
                    tenv(vars_view(vars@)),
                    (#[trigger] pairs_view(es@)[k]).0,
                ) is Ok && type_of(
                    self.prog@,
                    tenv(vars_view(vars@)),
                    pairs_view(es@)[k].1,
                ) is Ok,
        ensures
            final(b).gen() == lowering::lower_pairs(
                self.prog@,
                vars_view(vars@),
                old(b).gen(),
                hdr@,
                pairs_view(es@),
                0,
            ),
            es@.len() > 0 ==> t@ == ty_of(self.prog@, vars_view(vars@), pairs_view(es@)[0].1),
        decreases es, 0int,
    {
        let ghost all = pairs_view(es@);
        let ghost vv = vars_view(vars@);
        let ghost start = b.gen();
        let mut t = Type::Null;
        let mut i: usize = 0;
        while i < es.len()
            invariant
                0 <= i <= es@.len(),
                all == pairs_view(es@),
                vv == vars_view(vars@),
                start == old(b).gen(),
                forall|k: int|
                    0 <= k < es@.len() ==> type_of(self.prog@, tenv(vv), (#[trigger] all[k]).0) is Ok
                        && type_of(self.prog@, tenv(vv), all[k].1) is Ok,
                lowering::lower_pairs(self.prog@, vv, start, hdr@, all, 0)
                    == lowering::lower_pairs(self.prog@, vv, b.gen(), hdr@, all, i as int),
                i > 0 ==> t@ == ty_of(self.prog@, vv, all[0].1),
            decreases es@.len() - i,
        {
            assert(all[i as int] == pair_view(es@[i as int]));
            let (key, _) = self.expr(b, vars, &es[i].0);
            let (v, vt) = self.expr(b, vars, &es[i].1);
            b.put_entry(hdr, &key, &v, vt);
            if i == 0 {
                t = vt;
            }
            i += 1;
        }
        t
    }

    fn builtin_call(
        &self,
        b: &mut Builder,
        vars: &Vec<Var>,
        f: Builtin,
        name: &String,
        args: &Vec<Expr>,
        span: Span,
    ) -> (r: (Opnd, Type))
        requires
            builtin_named(name@) == Some(f),
            typing::call_type(
                self.prog@,
                tenv(vars_view(vars@)),
                name@,
                exprs_view(args@),
                span,
            ) is Ok,
        ensures
            (final(b).gen(), r.0@) == lowering::lower_call(
                self.prog@,
                vars_view(vars@),
                old(b).gen(),
                name@,
                exprs_view(args@),
            ),
            typing::call_type(
                self.prog@,
                tenv(vars_view(vars@)),
                name@,
                exprs_view(args@),
                span,
            ) == Ok::<Ty, DiagV>(r.1@),
        decreases args, 1int,
    {
        let ghost vv = vars_view(vars@);
        let ghost all = exprs_view(args@);
        proof {
            lemma_call_typed(self.prog@, tenv(vv), name@, all, span);
        }
        if checks_first(f) {
            assert(all.len() == 2);
            assert(all[0] == args@[0]@);
            assert(all[1] == args@[1]@);
            let (x, t) = self.expr(b, vars, &args[0]);
            b.null_check(&x);
            let (y, _) = self.expr(b, vars, &args[1]);
            let v = b.builtin_checked(f, &x, &y);
            proof {
                assert(fixed_sig(f) is None ==> typing::generic_rule(
                    f,
                    name@,
                    t@,
                    all[0].span,
                ) is Ok);
            }
            return (v, result_type(f, t));
        }
        let (vs, t) = self.list(b, vars, args);
        let v = b.builtin(f, vs, t);
        proof {
            assert(fixed_sig(f) is None ==> typing::generic_rule(f, name@, t@, all[0].span) is Ok);
        }
        (v, result_type(f, t))
    }

    fn call(
        &self,
        b: &mut Builder,
        vars: &Vec<Var>,
        name: &String,
        args: &Vec<Expr>,
        span: Span,
    ) -> (r: (Opnd, Type))
        requires
            typing::call_type(
                self.prog@,
                tenv(vars_view(vars@)),
                name@,
                exprs_view(args@),
                span,
            ) is Ok,
        ensures
            (final(b).gen(), r.0@) == lowering::lower_call(
                self.prog@,
                vars_view(vars@),
                old(b).gen(),
                name@,
                exprs_view(args@),
            ),
            typing::call_type(
                self.prog@,
                tenv(vars_view(vars@)),
                name@,
                exprs_view(args@),
                span,
            ) == Ok::<Ty, DiagV>(r.1@),
        decreases args, 2int,
    {
        proof {
            lemma_call_typed(
                self.prog@,
                tenv(vars_view(vars@)),
                name@,
                exprs_view(args@),
                span,
            );
        }
        if let Some(f) = builtin_of(name.as_str()) {
            return self.builtin_call(b, vars, f, name, args, span);
        }
        let (vs, _) = self.list(b, vars, args);
        let home: usize = find_home(self.prog, name.as_str());
        if home < self.prog.enums.len() {
            let def = &self.prog.enums[home];
            assert(self.prog@.enums[home as int] == enum_view(*def));
            let v = self.build_variant(b, name.as_str(), &vs);
            return (v, Type::Enum(intern(def.name.as_str())));
        }
        let k: usize = find_func(self.prog, name.as_str());
        let f = &self.prog.funcs[k];
        assert(self.prog@.funcs[k as int] == function_view(*f));
        let t = resolve_type(self.prog, f.ret);
        let dst: usize = b.regs.len();
        b.regs.push(basic_type(t));
        b.push(Code::Do(Inst::Call { dst, func: k, args: vs }));
        (Opnd::Reg(dst), t)
    }
}

/// The type of the value of a built-in function, of which the first argument is of type
/// `t`.
fn result_type(f: Builtin, t: Type) -> (r: Type)
    requires
        fixed_sig(f) is Some || exists|name: Seq<char>, span: Span|
            (#[trigger] typing::generic_rule(f, name, t@, span)) is Ok,
    ensures
        match fixed_sig(f) {
            Some((_, ret)) => r@ == ret,
            None => forall|name: Seq<char>, span: Span|
                (#[trigger] typing::generic_rule(f, name, t@, span))->Ok_0.result == r@,
        },
{
    match fixed_sig_of(f) {
        Some((_, ret)) => ret,
        None => match f {
            Builtin::Int | Builtin::Len | Builtin::Delete => Type::Int,
            Builtin::Float => Type::Float,
            Builtin::Str => Type::Str,
            Builtin::Has => Type::Bool,
            Builtin::Keys => Type::Array(Elem::Str),
            Builtin::Pop => elem_of(t),
            _ => t,
        },
    }
}

/// The field of this name in a structure literal, or the number of its fields.
fn find_init(inits: &Vec<FieldInit>, name: &str) -> (r: usize)
    ensures
        r == lowering::init_index(inits_view(inits@), name@, 0),
        r <= inits@.len(),
{
    let ghost all = inits_view(inits@);
    let mut i: usize = 0;
    while i < inits.len() && !text_eq(inits[i].name.as_str(), name)
        invariant
            0 <= i <= inits@.len(),
            all == inits_view(inits@),
            lowering::init_index(all, name@, 0) == lowering::init_index(all, name@, i as int),
        decreases inits@.len() - i,
    {
        assert(all[i as int] == init_view(inits@[i as int]));
        i += 1;
    }
    proof {
        if i < inits@.len() {
            assert(all[i as int] == init_view(inits@[i as int]));
        }
    }
    i
}

// Statements.

/// Declares a variable.
fn declare_var(vars: &mut Vec<Var>, name: &String, slot: usize, ty: Type)
    ensures
        vars_view(final(vars)@) == vars_view(old(vars)@).push(VarV { name: name@, slot, ty: ty@ }),
        tenv(vars_view(final(vars)@)) == tenv(vars_view(old(vars)@)).push((name@, ty@)),
        final(vars)@.len() == old(vars)@.len() + 1,
        final(vars)@.take(old(vars)@.len() as int) == old(vars)@,
{
    vars.push(Var { name: name.clone(), slot, ty });
    proof {
        let v = VarV { name: name@, slot, ty: ty@ };
        assert(vars_view(vars@) =~= vars_view(old(vars)@).push(v));
        assert(tenv(vars_view(vars@)) =~= tenv(vars_view(old(vars)@)).push((name@, ty@)));
        assert(vars@.take(old(vars)@.len() as int) =~= old(vars)@);
    }
}

/// Forgets the variables that were declared since there were `mark` of them.
fn pop_scope(vars: &mut Vec<Var>, mark: usize)
    requires
        mark <= old(vars)@.len(),
    ensures
        final(vars)@ == old(vars)@.take(mark as int),
{
    vars.truncate(mark);
    assert(vars@ =~= old(vars)@.take(mark as int));
}

/// A statement that has no statements in it and declares no variable.
spec fn is_plain(k: StmtKindV) -> bool {
    match k {
        StmtKindV::Assign { .. } => true,
        StmtKindV::Print(_) => true,
        StmtKindV::Return(_) => true,
        StmtKindV::ExprStmt(_) => true,
        StmtKindV::Break => true,
        StmtKindV::Continue => true,
        _ => false,
    }
}

/// The type checker accepts a statement.
#[verifier::opaque]
spec fn is_checked(cx: Place, vars: Seq<VarV>, s: StmtV) -> bool {
    check_stmt(cx, tenv(vars), s) is Ok
}

/// The code of a statement.
#[verifier::opaque]
spec fn code_of(p: ProgramV, vars: Seq<VarV>, g: Gen, s: StmtV) -> Gen {
    lowering::lower_stmt(p, vars, g, s).0
}

/// Statements other than `let` leave behind the variables that there were.
proof fn lemma_declares_none(cx: Place, vars: Seq<VarV>, g: Gen, s: StmtV)
    requires
        !(s.kind is Let),
        check_stmt(cx, tenv(vars), s) is Ok,
    ensures
        is_checked(cx, vars, s),
        check_stmt(cx, tenv(vars), s) == Ok::<Seq<(Seq<char>, Ty)>, DiagV>(tenv(vars)),
        lowering::lower_stmt(cx.prog, vars, g, s) == (code_of(cx.prog, vars, g, s), vars),
{
    reveal(is_checked);
    reveal(code_of);
}

/// Whether nothing of a block is reached after the statement.
fn closes(s: &Stmt) -> (r: bool)
    ensures
        r == lowering::closes(s@),
{
    matches!(s.kind, StmtKind::Return(_) | StmtKind::Break | StmtKind::Continue)
}

/// The code of the arms of a `match` as far as they are lowered.
struct ArmsOut {
    tags: Vec<usize>,
    cases: Vec<Vec<Code>>,
    default: Vec<Code>,
}

impl ArmsOut {
    spec fn view(&self, last: Gen) -> Arms {
        Arms {
            tags: self.tags@,
            cases: cases_view(self.cases@),
            default: codes_view(self.default@),
            last,
        }
    }
}

impl<'a> Lowerer<'a> {
    spec fn place(&self, ret: Type, in_loop: bool) -> Place {
        Place { prog: self.prog@, ret: ret@, in_loop }
    }

    fn assign(&self, b: &mut Builder, vars: &Vec<Var>, target: &Expr, value: &Expr, span: Span)
        requires
            typing::assign_ok(
                self.prog@,
                tenv(vars_view(vars@)),
                target@,
                value@,
                span,
            ) is Ok,
        ensures
            final(b).gen() == lowering::lower_assign(
                self.prog@,
                vars_view(vars@),
                old(b).gen(),
                target@,
                value@,
            ),
    {
        let (v, vt) = self.expr(b, vars, value);
        match &target.kind {
            ExprKind::Var(name) => {
                let k: usize = find_var(vars, name.as_str()).unwrap();
                b.set_var(vars[k].slot, &v);
            },
            ExprKind::Index { array, index } => {
                let (a, at) = self.expr(b, vars, array);
                b.null_check(&a);
                let (i, _) = self.expr(b, vars, index);
                if matches!(at, Type::MapOf(_)) {
                    b.put_entry(&a, &i, &v, vt);
                } else {
                    let p = b.elem_addr(&a, &i);
                    b.store(&p, &v);
                }
            },
            ExprKind::Field { obj, field } => {
                let (o, t) = self.expr(b, vars, obj);
                b.null_check(&o);
                proof {
                    assert(typing::field_type(
                        self.prog@,
                        t@,
                        field@,
                        target@.span,
                        obj@.span,
                    ) is Ok);
                }
                let (slot, _) = self.field_slot(t, field);
                b.store_slot(&o, slot, &v);
            },
            _ => {},
        }
    }

    /// Lowers a `let`, and declares its variable.
    fn let_stmt(
        &self,
        b: &mut Builder,
        vars: &mut Vec<Var>,
        s: &Stmt,
        name: &String,
        ty: &Option<Type>,
        value: &Expr,
    )
        requires
            s@.kind == (StmtKindV::Let {
                name: name@,
                ty: opt_ty_view(*ty),
                value: value@,
            }),
            let_type(
                self.prog@,
                tenv(vars_view(old(vars)@)),
                opt_ty_view(*ty),
                value@,
                s.span,
            ) is Ok,
        ensures
            (final(b).gen(), vars_view(final(vars)@)) == lowering::lower_stmt(
                self.prog@,
                vars_view(old(vars)@),
                old(b).gen(),
                s@,
            ),
            tenv(vars_view(final(vars)@)) == tenv(vars_view(old(vars)@)).push(
                (
                    name@,
                    let_type(
                        self.prog@,
                        tenv(vars_view(old(vars)@)),
                        opt_ty_view(*ty),
                        value@,
                        s.span,
                    )->Ok_0,
                ),
            ),
            final(vars)@.len() >= old(vars)@.len(),
            final(vars)@.take(old(vars)@.len() as int) == old(vars)@,
    {
        let (v, vt) = self.expr(b, vars, value);
        let t = match ty {
            Some(a) => resolve_type(self.prog, *a),
            None => vt,
        };
        let slot: usize = b.new_slot(basic_type(t));
        b.set_var(slot, &v);
        declare_var(vars, name, slot, t);
    }

    /// Lowers a statement that has no statements in it and declares no variable.
    fn plain_stmt(
        &self,
        b: &mut Builder,
        vars: &Vec<Var>,
        s: &Stmt,
        ret: Type,
        in_loop: bool,
    )
        requires
            is_plain(s@.kind),
            is_checked(self.place(ret, in_loop), vars_view(vars@), s@),
        ensures
            final(b).gen() == code_of(self.prog@, vars_view(vars@), old(b).gen(), s@),
    {
        proof {
            reveal(is_checked);
            reveal(code_of);
        }
        match &s.kind {
            StmtKind::Assign { target, value } => {
                self.assign(b, vars, target, value, s.span);
            },
            StmtKind::Print(e) => {
                let (v, t) = self.expr(b, vars, e);
                b.print_value(&v, t);
            },
            StmtKind::Return(e) => {
                let (v, _) = self.expr(b, vars, e);
                b.push(Code::Return(v));
            },
            StmtKind::ExprStmt(e) => {
                let _r = self.expr(b, vars, e);
            },
            StmtKind::Break => {
                b.push(Code::Break);
            },
            StmtKind::Continue => {
                b.push(Code::Continue);
            },
            _ => {},
        }
    }

    /// Lowers a statement that declares no variable.
    fn nested(&self, b: &mut Builder, vars: &mut Vec<Var>, s: &Stmt, ret: Type, in_loop: bool)
        requires
            !(s@.kind is Let),
            is_checked(self.place(ret, in_loop), vars_view(old(vars)@), s@),
        ensures
            final(b).gen() == code_of(self.prog@, vars_view(old(vars)@), old(b).gen(), s@),
            final(vars)@ == old(vars)@,
        decreases s, 1int,
    {
        match &s.kind {
            StmtKind::If { cond, then_body, else_body } => {
                self.branch(b, vars, s, cond, then_body, else_body, ret, in_loop);
            },
            StmtKind::While { cond, body } => {
                self.while_loop(b, vars, s, cond, body, ret, in_loop);
            },
            StmtKind::For { init, cond, step, body } => {
                self.for_loop(b, vars, s, init, cond, step, body, ret, in_loop);
            },
            StmtKind::ForIn { var, iter, body } => {
                self.for_in(b, vars, s, var, iter, body, ret, in_loop);
            },
            StmtKind::Match { scrut, arms } => {
                self.match_stmt(b, vars, s, scrut, arms, ret, in_loop);
            },
            _ => {
                self.plain_stmt(b, vars, s, ret, in_loop);
            },
        }
    }

    /// Lowers a statement, and declares the variable that it declares.
    fn stmt(&self, b: &mut Builder, vars: &mut Vec<Var>, s: &Stmt, ret: Type, in_loop: bool)
        requires
            check_stmt(
                self.place(ret, in_loop),
                tenv(vars_view(old(vars)@)),
                s@,
            ) is Ok,
        ensures
            (final(b).gen(), vars_view(final(vars)@)) == lowering::lower_stmt(
                self.prog@,
                vars_view(old(vars)@),
                old(b).gen(),
                s@,
            ),
            check_stmt(self.place(ret, in_loop), tenv(vars_view(old(vars)@)), s@) == Ok::<
                Seq<(Seq<char>, Ty)>,
                DiagV,
            >(tenv(vars_view(final(vars)@))),
            final(vars)@.len() >= old(vars)@.len(),
            final(vars)@.take(old(vars)@.len() as int) == old(vars)@,
        decreases s, 2int,
    {
        if let StmtKind::Let { name, ty, value } = &s.kind {
            self.let_stmt(b, vars, s, name, ty, value);
        } else {
            proof {
                assert(vars@.take(vars@.len() as int) =~= vars@);
                lemma_declares_none(self.place(ret, in_loop), vars_view(vars@), b.gen(), s@);
            }
            self.nested(b, vars, s, ret, in_loop);
        }
    }

    fn branch(
        &self,
        b: &mut Builder,
        vars: &mut Vec<Var>,
        s: &Stmt,
        cond: &Expr,
        then_body: &Vec<Stmt>,
        else_body: &Vec<Stmt>,
        ret: Type,
        in_loop: bool,
    )
        requires
            s@.kind == (StmtKindV::If {
                cond: cond@,
                then_body: stmts_view(then_body@),
                else_body: stmts_view(else_body@),
            }),
            decreases_to!(s => then_body),
            decreases_to!(s => else_body),
            is_checked(self.place(ret, in_loop), vars_view(old(vars)@), s@),
        ensures
            final(b).gen() == code_of(self.prog@, vars_view(old(vars)@), old(b).gen(), s@),
            final(vars)@ == old(vars)@,
        decreases s, 0int,
    {
        proof {
            reveal(is_checked);
            reveal(code_of);
        }
        let (c, _) = self.expr(b, vars, cond);
        let saved = b.enter();
        self.stmts(b, vars, then_body, ret, in_loop);
        let then = b.leave(saved);
        let saved = b.enter();
        self.stmts(b, vars, else_body, ret, in_loop);
        let els = b.leave(saved);
        b.push(Code::If { cond: c, then, els });
    }

    fn while_loop(
        &self,
        b: &mut Builder,
        vars: &mut Vec<Var>,
        s: &Stmt,
        cond: &Expr,
        body: &Vec<Stmt>,
        ret: Type,
        in_loop: bool,
    )
        requires
            s@.kind == (StmtKindV::While { cond: cond@, body: stmts_view(body@) }),
            decreases_to!(s => body),
            is_checked(self.place(ret, in_loop), vars_view(old(vars)@), s@),
        ensures
            final(b).gen() == code_of(self.prog@, vars_view(old(vars)@), old(b).gen(), s@),
            final(vars)@ == old(vars)@,
        decreases s, 0int,
    {
        proof {
            reveal(is_checked);
            reveal(code_of);
        }
        let saved = b.enter();
        let (c, _) = self.expr(b, vars, cond);
        let head = b.leave(saved);
        let saved = b.enter();
        self.stmts(b, vars, body, ret, true);
        let body = b.leave(saved);
        let step: Vec<Code> = Vec::new();
        assert(codes_view(step@) =~= Seq::empty());
        b.push(Code::Loop { head, cond: c, body, step });
    }

    fn for_loop(
        &self,
        b: &mut Builder,
        vars: &mut Vec<Var>,
        s: &Stmt,
        init: &Option<Box<Stmt>>,
        cond: &Expr,
        step: &Option<Box<Stmt>>,
        body: &Vec<Stmt>,
        ret: Type,
        in_loop: bool,
    )
        requires
            s@.kind == (StmtKindV::For {
                init: opt_stmt_view(*init),
                cond: cond@,
                step: opt_stmt_view(*step),
                body: stmts_view(body@),
            }),
            decreases_to!(s => init),
            decreases_to!(s => step),
            decreases_to!(s => body),
            is_checked(self.place(ret, in_loop), vars_view(old(vars)@), s@),
        ensures
            final(b).gen() == code_of(self.prog@, vars_view(old(vars)@), old(b).gen(), s@),
            final(vars)@ == old(vars)@,
        decreases s, 0int,
    {
        proof {
            reveal(is_checked);
            reveal(code_of);
        }
        let mark: usize = vars.len();
        self.opt(b, vars, init, ret, in_loop);
        let ghost inside = vars@;
        let saved = b.enter();
        let (c, _) = self.expr(b, vars, cond);
        let head = b.leave(saved);
        let saved = b.enter();
        self.stmts(b, vars, body, ret, true);
        let body = b.leave(saved);
        let saved = b.enter();
        self.opt(b, vars, step, ret, in_loop);
        let step = b.leave(saved);
        b.push(Code::Loop { head, cond: c, body, step });
        proof {
            assert(vars@.take(mark as int) =~= vars@.take(inside.len() as int).take(mark as int));
        }
        pop_scope(vars, mark);
    }

    fn for_in(
        &self,
        b: &mut Builder,
        vars: &mut Vec<Var>,
        s: &Stmt,
        var: &String,
        iter: &Expr,
        body: &Vec<Stmt>,
        ret: Type,
        in_loop: bool,
    )
        requires
            s@.kind == (StmtKindV::ForIn { var: var@, iter: iter@, body: stmts_view(body@) }),
            decreases_to!(s => body),
            is_checked(self.place(ret, in_loop), vars_view(old(vars)@), s@),
        ensures
            final(b).gen() == code_of(self.prog@, vars_view(old(vars)@), old(b).gen(), s@),
            final(vars)@ == old(vars)@,
        decreases s, 0int,
    {
        proof {
            reveal(is_checked);
            reveal(code_of);
        }
        let mark: usize = vars.len();
        let (it, itt) = self.expr(b, vars, iter);
        let t = match itt {
            Type::Array(e) => e.to_type(),
            _ => Type::Str,
        };
        b.null_check(&it);
        let arr = if matches!(itt, Type::MapOf(_)) {
            b.emit1(IrTy::Ptr, Op::Rt(Rt::MapKeys), &it)
        } else {
            it
        };
        let len = b.emit1(IrTy::I64, Op::Load(IrTy::I64), &arr);
        let i_slot: usize = b.new_slot(IrTy::I64);
        b.set_var(i_slot, &Opnd::Int(0));
        let slot: usize = b.new_slot(basic_type(t));
        let saved = b.enter();
        let i = b.emit0(IrTy::I64, Op::GetVar(i_slot));
        let c = b.emit2(IrTy::I1, Op::ICmp(Pred::Below), &i, &len);
        let head = b.leave(saved);
        let saved = b.enter();
        let data = b.load_slot(IrTy::Ptr, &arr, 2);
        let at = b.elem_slot(&data, &i);
        let ty = basic_type(t);
        let x = b.emit1(ty, Op::Load(ty), &at);
        b.set_var(slot, &x);
        declare_var(vars, var, slot, t);
        self.stmts(b, vars, body, ret, true);
        pop_scope(vars, mark);
        let body = b.leave(saved);
        let saved = b.enter();
        let j = b.emit0(IrTy::I64, Op::GetVar(i_slot));
        let next = b.emit2(IrTy::I64, Op::Add, &j, &Opnd::Int(1));
        b.set_var(i_slot, &next);
        let step = b.leave(saved);
        b.push(Code::Loop { head, cond: c, body, step });
    }

    fn match_stmt(
        &self,
        b: &mut Builder,
        vars: &mut Vec<Var>,
        s: &Stmt,
        scrut: &Expr,
        arms: &Vec<MatchArm>,
        ret: Type,
        in_loop: bool,
    )
        requires
            s@.kind == (StmtKindV::Match { scrut: scrut@, arms: arms_view(arms@) }),
            decreases_to!(s => arms),
            is_checked(self.place(ret, in_loop), vars_view(old(vars)@), s@),
        ensures
            final(b).gen() == code_of(self.prog@, vars_view(old(vars)@), old(b).gen(), s@),
            final(vars)@ == old(vars)@,
        decreases s, 0int,
    {
        proof {
            reveal(is_checked);
            reveal(code_of);
        }
        let (v, t) = self.expr(b, vars, scrut);
        let k: usize = match t {
            Type::Enum(n) => find_enum(self.prog, n),
            _ => 0,
        };
        let def = &self.prog.enums[k];
        assert(self.prog@.enums[k as int] == enum_view(*def));
        b.null_check(&v);
        let tag = b.emit1(IrTy::I64, Op::Load(IrTy::I64), &v);
        let saved = b.enter();
        let out = self.arms(b, vars, &v, def, arms, ret, in_loop);
        let _last = b.leave(saved);
        b.push(
            Code::Switch { on: tag, tags: out.tags, cases: out.cases, default: out.default },
        );
    }

    fn arms(
        &self,
        b: &mut Builder,
        vars: &mut Vec<Var>,
        v: &Opnd,
        def: &EnumDef,
        arms: &Vec<MatchArm>,
        ret: Type,
        in_loop: bool,
    ) -> (out: ArmsOut)
        requires
            typing::check_arms(
                self.place(ret, in_loop),
                tenv(vars_view(old(vars)@)),
                enum_view(*def),
                arms_view(arms@),
                0,
            ) is Ok,
            old(b).gen().code == Seq::<CodeV>::empty(),
        ensures
            ({
                let want = lowering::lower_arms(
                    self.prog@,
                    vars_view(old(vars)@),
                    Arms {
                        tags: Seq::empty(),
                        cases: Seq::empty(),
                        default: Seq::empty(),
                        last: old(b).gen(),
                    },
                    v@,
                    enum_view(*def),
                    arms_view(arms@),
                    0,
                );
                &&& out.view(want.last) == want
                &&& final(b).gen().regs == want.last.regs
                &&& final(b).gen().slots == want.last.slots
            }),
            final(vars)@ == old(vars)@,
        decreases arms, 0int,
    {
        let mark: usize = vars.len();
        let ghost before = vars@;
        let ghost vv = vars_view(vars@);
        let ghost all = arms_view(arms@);
        let ghost d = enum_view(*def);
        let ghost cx = self.place(ret, in_loop);
        let ghost mut last = b.gen();
        let ghost start = Arms {
            tags: Seq::empty(),
            cases: Seq::empty(),
            default: Seq::empty(),
            last: b.gen(),
        };
        let mut out = ArmsOut { tags: Vec::new(), cases: Vec::new(), default: Vec::new() };
        let mut i: usize = 0;
        proof {
            assert(cases_view(out.cases@) =~= Seq::empty());
            assert(codes_view(out.default@) =~= Seq::empty());
            assert(out.view(last) == start);
        }
        while i < arms.len()
            invariant
                0 <= i <= arms@.len(),
                all == arms_view(arms@),
                d == enum_view(*def),
                cx == self.place(ret, in_loop),
                before == old(vars)@,
                vars@ == before,
                mark == before.len(),
                vv == vars_view(before),
                typing::check_arms(cx, tenv(vv), d, all, i as int) is Ok,
                b.gen().regs == last.regs,
                b.gen().slots == last.slots,
                lowering::lower_arms(self.prog@, vv, start, v@, d, all, 0)
                    == lowering::lower_arms(
                    self.prog@,
                    vv,
                    out.view(last),
                    v@,
                    d,
                    all,
                    i as int,
                ),
            decreases arms@.len() - i,
        {
            let arm = &arms[i];
            assert(all[i as int] == arm_view(*arm));
            let saved = b.enter();
            assert(b.gen() == inner(last));
            if arm.wildcard {
                self.stmts(b, vars, &arm.body, ret, in_loop);
                proof {
                    last = b.gen();
                }
                let done = b.leave(saved);
                out.default = done;
            } else {
                let k: usize = find_variant(&def.variants, arm.variant.as_str());
                assert(d.variants[k as int] == variant_view(def.variants@[k as int]));
                self.bind_payload(b, vars, v, &arm.bindings, &def.variants[k].fields);
                proof {
                    assert(tenv(vars_view(vars@)) =~= typing::arm_env(
                        self.prog@,
                        tenv(vv),
                        d,
                        all[i as int],
                    ));
                }
                self.stmts(b, vars, &arm.body, ret, in_loop);
                pop_scope(vars, mark);
                proof {
                    last = b.gen();
                }
                let done = b.leave(saved);
                let ghost cases = cases_view(out.cases@);
                let ghost code = codes_view(done@);
                out.cases.push(done);
                out.tags.push(k);
                assert(cases_view(out.cases@) =~= cases.push(code));
            }
            i += 1;
        }
        out
    }

    /// Declares the names for the payload of `v`, with their values.
    fn bind_payload(
        &self,
        b: &mut Builder,
        vars: &mut Vec<Var>,
        v: &Opnd,
        names: &Vec<String>,
        fields: &Vec<Type>,
    )
        requires
            names@.len() == fields@.len(),
        ensures
            (final(b).gen(), vars_view(final(vars)@)) == lowering::bind_payload(
                self.prog@,
                vars_view(old(vars)@),
                old(b).gen(),
                v@,
                names_view(names@),
                types_view(fields@),
                0,
            ),
            tenv(vars_view(final(vars)@)) == tenv(vars_view(old(vars)@)) + Seq::new(
                names@.len(),
                |j: int| (names_view(names@)[j], resolve(self.prog@, types_view(fields@)[j])),
            ),
            final(vars)@.len() >= old(vars)@.len(),
            final(vars)@.take(old(vars)@.len() as int) == old(vars)@,
    {
        let ghost ns = names_view(names@);
        let ghost ts = types_view(fields@);
        let ghost before = vars@;
        let ghost start = b.gen();
        let ghost added = Seq::new(
            names@.len(),
            |j: int| (ns[j], resolve(self.prog@, ts[j])),
        );
        let mut i: usize = 0;
        proof {
            assert(vars@.take(before.len() as int) =~= before);
            assert(tenv(vars_view(vars@)) =~= tenv(vars_view(before)) + added.take(0));
        }
        while i < names.len()
            invariant
                0 <= i <= names@.len(),
                names@.len() == fields@.len(),
                ns == names_view(names@),
                ts == types_view(fields@),
                before == old(vars)@,
                start == old(b).gen(),
                added == Seq::new(names@.len(), |j: int| (ns[j], resolve(self.prog@, ts[j]))),
                vars@.len() >= before.len(),
                vars@.take(before.len() as int) == before,
                tenv(vars_view(vars@)) == tenv(vars_view(before)) + added.take(i as int),
                lowering::bind_payload(self.prog@, vars_view(before), start, v@, ns, ts, 0)
                    == lowering::bind_payload(
                    self.prog@,
                    vars_view(vars@),
                    b.gen(),
                    v@,
                    ns,
                    ts,
                    i as int,
                ),
            decreases names@.len() - i,
        {
            let ghost prev = vars@;
            let t = resolve_type(self.prog, fields[i]);
            let x = b.load_slot(basic_type(t), v, i + 1);
            let slot: usize = b.new_slot(basic_type(t));
            b.set_var(slot, &x);
            declare_var(vars, &names[i], slot, t);
            proof {
                assert(added.take(i + 1) =~= added.take(i as int).push(added[i as int]));
                assert(tenv(vars_view(vars@)) =~= tenv(vars_view(before)) + added.take(i + 1));
                assert(vars@.take(before.len() as int) =~= vars@.take(prev.len() as int).take(
                    before.len() as int,
                ));
            }
            i += 1;
        }
        assert(added.take(i as int) =~= added);
    }

    fn opt(
        &self,
        b: &mut Builder,
        vars: &mut Vec<Var>,
        s: &Option<Box<Stmt>>,
        ret: Type,
        in_loop: bool,
    )
        requires
            typing::check_opt(
                self.place(ret, in_loop),
                tenv(vars_view(old(vars)@)),
                opt_stmt_view(*s),
            ) is Ok,
        ensures
            (final(b).gen(), vars_view(final(vars)@)) == lowering::lower_opt(
                self.prog@,
                vars_view(old(vars)@),
                old(b).gen(),
                opt_stmt_view(*s),
            ),
            typing::check_opt(
                self.place(ret, in_loop),
                tenv(vars_view(old(vars)@)),
                opt_stmt_view(*s),
            ) == Ok::<Seq<(Seq<char>, Ty)>, DiagV>(tenv(vars_view(final(vars)@))),
            final(vars)@.len() >= old(vars)@.len(),
            final(vars)@.take(old(vars)@.len() as int) == old(vars)@,
        decreases s, 0int,
    {
        proof {
            assert(vars@.take(vars@.len() as int) =~= vars@);
        }
        match s {
            Some(x) => self.stmt(b, vars, x, ret, in_loop),
            None => {},
        }
    }

    /// Lowers statements with a scope of their own, as far as they are reached.
    fn stmts(&self, b: &mut Builder, vars: &mut Vec<Var>, ss: &Vec<Stmt>, ret: Type, in_loop: bool)
        requires
            check_stmts(
                self.place(ret, in_loop),
                tenv(vars_view(old(vars)@)),
                stmts_view(ss@),
                0,
            ) is Ok,
        ensures
            final(b).gen() == lowering::lower_stmts(
                self.prog@,
                vars_view(old(vars)@),
                old(b).gen(),
                stmts_view(ss@),
                0,
            ),
            final(vars)@ == old(vars)@,
        decreases ss, 0int,
    {
        let mark: usize = vars.len();
        let ghost before = vars@;
        let ghost all = stmts_view(ss@);
        let ghost cx = self.place(ret, in_loop);
        let ghost start = b.gen();
        let mut i: usize = 0;
        let mut open = true;
        assert(vars@.take(mark as int) =~= before);
        while open && i < ss.len()
            invariant
                0 <= i <= ss@.len(),
                all == stmts_view(ss@),
                cx == self.place(ret, in_loop),
                before == old(vars)@,
                start == old(b).gen(),
                mark == before.len(),
                vars@.len() >= mark,
                vars@.take(mark as int) == before,
                open ==> check_stmts(cx, tenv(vars_view(vars@)), all, i as int) is Ok,
                open ==> lowering::lower_stmts(self.prog@, vars_view(before), start, all, 0)
                    == lowering::lower_stmts(
                    self.prog@,
                    vars_view(vars@),
                    b.gen(),
                    all,
                    i as int,
                ),
                !open ==> lowering::lower_stmts(self.prog@, vars_view(before), start, all, 0)
                    == b.gen(),
            decreases ss@.len() - i,
        {
            assert(all[i as int] == ss@[i as int]@);
            let ghost prev = vars@;
            self.stmt(b, vars, &ss[i], ret, in_loop);
            proof {
                assert(vars@.take(mark as int) =~= vars@.take(prev.len() as int).take(
                    mark as int,
                ));
            }
            open = !closes(&ss[i]);
            i += 1;
        }
        pop_scope(vars, mark);
    }

    fn function(&self, f: &Function) -> (r: IrFunc)
        requires
            typing::func_ok(self.prog@, function_view(*f)) is Ok,
        ensures
            func_view(r) == lowering::lower_func(self.prog@, function_view(*f)),
    {
        let ghost ps = params_view(f.params@);
        let ghost p = self.prog@;
        let mut b = Builder { code: Vec::new(), regs: Vec::new(), slots: Vec::new() };
        let mut vars: Vec<Var> = Vec::new();
        let mut params: Vec<IrTy> = Vec::new();
        let mut i: usize = 0;
        proof {
            assert(vars_view(vars@) =~= lowering::param_vars(p, ps).take(0));
            assert(params@ =~= lowering::param_slots(p, ps).take(0));
        }
        while i < f.params.len()
            invariant
                0 <= i <= f.params@.len(),
                ps == params_view(f.params@),
                p == self.prog@,
                b.code@.len() == 0,
                b.regs@.len() == 0,
                b.slots@ == params@,
                params@ == lowering::param_slots(p, ps).take(i as int),
                vars_view(vars@) == lowering::param_vars(p, ps).take(i as int),
            decreases f.params@.len() - i,
        {
            let x = &f.params[i];
            assert(ps[i as int] == param_view(*x));
            let t = resolve_type(self.prog, x.ty);
            params.push(basic_type(t));
            b.slots.push(basic_type(t));
            declare_var(&mut vars, &x.name, i, t);
            proof {
                let a = lowering::param_vars(p, ps);
                assert(a.take(i + 1) =~= a.take(i as int).push(a[i as int]));
                let c = lowering::param_slots(p, ps);
                assert(c.take(i + 1) =~= c.take(i as int).push(c[i as int]));
            }
            i += 1;
        }
        proof {
            assert(lowering::param_vars(p, ps).take(i as int) =~= lowering::param_vars(p, ps));
            assert(lowering::param_slots(p, ps).take(i as int) =~= lowering::param_slots(p, ps));
            assert(tenv(lowering::param_vars(p, ps)) =~= typing::param_env(p, ps));
            assert(codes_view(b.code@) =~= Seq::empty());
            assert(b.regs@ =~= Seq::empty());
        }
        let ret = resolve_type(self.prog, f.ret);
        self.stmts(&mut b, &mut vars, &f.body, ret, false);
        if !block_closed(&f.body) {
            b.push(Code::Return(zero_of(ret)));
        }
        IrFunc {
            name: f.name.clone(),
            params,
            ret: basic_type(ret),
            slots: b.slots,
            regs: b.regs,
            code: b.code,
        }
    }
}

/// Lowers every function of a program that the type checker accepts.
pub fn lower_program(program: &Program) -> (m: IrModule)
    requires
        typing::checked(program@) is Ok,
    ensures
        m@ == lowering::lowered(program@),
{
    let cg = Lowerer { prog: program };
    let mut funcs: Vec<IrFunc> = Vec::new();
    let mut i: usize = 0;
    while i < program.funcs.len()
        invariant
            0 <= i <= program.funcs@.len(),
            cg.prog == program,
            typing::bodies_ok(program@, i as int) is Ok,
            funcs@.len() == i,
            forall|k: int|
                0 <= k < i ==> func_view(#[trigger] funcs@[k]) == lowering::lower_func(
                    program@,
                    program@.funcs[k],
                ),
        decreases program.funcs@.len() - i,
    {
        assert(program@.funcs[i as int] == function_view(program.funcs@[i as int]));
        let f = cg.function(&program.funcs[i]);
        funcs.push(f);
        i += 1;
    }
    let m = IrModule { funcs };
    assert(m@ =~= lowering::lowered(program@));
    m
}

/// Whether one of the statements ends their block.
fn block_closed(ss: &Vec<Stmt>) -> (r: bool)
    ensures
        r == lowering::block_closed(stmts_view(ss@)),
{
    let mut i: usize = 0;
    while i < ss.len()
        invariant
            0 <= i <= ss@.len(),
            forall|k: int|
                0 <= k < i ==> !lowering::closes(#[trigger] stmts_view(ss@)[k]),
        decreases ss@.len() - i,
    {
        assert(stmts_view(ss@)[i as int] == ss@[i as int]@);
        if closes(&ss[i]) {
            return true;
        }
        i += 1;
    }
    false
}

} // verus!
