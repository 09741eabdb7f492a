//! Where the code of statements begins and ends, and where variables are held.
use vstd::prelude::*;
#[allow(unused_imports)]
use crate::ast::{EnumDefV, ExprKindV, MatchArmV, ProgramV, StmtKindV, StmtV};
#[allow(unused_imports)]
use crate::faithful::anatomy::{code_at, null_at, type_at, typed};
#[allow(unused_imports)]
use crate::faithful::arm_anatomy::{
    arm_fields, arm_is_ok, arm_start, arms_upto, bind_at, match_def, parts_of_bind, parts_of_match,
    payload_ty,
};
#[allow(unused_imports)]
use crate::faithful::machine::{
    all_known, extends, known, lemma_extends, lemma_extends_put, lemma_extends_self,
    lemma_extends_then, lemma_known, lemma_placed, lemma_placed_row, placed_row, shaped,
};
#[allow(unused_imports)]
use crate::faithful::shapes::{lemma_extends_slot, lemma_grows, lemma_shape};
#[allow(unused_imports)]
use crate::faithful::stmt_anatomy::{
    arms_ok, below_row, each_loop, each_rows_ok, each_slots, each_start, is_loop, item_ty, keys_row,
    let_ty, loop_at, loop_body, loop_init, loop_ok, loop_step, next_row, opt_at, opt_ok,
    parts_of_assign, parts_of_each, parts_of_if, parts_of_let, parts_of_loop, parts_of_opt,
    parts_of_print, parts_of_small, parts_of_stmts, set_row, slot_in, sole, stmt_at, stmt_ok,
    stmts_at, stmts_ok, with_var,
};
#[allow(unused_imports)]
use crate::ir::{basic_ty, CodeV, IrTy, Op, OpndV};
#[allow(unused_imports)]
use crate::lowering::{closes, emit, inner, new_slot, set_var, slot_of, Gen, VarV};
#[allow(unused_imports)]
use crate::meaning::{item_row, length_row, load_row, null_row, print_row, store_row};
#[allow(unused_imports)]
use crate::types::Ty;
#[allow(unused_imports)]
use crate::typing::{looped, Place};

verus! {

/// Variables are held in slots of `g`, each in one of its own.
#[verifier::opaque]
pub open spec fn held(vars: Seq<VarV>, g: Gen) -> bool {
    &&& forall|i: int| 0 <= i < vars.len() ==> (#[trigger] vars[i]).slot < g.slots.len()
    &&& forall|i: int, j: int|
        0 <= i < j < vars.len() ==> (#[trigger] vars[i]).slot != (#[trigger] vars[j]).slot
}

/// The variables `after` are `vars` and ones that `g` does not have.
#[verifier::opaque]
pub open spec fn grown(vars: Seq<VarV>, after: Seq<VarV>, g: Gen) -> bool {
    &&& vars.len() <= after.len()
    &&& after.take(vars.len() as int) == vars
    &&& forall|i: int|
        vars.len() <= i < after.len() ==> (#[trigger] after[i]).slot >= g.slots.len()
}

pub proof fn lemma_grown_self(vars: Seq<VarV>, g: Gen)
    ensures
        grown(vars, vars, g),
{
    reveal(grown);
    assert(vars.take(vars.len() as int) =~= vars);
}

pub proof fn lemma_grown(u: Seq<VarV>, v: Seq<VarV>, w: Seq<VarV>, g: Gen, h: Gen)
    requires
        grown(u, v, g),
        grown(v, w, h),
        g.slots.len() <= h.slots.len(),
    ensures
        grown(u, w, g),
{
    reveal(grown);
    assert(w.take(u.len() as int) =~= w.take(v.len() as int).take(u.len() as int));
    assert forall|i: int| u.len() <= i < w.len() implies (#[trigger] w[i]).slot >= g.slots.len() by {
        if i < v.len() {
            assert(w.take(v.len() as int)[i] == v[i]);
        }
    }
}

pub proof fn lemma_held(vars: Seq<VarV>, g: Gen, h: Gen)
    requires
        held(vars, g),
        g.slots.len() <= h.slots.len(),
    ensures
        held(vars, h),
{
    reveal(held);
}

/// One more variable in a new slot.
pub proof fn lemma_held_more(vars: Seq<VarV>, name: Seq<char>, t: Ty, g: Gen, h: Gen)
    requires
        held(vars, g),
        g.slots.len() < h.slots.len(),
        h.slots.len() <= usize::MAX,
    ensures
        held(with_var(vars, name, g.slots.len() as usize, t), h),
        grown(vars, with_var(vars, name, g.slots.len() as usize, t), g),
{
    reveal(held);
    reveal(grown);
    let slot = g.slots.len() as usize;
    let more = with_var(vars, name, slot, t);
    assert(more.take(vars.len() as int) =~= vars);
    assert forall|i: int| 0 <= i < more.len() implies (#[trigger] more[i]).slot < h.slots.len() by {
        if i < vars.len() {
            assert(vars[i].slot < g.slots.len());
        }
    }
    assert forall|i: int, j: int| 0 <= i < j < more.len() implies (#[trigger] more[i]).slot != (
    #[trigger] more[j]).slot by {
        assert(vars[i].slot < g.slots.len());
        if j < vars.len() {
            assert(vars[i].slot != vars[j].slot);
        }
    }
}

pub proof fn lemma_set_shape(g: Gen, ty: IrTy, slot: usize, v: OpndV)
    ensures
        extends(g, set_var(new_slot(g, ty), slot, v)),
{
    lemma_extends_slot(g, ty);
    lemma_extends_put(new_slot(g, ty), IrTy::I64, Op::SetVar(slot), seq![v]);
    lemma_extends(g, new_slot(g, ty), set_var(new_slot(g, ty), slot, v));
}

/// The code of a statement goes on where the code before it ends.
pub proof fn lemma_stmt_shape(cx: Place, vars: Seq<VarV>, g: Gen, s: StmtV)
    requires
        stmt_ok(cx, vars, s),
    ensures
        extends(g, stmt_at(cx.prog, vars, g, s).0),
    decreases s, 2int,
{
    match s.kind {
        StmtKindV::Let { .. } => {
            parts_of_let(cx, vars, g, s);
            let (g1, v) = code_at(cx.prog, vars, g, s.kind->Let_value);
            lemma_shape(cx.prog, vars, g, s.kind->Let_value);
            let t = let_ty(cx.prog, vars, s);
            lemma_set_shape(g1, basic_ty(t), g1.slots.len() as usize, v);
            lemma_extends(g, g1, stmt_at(cx.prog, vars, g, s).0);
        },
        StmtKindV::Assign { .. } => lemma_assign_shape(cx, vars, g, s),
        StmtKindV::If { .. } => lemma_if_shape(cx, vars, g, s),
        StmtKindV::While { .. } => lemma_loop_shape(cx, vars, g, s),
        StmtKindV::For { .. } => lemma_loop_shape(cx, vars, g, s),
        StmtKindV::ForIn { .. } => lemma_each_shape(cx, vars, g, s),
        StmtKindV::Match { .. } => lemma_match_shape(cx, vars, g, s),
        _ => lemma_small_shape(cx, vars, g, s),
    }
}

proof fn lemma_small_shape(cx: Place, vars: Seq<VarV>, g: Gen, s: StmtV)
    requires
        stmt_ok(cx, vars, s),
        s.kind is Print || s.kind is Return || s.kind is ExprStmt || s.kind is Break
            || s.kind is Continue,
    ensures
        extends(g, stmt_at(cx.prog, vars, g, s).0),
{
    let last = stmt_at(cx.prog, vars, g, s).0;
    let (g1, v) = code_at(cx.prog, vars, g, sole(s));
    parts_of_small(cx, vars, g, s);
    if s.kind is Print {
        parts_of_print(cx, vars, g, s);
        lemma_shape(cx.prog, vars, g, sole(s));
        lemma_placed(g1, print_row(type_at(cx.prog, vars, sole(s))), seq![v]);
        lemma_extends(g, g1, last);
    } else if s.kind is Return {
        lemma_shape(cx.prog, vars, g, sole(s));
        lemma_extends_then(g1, CodeV::Return(v), g1);
        lemma_extends(g, g1, last);
    } else if s.kind is ExprStmt {
        lemma_shape(cx.prog, vars, g, sole(s));
    } else if s.kind is Break {
        lemma_extends_then(g, CodeV::Break, g);
    } else {
        lemma_extends_then(g, CodeV::Continue, g);
    }
}

proof fn lemma_assign_shape(cx: Place, vars: Seq<VarV>, g: Gen, s: StmtV)
    requires
        stmt_ok(cx, vars, s),
        s.kind is Assign,
    ensures
        extends(g, stmt_at(cx.prog, vars, g, s).0),
{
    let p = cx.prog;
    let last = stmt_at(p, vars, g, s).0;
    parts_of_assign(cx, vars, g, s);
    let (target, x) = (s.kind->Assign_target, s.kind->Assign_value);
    let (g1, v) = code_at(p, vars, g, x);
    lemma_shape(p, vars, g, x);
    match target.kind {
        ExprKindV::Var(name) => {
            lemma_extends_put(g1, IrTy::I64, Op::SetVar(slot_of(vars, name)), seq![v]);
            lemma_extends(g, g1, last);
        },
        ExprKindV::Index { array, index } => {
            let (g2, a) = code_at(p, vars, g1, *array);
            lemma_shape(p, vars, g1, *array);
            let g3 = null_at(g2, a);
            lemma_placed(g2, null_row().parts, seq![a]);
            let (g4, i) = code_at(p, vars, g3, *index);
            lemma_shape(p, vars, g3, *index);
            lemma_placed(g4, set_row(p, vars, *array, x), seq![a, i, v]);
            lemma_extends(g, g1, g2);
            lemma_extends(g, g2, g3);
            lemma_extends(g, g3, g4);
            lemma_extends(g, g4, last);
        },
        ExprKindV::Field { obj, field } => {
            let (g2, o) = code_at(p, vars, g1, *obj);
            lemma_shape(p, vars, g1, *obj);
            let g3 = null_at(g2, o);
            lemma_placed(g2, null_row().parts, seq![o]);
            lemma_placed(g3, store_row(slot_in(p, vars, *obj, field)), seq![o, v]);
            lemma_extends(g, g1, g2);
            lemma_extends(g, g2, g3);
            lemma_extends(g, g3, last);
        },
        _ => {},
    }
}

proof fn lemma_if_shape(cx: Place, vars: Seq<VarV>, g: Gen, s: StmtV)
    requires
        stmt_ok(cx, vars, s),
        s.kind is If,
    ensures
        extends(g, stmt_at(cx.prog, vars, g, s).0),
    decreases s, 0int,
{
    let p = cx.prog;
    parts_of_if(cx, vars, g, s);
    let (g1, c) = code_at(p, vars, g, sole(s));
    lemma_shape(p, vars, g, sole(s));
    let t = stmts_at(p, vars, inner(g1), s.kind->If_then_body, 0);
    lemma_stmts_shape(cx, vars, inner(g1), s.kind->If_then_body, 0);
    lemma_grows(inner(g1), t);
    let e = stmts_at(p, vars, inner(t), s.kind->If_else_body, 0);
    lemma_stmts_shape(cx, vars, inner(t), s.kind->If_else_body, 0);
    lemma_grows(inner(t), e);
    lemma_extends_then(g1, CodeV::If { cond: c, then: t.code, els: e.code }, e);
    lemma_extends(g, g1, stmt_at(p, vars, g, s).0);
}

/// The parts of a loop go on one after the other.
pub proof fn lemma_loop_parts(cx: Place, vars: Seq<VarV>, g: Gen, s: StmtV)
    requires
        loop_ok(cx, vars, s),
        is_loop(s),
    ensures
        ({
            let p = cx.prog;
            let (h, c) = code_at(p, vars, inner(g), sole(s));
            let bg = stmts_at(p, vars, inner(h), loop_body(s), 0);
            let (st, _) = opt_at(p, vars, inner(bg), loop_step(s));
            &&& shaped(inner(g), (h, c))
            &&& extends(inner(h), bg)
            &&& extends(inner(bg), st)
            &&& g.regs.len() <= h.regs.len() <= bg.regs.len() <= st.regs.len()
            &&& g.slots.len() <= h.slots.len() <= bg.slots.len() <= st.slots.len()
        }),
    decreases s, 0int,
{
    let p = cx.prog;
    let (h, c) = code_at(p, vars, inner(g), sole(s));
    lemma_shape(p, vars, inner(g), sole(s));
    lemma_grows(inner(g), h);
    let bg = stmts_at(p, vars, inner(h), loop_body(s), 0);
    lemma_stmts_shape(looped(cx), vars, inner(h), loop_body(s), 0);
    lemma_grows(inner(h), bg);
    let (st, _) = opt_at(p, vars, inner(bg), loop_step(s));
    if s.kind is For {
        lemma_opt_shape(cx, vars, inner(bg), s.kind->For_step);
    } else {
        parts_of_opt(cx, vars, inner(bg), None);
        lemma_extends_self(inner(bg));
    }
    lemma_grows(inner(bg), st);
}

proof fn lemma_loop_shape(cx: Place, vars: Seq<VarV>, g: Gen, s: StmtV)
    requires
        stmt_ok(cx, vars, s),
        is_loop(s),
    ensures
        extends(g, stmt_at(cx.prog, vars, g, s).0),
    decreases s, 1int,
{
    let p = cx.prog;
    parts_of_loop(cx, vars, g, s);
    let (g1, inside) = opt_at(p, vars, g, loop_init(s));
    if s.kind is For {
        lemma_opt_shape(cx, vars, g, s.kind->For_init);
    } else {
        parts_of_opt(cx, vars, g, None);
        lemma_extends_self(g);
    }
    lemma_loop_parts(cx, inside, g1, s);
    let (c, last) = loop_at(p, inside, g1, s);
    lemma_extends_then(g1, c, last);
    lemma_extends(g, g1, stmt_at(p, vars, g, s).0);
}

/// The parts of a loop over a collection up to where its length is known.
pub proof fn lemma_each_start(cx: Place, vars: Seq<VarV>, g: Gen, s: StmtV)
    requires
        typed(cx.prog, vars, sole(s)),
    ensures
        ({
            let p = cx.prog;
            let ty = type_at(p, vars, sole(s));
            let (g1, it) = code_at(p, vars, g, sole(s));
            let g2 = null_at(g1, it);
            let (g3, arr) = placed_row(g2, keys_row(ty), seq![it]);
            let (g4, len) = placed_row(g3, length_row(Ty::Null), seq![arr]);
            &&& each_start(p, vars, g, s) == (g4, len, arr)
            &&& shaped(g, (g1, it))
            &&& extends(g1, g2)
            &&& shaped(g2, (g3, arr))
            &&& shaped(g3, (g4, len))
            &&& known(it, g2)
            &&& known(arr, g4)
            &&& extends(g, g4)
        }),
{
    let p = cx.prog;
    let ty = type_at(p, vars, sole(s));
    each_rows_ok(ty, IrTy::Ptr);
    let (g1, it) = code_at(p, vars, g, sole(s));
    lemma_shape(p, vars, g, sole(s));
    let g2 = null_at(g1, it);
    lemma_placed(g1, null_row().parts, seq![it]);
    lemma_known(it, g1, g2);
    let (g3, arr) = placed_row(g2, keys_row(ty), seq![it]);
    assert(all_known(seq![it], g2));
    lemma_placed_row(g2, keys_row(ty), seq![it]);
    let (g4, len) = placed_row(g3, length_row(Ty::Null), seq![arr]);
    assert(all_known(seq![arr], g3));
    lemma_placed_row(g3, length_row(Ty::Null), seq![arr]);
    lemma_known(arr, g3, g4);
    lemma_extends(g, g1, g2);
    lemma_extends(g, g2, g3);
    lemma_extends(g, g3, g4);
}

/// The parts of a loop over a collection from its condition on.
pub proof fn lemma_each_parts(
    cx: Place,
    vars: Seq<VarV>,
    g: Gen,
    len: OpndV,
    arr: OpndV,
    i_slot: usize,
    slot: usize,
    t: Ty,
    s: StmtV,
)
    requires
        s.kind is ForIn,
        known(len, g),
        known(arr, g),
        stmts_ok(looped(cx), with_var(vars, s.kind->ForIn_var, slot, t), loop_body(s), 0),
    ensures
        ({
            let p = cx.prog;
            let inside = with_var(vars, s.kind->ForIn_var, slot, t);
            let (h1, i) = emit(inner(g), IrTy::I64, Op::GetVar(i_slot), Seq::empty());
            let (h, c) = placed_row(h1, below_row(), seq![i, len]);
            let (b2, x) = placed_row(inner(h), item_row(basic_ty(t)), seq![arr, i]);
            let b3 = set_var(b2, slot, x);
            let bg = stmts_at(p, inside, b3, loop_body(s), 0);
            let (s1, j) = emit(inner(bg), IrTy::I64, Op::GetVar(i_slot), Seq::empty());
            let (s2, next) = placed_row(s1, next_row(), seq![j]);
            let st = set_var(s2, i_slot, next);
            &&& each_loop(p, vars, g, len, arr, i_slot, slot, t, s) == (
                CodeV::Loop { head: h.code, cond: c, body: bg.code, step: st.code },
                st,
            )
            &&& extends(inner(g), h1)
            &&& known(len, h1)
            &&& shaped(h1, (h, c))
            &&& known(i, h)
            &&& known(len, h)
            &&& known(arr, h)
            &&& shaped(inner(h), (b2, x))
            &&& extends(b2, b3)
            &&& extends(inner(h), b3)
            &&& b3.slots == g.slots
            &&& extends(b3, bg)
            &&& extends(inner(bg), s1)
            &&& shaped(s1, (s2, next))
            &&& extends(s2, st)
            &&& g.regs.len() <= h.regs.len() <= b3.regs.len() <= bg.regs.len() <= st.regs.len()
            &&& g.slots.len() <= bg.slots.len() == st.slots.len()
        }),
    decreases s, 0int,
{
    let p = cx.prog;
    let inside = with_var(vars, s.kind->ForIn_var, slot, t);
    each_rows_ok(t, basic_ty(t));
    let (h1, i) = emit(inner(g), IrTy::I64, Op::GetVar(i_slot), Seq::empty());
    lemma_extends_put(inner(g), IrTy::I64, Op::GetVar(i_slot), Seq::empty());
    let (h, c) = placed_row(h1, below_row(), seq![i, len]);
    assert(all_known(seq![i, len], h1));
    lemma_placed_row(h1, below_row(), seq![i, len]);
    lemma_grows(h1, h);
    let (b2, x) = placed_row(inner(h), item_row(basic_ty(t)), seq![arr, i]);
    assert(all_known(seq![arr, i], inner(h)));
    lemma_placed_row(inner(h), item_row(basic_ty(t)), seq![arr, i]);
    lemma_grows(inner(h), b2);
    let b3 = set_var(b2, slot, x);
    lemma_extends_put(b2, IrTy::I64, Op::SetVar(slot), seq![x]);
    lemma_extends(inner(h), b2, b3);
    let bg = stmts_at(p, inside, b3, loop_body(s), 0);
    lemma_stmts_shape(looped(cx), inside, b3, loop_body(s), 0);
    lemma_grows(b3, bg);
    let (s1, j) = emit(inner(bg), IrTy::I64, Op::GetVar(i_slot), Seq::empty());
    lemma_extends_put(inner(bg), IrTy::I64, Op::GetVar(i_slot), Seq::empty());
    let (s2, next) = placed_row(s1, next_row(), seq![j]);
    assert(all_known(seq![j], s1));
    lemma_placed_row(s1, next_row(), seq![j]);
    lemma_grows(s1, s2);
    lemma_extends_put(s2, IrTy::I64, Op::SetVar(i_slot), seq![next]);
}

pub proof fn lemma_each_slots(g: Gen, ty: IrTy)
    ensures
        extends(g, each_slots(g, ty).0),
        each_slots(g, ty).0.regs.len() == g.regs.len() + 1,
        each_slots(g, ty).0.slots.len() == g.slots.len() + 2,
{
    let i_slot = g.slots.len() as usize;
    let g6 = set_var(new_slot(g, IrTy::I64), i_slot, OpndV::Int(0));
    lemma_set_shape(g, IrTy::I64, i_slot, OpndV::Int(0));
    lemma_extends_slot(g6, ty);
    lemma_extends(g, g6, new_slot(g6, ty));
}

proof fn lemma_each_shape(cx: Place, vars: Seq<VarV>, g: Gen, s: StmtV)
    requires
        stmt_ok(cx, vars, s),
        s.kind is ForIn,
    ensures
        extends(g, stmt_at(cx.prog, vars, g, s).0),
    decreases s, 1int,
{
    let p = cx.prog;
    parts_of_each(cx, vars, g, s);
    lemma_each_start(cx, vars, g, s);
    let t = item_ty(p, vars, sole(s));
    let (g4, len, arr) = each_start(p, vars, g, s);
    let (g7, i_slot, slot) = each_slots(g4, basic_ty(t));
    lemma_each_slots(g4, basic_ty(t));
    lemma_known(len, g4, g7);
    lemma_known(arr, g4, g7);
    lemma_each_parts(cx, vars, g7, len, arr, i_slot, slot, t, s);
    let (c, last) = each_loop(p, vars, g7, len, arr, i_slot, slot, t, s);
    lemma_extends_then(g7, c, last);
    lemma_extends(g, g4, g7);
    lemma_extends(g, g7, stmt_at(p, vars, g, s).0);
}

pub proof fn lemma_bind_shape(
    p: ProgramV,
    vars: Seq<VarV>,
    g: Gen,
    v: OpndV,
    names: Seq<Seq<char>>,
    fields: Seq<Ty>,
    i: int,
)
    requires
        0 <= i <= names.len(),
        known(v, g),
    ensures
        extends(g, bind_at(p, vars, g, v, names, fields, i).0),
    decreases names.len() - i,
{
    parts_of_bind(p, vars, g, v, names, fields, i);
    if i < names.len() {
        let t = payload_ty(p, fields, i);
        let r = load_row(basic_ty(t), (i + 1) as usize);
        let (g1, x) = placed_row(g, r, seq![v]);
        let slot = g1.slots.len() as usize;
        let g2 = set_var(new_slot(g1, basic_ty(t)), slot, x);
        assert(all_known(seq![v], g));
        lemma_placed_row(g, r, seq![v]);
        lemma_set_shape(g1, basic_ty(t), slot, x);
        lemma_extends(g, g1, g2);
        lemma_known(v, g, g2);
        let more = with_var(vars, names[i], slot, t);
        lemma_bind_shape(p, more, g2, v, names, fields, i + 1);
        lemma_extends(g, g2, bind_at(p, more, g2, v, names, fields, i + 1).0);
    } else {
        lemma_extends_self(g);
    }
}

/// The code of an arm before its statements goes on where the code before it ends.
pub proof fn lemma_start_shape(
    p: ProgramV,
    vars: Seq<VarV>,
    last: Gen,
    v: OpndV,
    def: EnumDefV,
    a: MatchArmV,
)
    requires
        known(v, last),
    ensures
        extends(inner(last), arm_start(p, vars, last, v, def, a).0),
{
    if a.wildcard {
        lemma_extends_self(inner(last));
    } else {
        lemma_bind_shape(p, vars, inner(last), v, a.bindings, arm_fields(def, a), 0);
    }
}

/// The registers and variables of the arms go on one after the other.
pub proof fn lemma_arms_shape(
    cx: Place,
    vars: Seq<VarV>,
    g: Gen,
    v: OpndV,
    def: EnumDefV,
    arms: Seq<MatchArmV>,
    j: nat,
    k: nat,
)
    requires
        arms_ok(cx, vars, def, arms),
        known(v, g),
        j <= k <= arms.len(),
    ensures
        ({
            let before = arms_upto(cx.prog, vars, g, v, def, arms, j).last;
            let last = arms_upto(cx.prog, vars, g, v, def, arms, k).last;
            &&& before.regs.len() <= last.regs.len()
            &&& before.slots.len() <= last.slots.len()
            &&& g.regs.len() <= last.regs.len()
            &&& g.slots.len() <= last.slots.len()
        }),
    decreases arms, k,
{
    if k > 0 {
        let p = cx.prog;
        let before = arms_upto(p, vars, g, v, def, arms, (k - 1) as nat).last;
        if j < k {
            lemma_arms_shape(cx, vars, g, v, def, arms, j, (k - 1) as nat);
        } else {
            lemma_arms_shape(cx, vars, g, v, def, arms, (k - 1) as nat, (k - 1) as nat);
        }
        let a = arms[k - 1];
        let (b1, inside) = arm_start(p, vars, before, v, def, a);
        lemma_start_shape(p, vars, before, v, def, a);
        arm_is_ok(cx, vars, before, v, def, arms, k - 1);
        lemma_stmts_shape(cx, inside, b1, a.body, 0);
        lemma_grows(inner(before), b1);
        lemma_grows(b1, stmts_at(p, inside, b1, a.body, 0));
    }
}

proof fn lemma_match_shape(cx: Place, vars: Seq<VarV>, g: Gen, s: StmtV)
    requires
        stmt_ok(cx, vars, s),
        s.kind is Match,
    ensures
        extends(g, stmt_at(cx.prog, vars, g, s).0),
    decreases s, 0int,
{
    let p = cx.prog;
    let arms = s.kind->Match_arms;
    let def = match_def(p, vars, s);
    parts_of_match(cx, vars, g, s);
    let (g1, v) = code_at(p, vars, g, sole(s));
    lemma_shape(p, vars, g, sole(s));
    let g2 = null_at(g1, v);
    lemma_placed(g1, null_row().parts, seq![v]);
    lemma_known(v, g1, g2);
    let (g3, tag) = placed_row(g2, length_row(Ty::Null), seq![v]);
    assert(all_known(seq![v], g2));
    lemma_placed_row(g2, length_row(Ty::Null), seq![v]);
    lemma_known(v, g2, g3);
    let out = arms_upto(p, vars, g3, v, def, arms, arms.len());
    lemma_arms_shape(cx, vars, g3, v, def, arms, 0, arms.len());
    let c = CodeV::Switch { on: tag, tags: out.tags, cases: out.cases, default: out.default };
    lemma_extends_then(g3, c, out.last);
    lemma_extends(g, g1, g2);
    lemma_extends(g, g2, g3);
    lemma_extends(g, g3, stmt_at(p, vars, g, s).0);
}

pub proof fn lemma_opt_shape(cx: Place, vars: Seq<VarV>, g: Gen, s: Option<Box<StmtV>>)
    requires
        opt_ok(cx, vars, s),
    ensures
        extends(g, opt_at(cx.prog, vars, g, s).0),
    decreases s, 0int,
{
    parts_of_opt(cx, vars, g, s);
    match s {
        Some(x) => lemma_stmt_shape(cx, vars, g, *x),
        None => lemma_extends_self(g),
    }
}

pub proof fn lemma_stmts_shape(cx: Place, vars: Seq<VarV>, g: Gen, ss: Seq<StmtV>, i: int)
    requires
        stmts_ok(cx, vars, ss, i),
        0 <= i <= ss.len(),
    ensures
        extends(g, stmts_at(cx.prog, vars, g, ss, i)),
    decreases ss, ss.len() - i,
{
    parts_of_stmts(cx, vars, g, ss, i);
    if i < ss.len() {
        let (g1, after) = stmt_at(cx.prog, vars, g, ss[i]);
        lemma_stmt_shape(cx, vars, g, ss[i]);
        if !closes(ss[i]) {
            lemma_stmts_shape(cx, after, g1, ss, i + 1);
            lemma_extends(g, g1, stmts_at(cx.prog, after, g1, ss, i + 1));
        }
    } else {
        lemma_extends_self(g);
    }
}

// The variables after a statement.

proof fn lemma_after_same(p: ProgramV, vars: Seq<VarV>, g: Gen, s: StmtV)
    requires
        !(s.kind is Let),
    ensures
        stmt_at(p, vars, g, s).1 == vars,
{
    reveal(stmt_at);
}

pub proof fn lemma_after(cx: Place, vars: Seq<VarV>, g: Gen, s: StmtV)
    requires
        stmt_ok(cx, vars, s),
        held(vars, g),
        stmt_at(cx.prog, vars, g, s).0.slots.len() <= usize::MAX,
    ensures
        held(stmt_at(cx.prog, vars, g, s).1, stmt_at(cx.prog, vars, g, s).0),
        grown(vars, stmt_at(cx.prog, vars, g, s).1, g),
{
    let (h, after) = stmt_at(cx.prog, vars, g, s);
    lemma_stmt_shape(cx, vars, g, s);
    lemma_grows(g, h);
    if s.kind is Let {
        parts_of_let(cx, vars, g, s);
        let (g1, v) = code_at(cx.prog, vars, g, s.kind->Let_value);
        lemma_shape(cx.prog, vars, g, s.kind->Let_value);
        lemma_grows(g, g1);
        lemma_held(vars, g, g1);
        let t = let_ty(cx.prog, vars, s);
        lemma_held_more(vars, s.kind->Let_name, t, g1, h);
        lemma_grown_less(vars, after, g, g1);
    } else {
        lemma_after_same(cx.prog, vars, g, s);
        lemma_held(vars, g, h);
        lemma_grown_self(vars, g);
    }
}

pub proof fn lemma_grown_less(vars: Seq<VarV>, after: Seq<VarV>, g: Gen, h: Gen)
    requires
        grown(vars, after, h),
        g.slots.len() <= h.slots.len(),
    ensures
        grown(vars, after, g),
{
    reveal(grown);
}

pub proof fn lemma_bind_after(
    p: ProgramV,
    vars: Seq<VarV>,
    g: Gen,
    v: OpndV,
    names: Seq<Seq<char>>,
    fields: Seq<Ty>,
    i: int,
)
    requires
        0 <= i <= names.len(),
        known(v, g),
        held(vars, g),
        bind_at(p, vars, g, v, names, fields, i).0.slots.len() <= usize::MAX,
    ensures
        ({
            let (h, after) = bind_at(p, vars, g, v, names, fields, i);
            held(after, h) && grown(vars, after, g)
        }),
    decreases names.len() - i,
{
    parts_of_bind(p, vars, g, v, names, fields, i);
    if i < names.len() {
        let t = payload_ty(p, fields, i);
        let r = load_row(basic_ty(t), (i + 1) as usize);
        let (g1, x) = placed_row(g, r, seq![v]);
        let slot = g1.slots.len() as usize;
        let g2 = set_var(new_slot(g1, basic_ty(t)), slot, x);
        assert(all_known(seq![v], g));
        lemma_placed_row(g, r, seq![v]);
        lemma_set_shape(g1, basic_ty(t), slot, x);
        lemma_extends(g, g1, g2);
        lemma_known(v, g, g2);
        let more = with_var(vars, names[i], slot, t);
        let (h, after) = bind_at(p, more, g2, v, names, fields, i + 1);
        lemma_bind_shape(p, more, g2, v, names, fields, i + 1);
        lemma_grows(g2, h);
        lemma_held(vars, g, g1);
        lemma_held_more(vars, names[i], t, g1, g2);
        lemma_bind_after(p, more, g2, v, names, fields, i + 1);
        lemma_grown(vars, more, after, g1, g2);
        lemma_grown_less(vars, after, g, g1);
    } else {
        lemma_grown_self(vars, g);
    }
}

} // verus!
