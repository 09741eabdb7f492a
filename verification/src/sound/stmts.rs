//! The code of statements has types.
use vstd::prelude::*;
#[allow(unused_imports)]
use crate::ast::{EnumDefV, ExprKindV, ExprV, MatchArmV, ProgramV, StmtKindV, StmtV};
#[allow(unused_imports)]
use crate::faithful::anatomy::{code_at, null_at, type_at};
#[allow(unused_imports)]
use crate::faithful::arm_anatomy::{
    arm_fields, arm_gen, arm_is_ok, arm_start, arms_upto, bind_at, match_def, parts_of_bind,
    parts_of_match, payload_ty,
};
#[allow(unused_imports)]
use crate::faithful::machine::placed_row;
#[allow(unused_imports)]
use crate::faithful::stmt_anatomy::{
    arms_ok, below_row, each_head, each_item, each_loop, each_slots, each_start, each_step, is_loop,
    item_ty, keys_row, let_ty, loop_body, loop_init, loop_step, next_row, opt_at, opt_is_named,
    opt_ok, parts_of_assign, parts_of_each, parts_of_if, parts_of_let, parts_of_loop, parts_of_opt,
    parts_of_print, parts_of_small, parts_of_stmts, set_row, slot_in, sole, stmt_at, stmt_ok,
    stmts_at, stmts_ok, with_var,
};
#[allow(unused_imports)]
use crate::ir::{basic_ty, CodeV, IrTy, Op, OpndV, Pred, Rt};
#[allow(unused_imports)]
use crate::lower::is_empty;
#[allow(unused_imports)]
use crate::lowering::{
    closes, emit, inner, new_slot, set_var, slot_of, tenv, then_code, ty_of, Arms, Gen, VarV,
};
#[allow(unused_imports)]
use crate::meaning::{item_row, length_row, load_row, print_row, Src, Srcs};
#[allow(unused_imports)]
use crate::sound::code::{
    code_ok, codes_ok, counted, goes_on, is_of, lemma_codes_more, lemma_if, lemma_inner,
    lemma_is_more, lemma_more, lemma_more_at, lemma_on, lemma_on_has, lemma_on_is, lemma_on_put,
    lemma_on_self, lemma_on_slot, lemma_on_then, more, Sigs,
};
#[allow(unused_imports)]
use crate::sound::exprs::{fit_for, lemma_expr, lemma_fit_on, lemma_null, lemma_store};
#[allow(unused_imports)]
use crate::sound::fits::{
    fits_elem_set, fits_item, fits_length, fits_load, fits_map_put, fits_print, fits_single,
    lemma_fits_basic,
};
#[allow(unused_imports)]
use crate::sound::once::{
    fills, fills_cases, fills_in, lemma_fills_case, lemma_fills_if, lemma_fills_jump,
    lemma_fills_loop, lemma_fills_none, lemma_fills_switch,
};
#[allow(unused_imports)]
use crate::sound::rows::{fits, lemma_parts, lemma_row, made, row_fits};
#[allow(unused_imports)]
use crate::sound::types::{accepted, held_as, lemma_accepted, types_of_field, types_of_index};
#[allow(unused_imports)]
use crate::sound::vars::{lemma_slot_of, lemma_vars_on, lemma_vars_push, vars_ok};
#[allow(unused_imports)]
use crate::types::Ty;
#[allow(unused_imports)]
use crate::typing::{caught, check_arms, lookup, looped, pattern_ok, resolve, Place};

verus! {

/// What everything around a statement is to be.
pub open spec fn fit_at(sigs: Sigs, cx: Place, vars: Seq<VarV>, g: Gen) -> bool {
    fit_for(sigs, cx.prog, vars, g) && sigs.ret == basic_ty(cx.ret)
}

/// The code of a statement has types, and the variables after it have room.
pub open spec fn stmt_sound(sigs: Sigs, cx: Place, vars: Seq<VarV>, g: Gen, s: StmtV) -> bool {
    let (h, after) = stmt_at(cx.prog, vars, g, s);
    goes_on(sigs, g, h) && vars_ok(after, h)
}

// The types of the parts.

proof fn types_of_let(cx: Place, vars: Seq<VarV>, s: StmtV)
    requires
        stmt_ok(cx, vars, s),
        s.kind is Let,
    ensures
        accepted(cx.prog, vars, s.kind->Let_value) || is_empty(s.kind->Let_value),
        held_as(cx.prog, vars, s.kind->Let_value) == basic_ty(let_ty(cx.prog, vars, s)),
{
    reveal(stmt_ok);
    reveal(accepted);
    reveal(held_as);
    reveal(let_ty);
    let (p, e) = (cx.prog, s.kind->Let_value);
    if accepted(p, vars, e) {
        if let Some(t) = s.kind->Let_ty {
            if !is_empty(e) {
                lemma_fits_basic(resolve(p, t), ty_of(p, vars, e));
            }
        }
    }
}

proof fn types_of_assign(cx: Place, vars: Seq<VarV>, s: StmtV)
    requires
        stmt_ok(cx, vars, s),
        s.kind is Assign,
    ensures
        ({
            let p = cx.prog;
            let (target, x) = (s.kind->Assign_target, s.kind->Assign_value);
            &&& accepted(p, vars, x)
            &&& accepted(p, vars, target)
            &&& basic_ty(type_at(p, vars, target)) == basic_ty(type_at(p, vars, x))
            &&& match target.kind {
                ExprKindV::Var(name) => lookup(tenv(vars), name) == Some(type_at(p, vars, target)),
                ExprKindV::Index { array, .. } => !(type_at(p, vars, *array) is Str),
                ExprKindV::Field { .. } => true,
                _ => false,
            }
        }),
{
    reveal(stmt_ok);
    reveal(accepted);
    reveal(type_at);
    let p = cx.prog;
    let (target, x) = (s.kind->Assign_target, s.kind->Assign_value);
    lemma_fits_basic(ty_of(p, vars, target), ty_of(p, vars, x));
}

proof fn types_of_small(cx: Place, vars: Seq<VarV>, s: StmtV)
    requires
        stmt_ok(cx, vars, s),
    ensures
        s.kind is Print ==> accepted(cx.prog, vars, sole(s)) && {
            let t = type_at(cx.prog, vars, sole(s));
            t is Int || t is Float || t is Bool || t is Str
        },
        s.kind is Return ==> accepted(cx.prog, vars, sole(s)) && basic_ty(
            type_at(cx.prog, vars, sole(s)),
        ) == basic_ty(cx.ret),
        s.kind is ExprStmt ==> accepted(cx.prog, vars, sole(s)),
        s.kind is If ==> accepted(cx.prog, vars, sole(s)) && type_at(cx.prog, vars, sole(s))
            is Bool,
        s.kind is Match ==> accepted(cx.prog, vars, sole(s)) && type_at(cx.prog, vars, sole(s))
            is Enum,
        s.kind is ForIn ==> accepted(cx.prog, vars, sole(s)) && match type_at(
            cx.prog,
            vars,
            sole(s),
        ) {
            Ty::Array(_) | Ty::MapOf(_) => true,
            _ => false,
        },
{
    reveal(stmt_ok);
    reveal(accepted);
    reveal(type_at);
    if s.kind is Return {
        lemma_fits_basic(cx.ret, ty_of(cx.prog, vars, sole(s)));
    }
}

proof fn types_of_loop(cx: Place, vars: Seq<VarV>, g: Gen, s: StmtV)
    requires
        stmt_ok(cx, vars, s),
        is_loop(s),
    ensures
        ({
            let inside = opt_at(cx.prog, vars, g, loop_init(s)).1;
            accepted(cx.prog, inside, sole(s)) && type_at(cx.prog, inside, sole(s)) is Bool
        }),
{
    parts_of_loop(cx, vars, g, s);
    opt_is_named(cx, vars, g, loop_init(s));
    reveal(stmt_ok);
    reveal(accepted);
    reveal(type_at);
}

// Statements.

/// A new variable with its value.
proof fn lemma_declare(
    sigs: Sigs,
    vars: Seq<VarV>,
    g: Gen,
    name: Seq<char>,
    t: Ty,
    v: OpndV,
)
    requires
        vars_ok(vars, g),
        is_of(g.regs, v, basic_ty(t)),
    ensures
        ({
            let slot = g.slots.len() as usize;
            let h = set_var(new_slot(g, basic_ty(t)), slot, v);
            goes_on(sigs, g, h) && vars_ok(with_var(vars, name, slot, t), h)
        }),
{
    let slot = g.slots.len() as usize;
    let g1 = new_slot(g, basic_ty(t));
    lemma_on_slot(sigs, g, basic_ty(t));
    lemma_vars_push(vars, g, name, t);
    lemma_on_put(sigs, g1, IrTy::I64, Op::SetVar(slot), seq![v], seq![basic_ty(t)]);
    let h = set_var(g1, slot, v);
    lemma_on(sigs, g, g1, h);
    lemma_vars_on(sigs, with_var(vars, name, slot, t), g1, h);
}

/// The code of a statement has types.
pub proof fn lemma_stmt(sigs: Sigs, cx: Place, vars: Seq<VarV>, g: Gen, s: StmtV)
    requires
        fit_at(sigs, cx, vars, g),
        stmt_ok(cx, vars, s),
    ensures
        stmt_sound(sigs, cx, vars, g, s),
    decreases s, 2int,
{
    match s.kind {
        StmtKindV::Let { .. } => {
            let p = cx.prog;
            let x = s.kind->Let_value;
            types_of_let(cx, vars, s);
            parts_of_let(cx, vars, g, s);
            let (g1, v) = code_at(p, vars, g, x);
            lemma_expr(sigs, p, vars, g, x);
            lemma_fit_on(sigs, p, vars, g, g1);
            lemma_declare(sigs, vars, g1, s.kind->Let_name, let_ty(p, vars, s), v);
            lemma_on(sigs, g, g1, stmt_at(p, vars, g, s).0);
        },
        StmtKindV::Assign { .. } => lemma_assign(sigs, cx, vars, g, s),
        StmtKindV::If { .. } => lemma_branch(sigs, cx, vars, g, s),
        StmtKindV::While { .. } => lemma_loop(sigs, cx, vars, g, s),
        StmtKindV::For { .. } => lemma_loop(sigs, cx, vars, g, s),
        StmtKindV::ForIn { .. } => lemma_each(sigs, cx, vars, g, s),
        StmtKindV::Match { .. } => lemma_match(sigs, cx, vars, g, s),
        _ => lemma_small(sigs, cx, vars, g, s),
    }
}

proof fn lemma_small(sigs: Sigs, cx: Place, vars: Seq<VarV>, g: Gen, s: StmtV)
    requires
        fit_at(sigs, cx, vars, g),
        stmt_ok(cx, vars, s),
        s.kind is Print || s.kind is Return || s.kind is ExprStmt || s.kind is Break
            || s.kind is Continue,
    ensures
        stmt_sound(sigs, cx, vars, g, s),
{
    let p = cx.prog;
    let last = stmt_at(p, vars, g, s).0;
    let (g1, v) = code_at(p, vars, g, sole(s));
    parts_of_small(cx, vars, g, s);
    types_of_small(cx, vars, s);
    lemma_on_self(sigs, g);
    lemma_on_has(sigs, g, g);
    if s.kind is Break || s.kind is Continue {
        reveal(code_ok);
        lemma_fills_jump(CodeV::Break, g.regs.len());
        lemma_fills_jump(CodeV::Continue, g.regs.len());
        lemma_on_then(sigs, g, CodeV::Break, g);
        lemma_on_then(sigs, g, CodeV::Continue, g);
    } else {
        let t = type_at(p, vars, sole(s));
        lemma_expr(sigs, p, vars, g, sole(s));
        lemma_accepted(p, vars, sole(s));
        if s.kind is Print {
            parts_of_print(cx, vars, g, s);
            fits_print(t);
            lemma_parts(sigs, g1, print_row(t), seq![v], seq![basic_ty(t)]);
            lemma_on(sigs, g, g1, last);
        } else if s.kind is Return {
            reveal(code_ok);
            lemma_on_self(sigs, g1);
            lemma_on_has(sigs, g1, g1);
            lemma_fills_jump(CodeV::Return(v), g1.regs.len());
            lemma_on_then(sigs, g1, CodeV::Return(v), g1);
            lemma_on(sigs, g, g1, last);
        }
    }
    lemma_fit_on(sigs, p, vars, g, last);
}

/// The parts of the target of an assignment to an element have these types.
proof fn fits_target(p: ProgramV, vars: Seq<VarV>, target: ExprV, x: ExprV)
    requires
        accepted(p, vars, target),
        accepted(p, vars, x),
        target.kind is Index,
        basic_ty(type_at(p, vars, target)) == basic_ty(type_at(p, vars, x)),
        !(type_at(p, vars, *target.kind->Index_array) is Str),
    ensures
        fits(
            set_row(p, vars, *target.kind->Index_array, x),
            seq![
                IrTy::Ptr,
                basic_ty(type_at(p, vars, *target.kind->Index_index)),
                basic_ty(type_at(p, vars, x)),
            ],
        ),
{
    types_of_index(p, vars, target);
    fits_map_put(type_at(p, vars, x));
    fits_elem_set(basic_ty(type_at(p, vars, x)));
    reveal(set_row);
    reveal(type_at);
}

proof fn lemma_assign(sigs: Sigs, cx: Place, vars: Seq<VarV>, g: Gen, s: StmtV)
    requires
        fit_at(sigs, cx, vars, g),
        stmt_ok(cx, vars, s),
        s.kind is Assign,
    ensures
        stmt_sound(sigs, cx, vars, g, s),
{
    let p = cx.prog;
    let last = stmt_at(p, vars, g, s).0;
    parts_of_assign(cx, vars, g, s);
    types_of_assign(cx, vars, s);
    let (target, x) = (s.kind->Assign_target, s.kind->Assign_value);
    let (g1, v) = code_at(p, vars, g, x);
    let t = basic_ty(type_at(p, vars, x));
    lemma_expr(sigs, p, vars, g, x);
    lemma_accepted(p, vars, x);
    lemma_fit_on(sigs, p, vars, g, g1);
    match target.kind {
        ExprKindV::Var(name) => {
            if counted(g1) {
                lemma_slot_of(vars, g1, name);
            }
            let op = Op::SetVar(slot_of(vars, name));
            lemma_on_put(sigs, g1, IrTy::I64, op, seq![v], seq![t]);
            lemma_on(sigs, g, g1, last);
        },
        ExprKindV::Index { array, index } => {
            types_of_index(p, vars, target);
            let (g2, a) = code_at(p, vars, g1, *array);
            lemma_expr(sigs, p, vars, g1, *array);
            lemma_accepted(p, vars, *array);
            lemma_accepted(p, vars, *index);
            let g3 = null_at(g2, a);
            lemma_null(sigs, g2, a);
            lemma_on(sigs, g1, g2, g3);
            lemma_fit_on(sigs, p, vars, g1, g3);
            let (g4, i) = code_at(p, vars, g3, *index);
            lemma_expr(sigs, p, vars, g3, *index);
            lemma_on(sigs, g1, g3, g4);
            lemma_on_is(sigs, g1, g4, v, t);
            lemma_on_is(sigs, g3, g4, a, IrTy::Ptr);
            fits_target(p, vars, target, x);
            lemma_parts(
                sigs,
                g4,
                set_row(p, vars, *array, x),
                seq![a, i, v],
                seq![IrTy::Ptr, basic_ty(type_at(p, vars, *index)), t],
            );
            lemma_on(sigs, g, g1, g4);
            lemma_on(sigs, g, g4, last);
        },
        ExprKindV::Field { obj, field } => {
            types_of_field(p, vars, target);
            let (g2, o) = code_at(p, vars, g1, *obj);
            lemma_expr(sigs, p, vars, g1, *obj);
            lemma_accepted(p, vars, *obj);
            let g3 = null_at(g2, o);
            lemma_null(sigs, g2, o);
            lemma_on(sigs, g1, g2, g3);
            lemma_on_is(sigs, g1, g3, v, t);
            lemma_store(sigs, g3, o, slot_in(p, vars, *obj, field), v, t);
            lemma_on(sigs, g, g1, g3);
            lemma_on(sigs, g, g3, last);
        },
        _ => {},
    }
    lemma_fit_on(sigs, p, vars, g, last);
}

proof fn lemma_branch(sigs: Sigs, cx: Place, vars: Seq<VarV>, g: Gen, s: StmtV)
    requires
        fit_at(sigs, cx, vars, g),
        stmt_ok(cx, vars, s),
        s.kind is If,
    ensures
        stmt_sound(sigs, cx, vars, g, s),
    decreases s, 0int,
{
    let p = cx.prog;
    parts_of_if(cx, vars, g, s);
    types_of_small(cx, vars, s);
    let (g1, c) = code_at(p, vars, g, sole(s));
    lemma_expr(sigs, p, vars, g, sole(s));
    lemma_accepted(p, vars, sole(s));
    lemma_fit_on(sigs, p, vars, g, g1);
    let t = stmts_at(p, vars, inner(g1), s.kind->If_then_body, 0);
    lemma_stmts(sigs, cx, vars, inner(g1), s.kind->If_then_body, 0);
    lemma_inner(sigs, g1, t);
    lemma_fit_on(sigs, p, vars, inner(g1), t);
    let e = stmts_at(p, vars, inner(t), s.kind->If_else_body, 0);
    lemma_stmts(sigs, cx, vars, inner(t), s.kind->If_else_body, 0);
    lemma_inner(sigs, t, e);
    lemma_more(g1.regs, t.regs, e.regs);
    lemma_more(g1.slots, t.slots, e.slots);
    let code = CodeV::If { cond: c, then: t.code, els: e.code };
    if counted(e) {
        lemma_is_more(g1.regs, e.regs, c, IrTy::I1);
        lemma_codes_more(sigs, t, e, t.code);
        lemma_if(sigs, e, c, t.code, e.code);
    }
    lemma_fills_if(c, t.code, e.code, g1.regs.len(), t.regs.len(), e.regs.len());
    lemma_on_then(sigs, g1, code, e);
    lemma_on(sigs, g, g1, then_code(g1, code, e));
    lemma_fit_on(sigs, p, vars, g, then_code(g1, code, e));
}

/// A loop, from the code of its parts.
proof fn lemma_round(sigs: Sigs, g: Gen, h: Gen, c: OpndV, b: Gen, st: Gen)
    requires
        goes_on(sigs, inner(g), h),
        is_of(h.regs, c, IrTy::I1),
        goes_on(sigs, inner(h), b),
        goes_on(sigs, inner(b), st),
    ensures
        ({
            let code = CodeV::Loop { head: h.code, cond: c, body: b.code, step: st.code };
            goes_on(sigs, g, then_code(g, code, st))
        }),
{
    let code = CodeV::Loop { head: h.code, cond: c, body: b.code, step: st.code };
    lemma_inner(sigs, g, h);
    lemma_inner(sigs, h, b);
    lemma_inner(sigs, b, st);
    lemma_more(h.regs, b.regs, st.regs);
    lemma_more(h.slots, b.slots, st.slots);
    lemma_more(g.regs, h.regs, st.regs);
    lemma_more(g.slots, h.slots, st.slots);
    if counted(st) {
        lemma_is_more(h.regs, st.regs, c, IrTy::I1);
        lemma_codes_more(sigs, h, st, h.code);
        lemma_codes_more(sigs, b, st, b.code);
        assert(code_ok(sigs, st.regs, st.slots, code)) by {
            reveal(code_ok);
        }
    }
    lemma_fills_loop(
        h.code,
        c,
        b.code,
        st.code,
        g.regs.len(),
        h.regs.len(),
        b.regs.len(),
        st.regs.len(),
    );
    lemma_on_then(sigs, g, code, st);
}

proof fn lemma_loop(sigs: Sigs, cx: Place, vars: Seq<VarV>, g: Gen, s: StmtV)
    requires
        fit_at(sigs, cx, vars, g),
        stmt_ok(cx, vars, s),
        is_loop(s),
    ensures
        stmt_sound(sigs, cx, vars, g, s),
    decreases s, 1int,
{
    let p = cx.prog;
    let last = stmt_at(p, vars, g, s).0;
    parts_of_loop(cx, vars, g, s);
    types_of_loop(cx, vars, g, s);
    let (g1, inside) = opt_at(p, vars, g, loop_init(s));
    if s.kind is For {
        lemma_opt(sigs, cx, vars, g, s.kind->For_init);
    } else {
        parts_of_opt(cx, vars, g, None);
        lemma_on_self(sigs, g);
    }
    lemma_on_self(sigs, g1);
    lemma_fit_on(sigs, p, inside, g1, g1);
    let (h, c) = code_at(p, inside, inner(g1), sole(s));
    lemma_expr(sigs, p, inside, inner(g1), sole(s));
    lemma_accepted(p, inside, sole(s));
    lemma_fit_on(sigs, p, inside, inner(g1), h);
    let bg = stmts_at(p, inside, inner(h), loop_body(s), 0);
    lemma_stmts(sigs, looped(cx), inside, inner(h), loop_body(s), 0);
    lemma_fit_on(sigs, p, inside, inner(h), bg);
    let (st, _) = opt_at(p, inside, inner(bg), loop_step(s));
    if s.kind is For {
        lemma_opt(sigs, cx, inside, inner(bg), s.kind->For_step);
    } else {
        parts_of_opt(cx, inside, inner(bg), None);
        lemma_on_self(sigs, inner(bg));
    }
    lemma_round(sigs, g1, h, c, bg, st);
    lemma_on(sigs, g, g1, last);
    lemma_fit_on(sigs, p, vars, g, last);
}

/// A loop over a collection up to where its length is known.
proof fn lemma_each_start(sigs: Sigs, cx: Place, vars: Seq<VarV>, g: Gen, s: StmtV)
    requires
        fit_at(sigs, cx, vars, g),
        stmt_ok(cx, vars, s),
        s.kind is ForIn,
    ensures
        ({
            let (g4, len, arr) = each_start(cx.prog, vars, g, s);
            &&& goes_on(sigs, g, g4)
            &&& is_of(g4.regs, len, IrTy::I64)
            &&& is_of(g4.regs, arr, IrTy::Ptr)
        }),
{
    let p = cx.prog;
    types_of_small(cx, vars, s);
    let ty = type_at(p, vars, sole(s));
    let (g1, it) = code_at(p, vars, g, sole(s));
    lemma_expr(sigs, p, vars, g, sole(s));
    lemma_accepted(p, vars, sole(s));
    let g2 = null_at(g1, it);
    lemma_null(sigs, g1, it);
    let (g3, arr) = placed_row(g2, keys_row(ty), seq![it]);
    fits_keys(ty);
    lemma_row(sigs, g2, keys_row(ty), seq![it], seq![IrTy::Ptr], IrTy::Ptr);
    let (g4, len) = placed_row(g3, length_row(Ty::Null), seq![arr]);
    fits_length(Ty::Null);
    lemma_row(sigs, g3, length_row(Ty::Null), seq![arr], seq![IrTy::Ptr], IrTy::I64);
    lemma_on_is(sigs, g3, g4, arr, IrTy::Ptr);
    lemma_on(sigs, g, g1, g2);
    lemma_on(sigs, g, g2, g3);
    lemma_on(sigs, g, g3, g4);
}

proof fn fits_keys(ty: Ty)
    ensures
        row_fits(keys_row(ty), seq![IrTy::Ptr], IrTy::Ptr),
{
    reveal(keys_row);
    if ty is MapOf {
        fits_single(IrTy::Ptr, Op::Rt(Rt::MapKeys), Srcs::S1(Src::In(0)), seq![IrTy::Ptr]);
    } else {
        reveal(fits);
        reveal(made);
    }
}

proof fn fits_each()
    ensures
        row_fits(below_row(), seq![IrTy::I64, IrTy::I64], IrTy::I1),
        row_fits(next_row(), seq![IrTy::I64], IrTy::I64),
{
    reveal(below_row);
    reveal(next_row);
    let two = Srcs::S2(Src::In(0), Src::In(1));
    fits_single(IrTy::I1, Op::ICmp(Pred::Below), two, seq![IrTy::I64, IrTy::I64]);
    let one = Srcs::S2(Src::In(0), Src::Konst(OpndV::Int(1)));
    fits_single(IrTy::I64, Op::Add, one, seq![IrTy::I64]);
}

/// The variables of such a loop.
proof fn lemma_each_slots(
    sigs: Sigs,
    vars: Seq<VarV>,
    g: Gen,
    name: Seq<char>,
    t: Ty,
)
    requires
        vars_ok(vars, g),
    ensures
        ({
            let (h, i_slot, slot) = each_slots(g, basic_ty(t));
            &&& goes_on(sigs, g, h)
            &&& vars_ok(with_var(vars, name, slot, t), h)
            &&& counted(h) ==> i_slot < h.slots.len() && h.slots[i_slot as int] == IrTy::I64
            &&& counted(h) ==> slot < h.slots.len() && h.slots[slot as int] == basic_ty(t)
        }),
{
    let i_slot = g.slots.len() as usize;
    let g5 = new_slot(g, IrTy::I64);
    let g6 = set_var(g5, i_slot, OpndV::Int(0));
    let h = new_slot(g6, basic_ty(t));
    lemma_on_slot(sigs, g, IrTy::I64);
    lemma_on_put(sigs, g5, IrTy::I64, Op::SetVar(i_slot), seq![OpndV::Int(0)], seq![IrTy::I64]);
    lemma_on(sigs, g, g5, g6);
    lemma_vars_on(sigs, vars, g, g6);
    lemma_vars_push(vars, g6, name, t);
    lemma_on_slot(sigs, g6, basic_ty(t));
    lemma_on(sigs, g, g6, h);
}

proof fn lemma_each(sigs: Sigs, cx: Place, vars: Seq<VarV>, g: Gen, s: StmtV)
    requires
        fit_at(sigs, cx, vars, g),
        stmt_ok(cx, vars, s),
        s.kind is ForIn,
    ensures
        stmt_sound(sigs, cx, vars, g, s),
    decreases s, 1int,
{
    let p = cx.prog;
    let last = stmt_at(p, vars, g, s).0;
    parts_of_each(cx, vars, g, s);
    lemma_each_start(sigs, cx, vars, g, s);
    let t = item_ty(p, vars, sole(s));
    let (g4, len, arr) = each_start(p, vars, g, s);
    let (g7, i_slot, slot) = each_slots(g4, basic_ty(t));
    lemma_fit_on(sigs, p, vars, g, g4);
    lemma_each_slots(sigs, vars, g4, s.kind->ForIn_var, t);
    lemma_on_is(sigs, g4, g7, len, IrTy::I64);
    lemma_on_is(sigs, g4, g7, arr, IrTy::Ptr);
    lemma_each_loop(sigs, cx, vars, g7, len, arr, i_slot, slot, t, s);
    lemma_on(sigs, g, g4, g7);
    lemma_on(sigs, g, g7, last);
    lemma_fit_on(sigs, p, vars, g, last);
}

/// The condition of such a loop, and its body before the statements.
proof fn lemma_each_head(
    sigs: Sigs,
    g: Gen,
    len: OpndV,
    arr: OpndV,
    i_slot: usize,
    slot: usize,
    ty: IrTy,
)
    requires
        is_of(g.regs, len, IrTy::I64),
        is_of(g.regs, arr, IrTy::Ptr),
        counted(g) ==> i_slot < g.slots.len() && g.slots[i_slot as int] == IrTy::I64,
        counted(g) ==> slot < g.slots.len() && g.slots[slot as int] == ty,
    ensures
        ({
            let (h, i, c) = each_head(g, len, i_slot);
            let b3 = each_item(h, arr, i, slot, ty);
            &&& goes_on(sigs, inner(g), h)
            &&& is_of(h.regs, c, IrTy::I1)
            &&& goes_on(sigs, inner(h), b3)
        }),
{
    fits_each();
    let h0 = inner(g);
    let (h1, i) = emit(h0, IrTy::I64, Op::GetVar(i_slot), Seq::empty());
    lemma_on_put(sigs, h0, IrTy::I64, Op::GetVar(i_slot), Seq::empty(), Seq::empty());
    lemma_on_is(sigs, h0, h1, len, IrTy::I64);
    lemma_on_is(sigs, h0, h1, arr, IrTy::Ptr);
    let (h, c) = placed_row(h1, below_row(), seq![i, len]);
    lemma_row(sigs, h1, below_row(), seq![i, len], seq![IrTy::I64, IrTy::I64], IrTy::I1);
    lemma_on(sigs, h0, h1, h);
    lemma_on_is(sigs, h1, h, i, IrTy::I64);
    lemma_on_is(sigs, h1, h, arr, IrTy::Ptr);
    fits_item(ty);
    let (b2, x) = placed_row(inner(h), item_row(ty), seq![arr, i]);
    lemma_row(sigs, inner(h), item_row(ty), seq![arr, i], seq![IrTy::Ptr, IrTy::I64], ty);
    lemma_on_has(sigs, h0, h);
    lemma_on_has(sigs, inner(h), b2);
    lemma_more(g.slots, h.slots, b2.slots);
    if counted(b2) {
        lemma_more_at(g.slots, b2.slots, slot as int);
    }
    lemma_on_put(sigs, b2, IrTy::I64, Op::SetVar(slot), seq![x], seq![ty]);
    lemma_on(sigs, inner(h), b2, set_var(b2, slot, x));
}

/// The end of a turn of such a loop.
proof fn lemma_each_step(sigs: Sigs, g: Gen, i_slot: usize)
    requires
        counted(g) ==> i_slot < g.slots.len() && g.slots[i_slot as int] == IrTy::I64,
    ensures
        goes_on(sigs, inner(g), each_step(g, i_slot)),
{
    fits_each();
    let g0 = inner(g);
    let (s1, j) = emit(g0, IrTy::I64, Op::GetVar(i_slot), Seq::empty());
    lemma_on_put(sigs, g0, IrTy::I64, Op::GetVar(i_slot), Seq::empty(), Seq::empty());
    let (s2, next) = placed_row(s1, next_row(), seq![j]);
    lemma_row(sigs, s1, next_row(), seq![j], seq![IrTy::I64], IrTy::I64);
    lemma_on(sigs, g0, s1, s2);
    lemma_on_has(sigs, g0, s2);
    if counted(s2) {
        lemma_more_at(g.slots, s2.slots, i_slot as int);
    }
    lemma_on_put(sigs, s2, IrTy::I64, Op::SetVar(i_slot), seq![next], seq![IrTy::I64]);
    lemma_on(sigs, g0, s2, set_var(s2, i_slot, next));
}

proof fn lemma_each_loop(
    sigs: Sigs,
    cx: Place,
    vars: Seq<VarV>,
    g: Gen,
    len: OpndV,
    arr: OpndV,
    i_slot: usize,
    slot: usize,
    t: Ty,
    s: StmtV,
)
    requires
        s.kind is ForIn,
        fit_at(sigs, cx, with_var(vars, s.kind->ForIn_var, slot, t), g),
        is_of(g.regs, len, IrTy::I64),
        is_of(g.regs, arr, IrTy::Ptr),
        counted(g) ==> i_slot < g.slots.len() && g.slots[i_slot as int] == IrTy::I64,
        counted(g) ==> slot < g.slots.len() && g.slots[slot as int] == basic_ty(t),
        stmts_ok(looped(cx), with_var(vars, s.kind->ForIn_var, slot, t), loop_body(s), 0),
    ensures
        ({
            let (c, last) = each_loop(cx.prog, vars, g, len, arr, i_slot, slot, t, s);
            goes_on(sigs, g, then_code(g, c, last))
        }),
    decreases s, 0int,
{
    let p = cx.prog;
    let inside = with_var(vars, s.kind->ForIn_var, slot, t);
    let (h, i, c) = each_head(g, len, i_slot);
    let b3 = each_item(h, arr, i, slot, basic_ty(t));
    lemma_each_head(sigs, g, len, arr, i_slot, slot, basic_ty(t));
    lemma_on_self(sigs, g);
    lemma_fit_on(sigs, p, inside, g, g);
    lemma_fit_on(sigs, p, inside, inner(g), h);
    lemma_fit_on(sigs, p, inside, inner(h), b3);
    let bg = stmts_at(p, inside, b3, loop_body(s), 0);
    lemma_stmts(sigs, looped(cx), inside, b3, loop_body(s), 0);
    lemma_on(sigs, inner(h), b3, bg);
    lemma_inner(sigs, g, h);
    lemma_inner(sigs, h, bg);
    lemma_more(g.slots, h.slots, bg.slots);
    if counted(bg) {
        lemma_more_at(g.slots, bg.slots, i_slot as int);
    }
    lemma_each_step(sigs, bg, i_slot);
    lemma_round(sigs, g, h, c, bg, each_step(bg, i_slot));
}

/// The names for the payload in an arm.
proof fn lemma_bind(
    sigs: Sigs,
    p: ProgramV,
    vars: Seq<VarV>,
    g: Gen,
    v: OpndV,
    names: Seq<Seq<char>>,
    fields: Seq<Ty>,
    i: int,
)
    requires
        0 <= i <= names.len(),
        is_of(g.regs, v, IrTy::Ptr),
        vars_ok(vars, g),
    ensures
        ({
            let (h, after) = bind_at(p, vars, g, v, names, fields, i);
            goes_on(sigs, g, h) && vars_ok(after, h)
        }),
    decreases names.len() - i,
{
    parts_of_bind(p, vars, g, v, names, fields, i);
    if i < names.len() {
        let t = payload_ty(p, fields, i);
        let r = load_row(basic_ty(t), (i + 1) as usize);
        let (g1, x) = placed_row(g, r, seq![v]);
        fits_load(basic_ty(t), (i + 1) as usize);
        lemma_row(sigs, g, r, seq![v], seq![IrTy::Ptr], basic_ty(t));
        lemma_vars_on(sigs, vars, g, g1);
        lemma_declare(sigs, vars, g1, names[i], t, x);
        let slot = g1.slots.len() as usize;
        let g2 = set_var(new_slot(g1, basic_ty(t)), slot, x);
        lemma_on(sigs, g, g1, g2);
        lemma_on_is(sigs, g, g2, v, IrTy::Ptr);
        let more_vars = with_var(vars, names[i], slot, t);
        lemma_bind(sigs, p, more_vars, g2, v, names, fields, i + 1);
        lemma_on(sigs, g, g2, bind_at(p, more_vars, g2, v, names, fields, i + 1).0);
    } else {
        lemma_on_self(sigs, g);
    }
}

/// The code of an arm.
proof fn lemma_arm(
    sigs: Sigs,
    cx: Place,
    vars: Seq<VarV>,
    last: Gen,
    v: OpndV,
    def: EnumDefV,
    arms: Seq<MatchArmV>,
    k: int,
)
    requires
        fit_at(sigs, cx, vars, inner(last)),
        arms_ok(cx, vars, def, arms),
        is_of(last.regs, v, IrTy::Ptr),
        0 <= k < arms.len(),
    ensures
        goes_on(sigs, inner(last), arm_gen(cx.prog, vars, last, v, def, arms[k])),
    decreases arms[k], 0int,
{
    let p = cx.prog;
    let a = arms[k];
    let (b1, inside) = arm_start(p, vars, last, v, def, a);
    if a.wildcard {
        lemma_on_self(sigs, inner(last));
    } else {
        lemma_bind(sigs, p, vars, inner(last), v, a.bindings, arm_fields(def, a), 0);
    }
    arm_is_ok(cx, vars, last, v, def, arms, k);
    lemma_stmts(sigs, cx, inside, b1, a.body, 0);
    lemma_on(sigs, inner(last), b1, stmts_at(p, inside, b1, a.body, 0));
}

/// The code of all the cases has types.
pub open spec fn cases_ok(sigs: Sigs, out: Arms) -> bool {
    &&& forall|k: int|
        0 <= k < out.cases.len() ==> codes_ok(
            sigs,
            out.last.regs,
            out.last.slots,
            #[trigger] out.cases[k],
        )
    &&& codes_ok(sigs, out.last.regs, out.last.slots, out.default)
}

/// The code of the arms writes each of its registers once, where `caught` says whether one of
/// them takes everything.
pub open spec fn fills_arms(out: Arms, n: nat, caught: bool) -> bool {
    &&& !caught ==> out.default.len() == 0 && fills_cases(out.cases, n, out.last.regs.len())
    &&& caught ==> exists|m: nat|
        n <= m <= out.last.regs.len() && #[trigger] fills_cases(out.cases, n, m) && fills_in(
            out.default,
            m,
            out.last.regs.len(),
        )
}

/// An arm that is accepted has none before it that takes everything.
proof fn lemma_uncaught(cx: Place, vars: Seq<VarV>, def: EnumDefV, arms: Seq<MatchArmV>, k: int)
    requires
        arms_ok(cx, vars, def, arms),
        0 <= k < arms.len(),
    ensures
        !caught(arms, k),
        caught(arms, k + 1) == arms[k].wildcard,
{
    reveal(arms_ok);
    lemma_pattern(cx, tenv(vars), def, arms, 0, k);
    if arms[k].wildcard {
        assert(caught(arms, k + 1));
    }
}

proof fn lemma_pattern(
    cx: Place,
    env: Seq<(Seq<char>, Ty)>,
    def: EnumDefV,
    arms: Seq<MatchArmV>,
    i: int,
    k: int,
)
    requires
        check_arms(cx, env, def, arms, i) is Ok,
        0 <= i <= k < arms.len(),
    ensures
        pattern_ok(def, arms, k) is Ok,
    decreases k - i,
{
    if i < k {
        lemma_pattern(cx, env, def, arms, i + 1, k);
    }
}

/// The code of the first `k` arms.
proof fn lemma_arms(
    sigs: Sigs,
    cx: Place,
    vars: Seq<VarV>,
    g: Gen,
    v: OpndV,
    def: EnumDefV,
    arms: Seq<MatchArmV>,
    k: nat,
)
    requires
        fit_at(sigs, cx, vars, g),
        arms_ok(cx, vars, def, arms),
        is_of(g.regs, v, IrTy::Ptr),
        k <= arms.len(),
    ensures
        ({
            let out = arms_upto(cx.prog, vars, g, v, def, arms, k);
            &&& more(g.regs, out.last.regs)
            &&& more(g.slots, out.last.slots)
            &&& fit_for(sigs, cx.prog, vars, inner(out.last))
            &&& counted(out.last) ==> cases_ok(sigs, out)
            &&& fills_arms(out, g.regs.len(), caught(arms, k as int))
        }),
    decreases arms, k,
{
    if k == 0 {
        lemma_on_self(sigs, g);
        lemma_on_has(sigs, g, g);
        lemma_fit_on(sigs, cx.prog, vars, g, g);
        lemma_fills_none(g.regs.len());
        assert(!caught(arms, 0));
    } else {
        let p = cx.prog;
        let before = arms_upto(p, vars, g, v, def, arms, (k - 1) as nat);
        let out = arms_upto(p, vars, g, v, def, arms, k);
        lemma_arms(sigs, cx, vars, g, v, def, arms, (k - 1) as nat);
        lemma_is_more(g.regs, before.last.regs, v, IrTy::Ptr);
        lemma_arm(sigs, cx, vars, before.last, v, def, arms, k - 1);
        lemma_fit_on(sigs, p, vars, inner(before.last), out.last);
        lemma_inner(sigs, before.last, out.last);
        lemma_more(g.regs, before.last.regs, out.last.regs);
        lemma_more(g.slots, before.last.slots, out.last.slots);
        lemma_uncaught(cx, vars, def, arms, k - 1);
        let (n, m) = (before.last.regs.len(), out.last.regs.len());
        if arms[k - 1].wildcard {
            assert(fills_cases(out.cases, g.regs.len(), n) && fills_in(out.default, n, m));
        } else {
            lemma_fills_case(before.cases, out.last.code, g.regs.len(), n, m);
        }
        if counted(out.last) {
            lemma_cases(sigs, before, out, arms[k - 1].wildcard);
        }
    }
}

proof fn lemma_cases(sigs: Sigs, before: Arms, out: Arms, wildcard: bool)
    requires
        cases_ok(sigs, before),
        more(before.last.regs, out.last.regs),
        more(before.last.slots, out.last.slots),
        codes_ok(sigs, out.last.regs, out.last.slots, out.last.code),
        wildcard ==> out.cases == before.cases && out.default == out.last.code,
        !wildcard ==> out.cases == before.cases.push(out.last.code) && out.default
            == before.default,
    ensures
        cases_ok(sigs, out),
{
    lemma_codes_more(sigs, before.last, out.last, before.default);
    assert forall|j: int| 0 <= j < out.cases.len() implies codes_ok(
        sigs,
        out.last.regs,
        out.last.slots,
        #[trigger] out.cases[j],
    ) by {
        if j < before.cases.len() {
            assert(codes_ok(sigs, before.last.regs, before.last.slots, before.cases[j]));
            lemma_codes_more(sigs, before.last, out.last, before.cases[j]);
        }
    }
}

proof fn lemma_match(sigs: Sigs, cx: Place, vars: Seq<VarV>, g: Gen, s: StmtV)
    requires
        fit_at(sigs, cx, vars, g),
        stmt_ok(cx, vars, s),
        s.kind is Match,
    ensures
        stmt_sound(sigs, cx, vars, g, s),
    decreases s, 0int,
{
    let p = cx.prog;
    let last = stmt_at(p, vars, g, s).0;
    let arms = s.kind->Match_arms;
    let def = match_def(p, vars, s);
    parts_of_match(cx, vars, g, s);
    types_of_small(cx, vars, s);
    let (g1, v) = code_at(p, vars, g, sole(s));
    lemma_expr(sigs, p, vars, g, sole(s));
    lemma_accepted(p, vars, sole(s));
    let g2 = null_at(g1, v);
    lemma_null(sigs, g1, v);
    let (g3, tag) = placed_row(g2, length_row(Ty::Null), seq![v]);
    fits_length(Ty::Null);
    lemma_row(sigs, g2, length_row(Ty::Null), seq![v], seq![IrTy::Ptr], IrTy::I64);
    lemma_on_is(sigs, g2, g3, v, IrTy::Ptr);
    lemma_on(sigs, g, g1, g2);
    lemma_on(sigs, g, g2, g3);
    lemma_fit_on(sigs, p, vars, g, g3);
    let out = arms_upto(p, vars, g3, v, def, arms, arms.len());
    lemma_arms(sigs, cx, vars, g3, v, def, arms, arms.len());
    let c = CodeV::Switch { on: tag, tags: out.tags, cases: out.cases, default: out.default };
    if counted(out.last) {
        lemma_is_more(g3.regs, out.last.regs, tag, IrTy::I64);
        lemma_switch(sigs, out, tag);
    }
    lemma_fills_arms(out, g3.regs.len(), caught(arms, arms.len() as int), tag);
    lemma_on_then(sigs, g3, c, out.last);
    lemma_on(sigs, g, g3, last);
    lemma_fit_on(sigs, p, vars, g, last);
}

proof fn lemma_fills_arms(out: Arms, n: nat, caught: bool, tag: OpndV)
    requires
        fills_arms(out, n, caught),
        n <= out.last.regs.len(),
    ensures
        fills(
            CodeV::Switch { on: tag, tags: out.tags, cases: out.cases, default: out.default },
            n,
            out.last.regs.len(),
        ),
{
    let end = out.last.regs.len();
    let m = if caught {
        choose|m: nat|
            n <= m <= end && #[trigger] fills_cases(out.cases, n, m) && fills_in(
                out.default,
                m,
                end,
            )
    } else {
        end
    };
    if !caught {
        assert(out.default =~= Seq::empty());
        lemma_fills_none(end);
    }
    lemma_fills_switch(tag, out.tags, out.cases, out.default, n, m, end);
}

proof fn lemma_switch(sigs: Sigs, out: Arms, tag: OpndV)
    requires
        cases_ok(sigs, out),
        is_of(out.last.regs, tag, IrTy::I64),
    ensures
        code_ok(
            sigs,
            out.last.regs,
            out.last.slots,
            CodeV::Switch { on: tag, tags: out.tags, cases: out.cases, default: out.default },
        ),
{
    reveal(code_ok);
    let (regs, slots, cases) = (out.last.regs, out.last.slots, out.cases);
    assert forall|k: int, m: int|
        0 <= k < cases.len() && 0 <= m < cases[k].len() implies code_ok(
        sigs,
        regs,
        slots,
        #[trigger] cases[k][m],
    ) by {
        assert(codes_ok(sigs, regs, slots, cases[k]));
    }
}

proof fn lemma_opt(sigs: Sigs, cx: Place, vars: Seq<VarV>, g: Gen, s: Option<Box<StmtV>>)
    requires
        fit_at(sigs, cx, vars, g),
        opt_ok(cx, vars, s),
    ensures
        ({
            let (h, after) = opt_at(cx.prog, vars, g, s);
            goes_on(sigs, g, h) && vars_ok(after, h)
        }),
    decreases s, 0int,
{
    parts_of_opt(cx, vars, g, s);
    match s {
        Some(x) => lemma_stmt(sigs, cx, vars, g, *x),
        None => lemma_on_self(sigs, g),
    }
}

/// The code of the statements from `i` on has types.
pub proof fn lemma_stmts(
    sigs: Sigs,
    cx: Place,
    vars: Seq<VarV>,
    g: Gen,
    ss: Seq<StmtV>,
    i: int,
)
    requires
        fit_at(sigs, cx, vars, g),
        stmts_ok(cx, vars, ss, i),
        0 <= i <= ss.len(),
    ensures
        goes_on(sigs, g, stmts_at(cx.prog, vars, g, ss, i)),
    decreases ss, ss.len() - i,
{
    parts_of_stmts(cx, vars, g, ss, i);
    if i < ss.len() {
        let (g1, after) = stmt_at(cx.prog, vars, g, ss[i]);
        lemma_stmt(sigs, cx, vars, g, ss[i]);
        if !closes(ss[i]) {
            lemma_stmts(sigs, cx, after, g1, ss, i + 1);
            lemma_on(sigs, g, g1, stmts_at(cx.prog, after, g1, ss, i + 1));
        }
    } else {
        lemma_on_self(sigs, g);
    }
}

} // verus!
