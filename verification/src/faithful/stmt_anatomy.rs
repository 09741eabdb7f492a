//! What the code and the meaning of a statement are made of.
use vstd::prelude::*;
#[allow(unused_imports)]
use crate::ast::{EnumDefV, ExprKindV, ExprV, MatchArmV, ProgramV, StmtKindV, StmtV};
#[allow(unused_imports)]
use crate::diagnostics::DiagV;
#[allow(unused_imports)]
use crate::faithful::anatomy::{code_at, null_at, sense, store_at, type_at, typed};
#[allow(unused_imports)]
use crate::faithful::machine::{parts_ok, placed, placed_row};
#[allow(unused_imports)]
use crate::faithful::rowcode::{
    code_elem_set, code_item, code_length, code_load, code_map_put, code_null, code_print,
    code_single, code_store, row_ok,
};
#[allow(unused_imports)]
use crate::ir::{basic_ty, CodeV, IrTy, Op, OpndV, Pred, Rt};
#[allow(unused_imports)]
use crate::lowering::{
    closes, emit, field_slot, inner, lower, lower_opt, lower_stmt, lower_stmts, new_slot, set_var,
    slot_of, tenv, then_code, ty_of, Gen, VarV,
};
#[allow(unused_imports)]
use crate::meaning::{
    counted, cut, effect, elem_set_row, ended, expr, item_row, items, length_row, load_row,
    map_put_row, names_after, names_after_opt, null_row, opt, print_row, row, row_from, same,
    single, src_vals, stepped, stmt, stmts, store_row, turns, value_of, var_index, After, Base,
    Done, Part, Row, Src, Srcs, Value,
};
#[allow(unused_imports)]
use crate::types::Ty;
#[allow(unused_imports)]
use crate::typing::{
    check_arms, check_opt, check_stmt, check_stmts, item_type, let_type, looped, Place,
};
#[allow(unused_imports)]
use crate::typing;

verus! {

/// A statement that the type checker accepts.
#[verifier::opaque]
pub open spec fn stmt_ok(cx: Place, vars: Seq<VarV>, s: StmtV) -> bool {
    check_stmt(cx, tenv(vars), s) is Ok
}

#[verifier::opaque]
pub open spec fn opt_ok(cx: Place, vars: Seq<VarV>, s: Option<Box<StmtV>>) -> bool {
    check_opt(cx, tenv(vars), s) is Ok
}

#[verifier::opaque]
pub open spec fn stmts_ok(cx: Place, vars: Seq<VarV>, ss: Seq<StmtV>, i: int) -> bool {
    check_stmts(cx, tenv(vars), ss, i) is Ok
}

#[verifier::opaque]
pub open spec fn arms_ok(cx: Place, vars: Seq<VarV>, def: EnumDefV, arms: Seq<MatchArmV>) -> bool {
    check_arms(cx, tenv(vars), def, arms, 0) is Ok
}

// The code of the parts.

#[verifier::opaque]
pub open spec fn stmt_at(p: ProgramV, vars: Seq<VarV>, g: Gen, s: StmtV) -> (Gen, Seq<VarV>) {
    lower_stmt(p, vars, g, s)
}

#[verifier::opaque]
pub open spec fn opt_at(p: ProgramV, vars: Seq<VarV>, g: Gen, s: Option<Box<StmtV>>) -> (
    Gen,
    Seq<VarV>,
) {
    lower_opt(p, vars, g, s)
}

#[verifier::opaque]
pub open spec fn stmts_at(p: ProgramV, vars: Seq<VarV>, g: Gen, ss: Seq<StmtV>, i: int) -> Gen {
    lower_stmts(p, vars, g, ss, i)
}

// The meaning of the parts.

#[verifier::opaque]
pub open spec fn stmt_sense<V, W>(
    b: Base<V, W>,
    p: ProgramV,
    vars: Seq<VarV>,
    vals: Seq<V>,
    s: StmtV,
    w: W,
    fuel: nat,
) -> Option<After<V, W>> {
    stmt(b, p, tenv(vars), vals, s, w, fuel)
}

#[verifier::opaque]
pub open spec fn opt_sense<V, W>(
    b: Base<V, W>,
    p: ProgramV,
    vars: Seq<VarV>,
    vals: Seq<V>,
    s: Option<Box<StmtV>>,
    w: W,
    fuel: nat,
) -> Option<After<V, W>> {
    opt(b, p, tenv(vars), vals, s, w, fuel)
}

#[verifier::opaque]
pub open spec fn stmts_sense<V, W>(
    b: Base<V, W>,
    p: ProgramV,
    vars: Seq<VarV>,
    vals: Seq<V>,
    ss: Seq<StmtV>,
    i: int,
    w: W,
    fuel: nat,
) -> Option<After<V, W>> {
    stmts(b, p, tenv(vars), vals, ss, i, w, fuel)
}

#[verifier::opaque]
pub open spec fn turns_sense<V, W>(
    b: Base<V, W>,
    p: ProgramV,
    vars: Seq<VarV>,
    vals: Seq<V>,
    s: StmtV,
    w: W,
    fuel: nat,
) -> Option<After<V, W>> {
    turns(b, p, tenv(vars), vals, s, w, fuel)
}

#[verifier::opaque]
pub open spec fn items_sense<V, W>(
    b: Base<V, W>,
    p: ProgramV,
    vars: Seq<VarV>,
    vals: Seq<V>,
    s: StmtV,
    len: V,
    arr: V,
    i: V,
    w: W,
    fuel: nat,
) -> Option<After<V, W>> {
    items(b, p, tenv(vars), vals, s, len, arr, i, w, fuel)
}

/// The variables with one more.
pub open spec fn with_var(vars: Seq<VarV>, name: Seq<char>, slot: usize, ty: Ty) -> Seq<VarV> {
    vars.push(VarV { name, slot, ty })
}

pub proof fn lemma_tenv_push(vars: Seq<VarV>, name: Seq<char>, slot: usize, ty: Ty)
    ensures
        tenv(with_var(vars, name, slot, ty)) == tenv(vars).push((name, ty)),
{
    assert(tenv(with_var(vars, name, slot, ty)) =~= tenv(vars).push((name, ty)));
}

// Declarations.

#[verifier::opaque]
pub open spec fn let_ty(p: ProgramV, vars: Seq<VarV>, s: StmtV) -> Ty {
    let_type(p, tenv(vars), s.kind->Let_ty, s.kind->Let_value, s.span)->Ok_0
}

pub proof fn parts_of_let(cx: Place, vars: Seq<VarV>, g: Gen, s: StmtV)
    requires
        stmt_ok(cx, vars, s),
        s.kind is Let,
    ensures
        ({
            let x = s.kind->Let_value;
            let t = let_ty(cx.prog, vars, s);
            let (g1, v) = code_at(cx.prog, vars, g, x);
            let slot = g1.slots.len() as usize;
            &&& typed(cx.prog, vars, x)
            &&& stmt_at(cx.prog, vars, g, s) == (
                set_var(new_slot(g1, basic_ty(t)), slot, v),
                with_var(vars, s.kind->Let_name, slot, t),
            )
        }),
{
    reveal(stmt_ok);
    reveal(stmt_at);
    reveal(typed);
    reveal(code_at);
    reveal(let_ty);
}

pub proof fn sense_of_let<V, W>(
    b: Base<V, W>,
    p: ProgramV,
    vars: Seq<VarV>,
    vals: Seq<V>,
    s: StmtV,
    w: W,
    fuel: nat,
)
    requires
        s.kind is Let,
    ensures
        stmt_sense(b, p, vars, vals, s, w, fuel) == match sense(
            b,
            p,
            vars,
            vals,
            s.kind->Let_value,
            w,
        ) {
            Value::Is(v, w1) => Some(After::Next(vals.push(v), w1)),
            other => ended(other),
        },
{
    reveal(stmt_sense);
    reveal(sense);
}

// Assignments.

#[verifier::opaque]
pub open spec fn set_row(p: ProgramV, vars: Seq<VarV>, array: ExprV, value: ExprV) -> Seq<Part> {
    if ty_of(p, vars, array) is MapOf {
        map_put_row(ty_of(p, vars, value))
    } else {
        elem_set_row()
    }
}

#[verifier::opaque]
pub open spec fn slot_in(p: ProgramV, vars: Seq<VarV>, obj: ExprV, field: Seq<char>) -> usize {
    field_slot(p, ty_of(p, vars, obj), field)
}

pub proof fn parts_of_assign(cx: Place, vars: Seq<VarV>, g: Gen, s: StmtV)
    requires
        stmt_ok(cx, vars, s),
        s.kind is Assign,
    ensures
        ({
            let p = cx.prog;
            let (target, x) = (s.kind->Assign_target, s.kind->Assign_value);
            let (g1, v) = code_at(p, vars, g, x);
            let last = stmt_at(p, vars, g, s).0;
            &&& typed(p, vars, x)
            &&& stmt_at(p, vars, g, s).1 == vars
            &&& match target.kind {
                ExprKindV::Var(name) => {
                    &&& typing::lookup(tenv(vars), name) is Some
                    &&& last == set_var(g1, slot_of(vars, name), v)
                },
                ExprKindV::Index { array, index } => {
                    let (g2, a) = code_at(p, vars, g1, *array);
                    let g3 = null_at(g2, a);
                    let (g4, i) = code_at(p, vars, g3, *index);
                    let r = set_row(p, vars, *array, x);
                    &&& typed(p, vars, *array)
                    &&& typed(p, vars, *index)
                    &&& parts_ok(r)
                    &&& last == placed(g4, r, seq![a, i, v])
                },
                ExprKindV::Field { obj, field } => {
                    let (g2, o) = code_at(p, vars, g1, *obj);
                    let g3 = null_at(g2, o);
                    &&& typed(p, vars, *obj)
                    &&& last == store_at(g3, o, slot_in(p, vars, *obj, field), v)
                },
                _ => false,
            }
        }),
{
    reveal(stmt_ok);
    reveal(stmt_at);
    reveal(typed);
    reveal(code_at);
    let p = cx.prog;
    let (target, x) = (s.kind->Assign_target, s.kind->Assign_value);
    let (g1, v) = lower(p, vars, g, x);
    match target.kind {
        ExprKindV::Index { array, index } => {
            reveal(set_row);
            let (g2, a) = lower(p, vars, g1, *array);
            code_null(g2, a);
            let (g4, i) = lower(p, vars, null_at(g2, a), *index);
            code_map_put(g4, a, i, v, ty_of(p, vars, x));
            code_elem_set(g4, a, i, v);
        },
        ExprKindV::Field { obj, field } => {
            reveal(slot_in);
            let (g2, o) = lower(p, vars, g1, *obj);
            code_null(g2, o);
            code_store(null_at(g2, o), o, field_slot(p, ty_of(p, vars, *obj), field), v);
        },
        _ => {},
    }
}

pub proof fn sense_of_assign<V, W>(
    b: Base<V, W>,
    p: ProgramV,
    vars: Seq<VarV>,
    vals: Seq<V>,
    s: StmtV,
    w: W,
    fuel: nat,
)
    requires
        s.kind is Assign,
    ensures
        ({
            let (target, x) = (s.kind->Assign_target, s.kind->Assign_value);
            stmt_sense(b, p, vars, vals, s, w, fuel) == match sense(b, p, vars, vals, x, w) {
                Value::Is(v, w1) => match target.kind {
                    ExprKindV::Var(name) => Some(
                        After::Next(vals.update(var_index(tenv(vars), name), v), w1),
                    ),
                    ExprKindV::Index { array, index } => match sense(b, p, vars, vals, *array, w1) {
                        Value::Is(a, w2) => match value_of(b, null_row(), seq![a], w2) {
                            Value::Is(_, w3) => match sense(b, p, vars, vals, *index, w3) {
                                Value::Is(i, w4) => effect(
                                    row(b, set_row(p, vars, *array, x), seq![a, i, v], w4),
                                    vals,
                                ),
                                other => ended(other),
                            },
                            other => ended(other),
                        },
                        other => ended(other),
                    },
                    ExprKindV::Field { obj, field } => match sense(b, p, vars, vals, *obj, w1) {
                        Value::Is(o, w2) => match value_of(b, null_row(), seq![o], w2) {
                            Value::Is(_, w3) => effect(
                                row(b, store_row(slot_in(p, vars, *obj, field)), seq![o, v], w3),
                                vals,
                            ),
                            other => ended(other),
                        },
                        other => ended(other),
                    },
                    _ => Some(After::Next(vals, w1)),
                },
                other => ended(other),
            }
        }),
{
    reveal(stmt_sense);
    reveal(sense);
    reveal(set_row);
    reveal(slot_in);
}

// Statements of one expression.

/// The expression of a statement of one expression.
pub open spec fn sole(s: StmtV) -> ExprV {
    match s.kind {
        StmtKindV::Print(e) => e,
        StmtKindV::Return(e) => e,
        StmtKindV::ExprStmt(e) => e,
        StmtKindV::If { cond, .. } => cond,
        StmtKindV::While { cond, .. } => cond,
        StmtKindV::For { cond, .. } => cond,
        StmtKindV::ForIn { iter, .. } => iter,
        StmtKindV::Match { scrut, .. } => scrut,
        _ => arbitrary(),
    }
}

pub proof fn parts_of_print(cx: Place, vars: Seq<VarV>, g: Gen, s: StmtV)
    requires
        stmt_ok(cx, vars, s),
        s.kind is Print,
    ensures
        ({
            let (g1, v) = code_at(cx.prog, vars, g, sole(s));
            let r = print_row(type_at(cx.prog, vars, sole(s)));
            &&& typed(cx.prog, vars, sole(s))
            &&& parts_ok(r)
            &&& stmt_at(cx.prog, vars, g, s) == (placed(g1, r, seq![v]), vars)
        }),
{
    reveal(stmt_ok);
    reveal(stmt_at);
    reveal(typed);
    reveal(code_at);
    reveal(type_at);
    let (g1, v) = lower(cx.prog, vars, g, sole(s));
    code_print(g1, v, ty_of(cx.prog, vars, sole(s)));
}

pub proof fn sense_of_print<V, W>(
    b: Base<V, W>,
    p: ProgramV,
    vars: Seq<VarV>,
    vals: Seq<V>,
    s: StmtV,
    w: W,
    fuel: nat,
)
    requires
        s.kind is Print,
    ensures
        stmt_sense(b, p, vars, vals, s, w, fuel) == match sense(b, p, vars, vals, sole(s), w) {
            Value::Is(v, w1) => effect(
                row(b, print_row(type_at(p, vars, sole(s))), seq![v], w1),
                vals,
            ),
            other => ended(other),
        },
{
    reveal(stmt_sense);
    reveal(sense);
    reveal(type_at);
}

pub proof fn parts_of_small(cx: Place, vars: Seq<VarV>, g: Gen, s: StmtV)
    requires
        stmt_ok(cx, vars, s),
    ensures
        s.kind is Return ==> {
            let (g1, v) = code_at(cx.prog, vars, g, sole(s));
            &&& typed(cx.prog, vars, sole(s))
            &&& stmt_at(cx.prog, vars, g, s) == (then_code(g1, CodeV::Return(v), g1), vars)
        },
        s.kind is ExprStmt ==> {
            let (g1, v) = code_at(cx.prog, vars, g, sole(s));
            &&& typed(cx.prog, vars, sole(s))
            &&& stmt_at(cx.prog, vars, g, s) == (g1, vars)
        },
        s.kind is Break ==> stmt_at(cx.prog, vars, g, s) == (then_code(g, CodeV::Break, g), vars),
        s.kind is Continue ==> stmt_at(cx.prog, vars, g, s) == (
            then_code(g, CodeV::Continue, g),
            vars,
        ),
{
    reveal(stmt_ok);
    reveal(stmt_at);
    reveal(typed);
    reveal(code_at);
}

pub proof fn sense_of_small<V, W>(
    b: Base<V, W>,
    p: ProgramV,
    vars: Seq<VarV>,
    vals: Seq<V>,
    s: StmtV,
    w: W,
    fuel: nat,
)
    ensures
        s.kind is Return ==> stmt_sense(b, p, vars, vals, s, w, fuel) == match sense(
            b,
            p,
            vars,
            vals,
            sole(s),
            w,
        ) {
            Value::Is(v, w1) => Some(After::Ret(v, w1)),
            other => ended(other),
        },
        s.kind is ExprStmt ==> stmt_sense(b, p, vars, vals, s, w, fuel) == match sense(
            b,
            p,
            vars,
            vals,
            sole(s),
            w,
        ) {
            Value::Is(v, w1) => Some(After::Next(vals, w1)),
            other => ended(other),
        },
        s.kind is Break ==> stmt_sense(b, p, vars, vals, s, w, fuel) == Some(After::Brk(vals, w)),
        s.kind is Continue ==> stmt_sense(b, p, vars, vals, s, w, fuel) == Some(
            After::Cont(vals, w),
        ),
{
    reveal(stmt_sense);
    reveal(sense);
}

// Branches and loops.

pub proof fn parts_of_if(cx: Place, vars: Seq<VarV>, g: Gen, s: StmtV)
    requires
        stmt_ok(cx, vars, s),
        s.kind is If,
    ensures
        ({
            let p = cx.prog;
            let (g1, c) = code_at(p, vars, g, sole(s));
            let t = stmts_at(p, vars, inner(g1), s.kind->If_then_body, 0);
            let e = stmts_at(p, vars, inner(t), s.kind->If_else_body, 0);
            &&& typed(p, vars, sole(s))
            &&& stmts_ok(cx, vars, s.kind->If_then_body, 0)
            &&& stmts_ok(cx, vars, s.kind->If_else_body, 0)
            &&& stmt_at(p, vars, g, s) == (
                then_code(g1, CodeV::If { cond: c, then: t.code, els: e.code }, e),
                vars,
            )
        }),
{
    reveal(stmt_ok);
    reveal(stmts_ok);
    reveal(stmt_at);
    reveal(stmts_at);
    reveal(typed);
    reveal(code_at);
}

pub proof fn sense_of_if<V, W>(
    b: Base<V, W>,
    p: ProgramV,
    vars: Seq<VarV>,
    vals: Seq<V>,
    s: StmtV,
    w: W,
    fuel: nat,
)
    requires
        s.kind is If,
    ensures
        stmt_sense(b, p, vars, vals, s, w, fuel) == match sense(b, p, vars, vals, sole(s), w) {
            Value::Is(c, w1) => {
                let body = if (b.truth)(c) {
                    s.kind->If_then_body
                } else {
                    s.kind->If_else_body
                };
                cut(stmts_sense(b, p, vars, vals, body, 0, w1, fuel), vals.len())
            },
            other => ended(other),
        },
{
    reveal(stmt_sense);
    reveal(stmts_sense);
    reveal(sense);
}

/// The body of a loop.
pub open spec fn loop_body(s: StmtV) -> Seq<StmtV> {
    match s.kind {
        StmtKindV::While { body, .. } => body,
        StmtKindV::For { body, .. } => body,
        StmtKindV::ForIn { body, .. } => body,
        _ => Seq::empty(),
    }
}

/// What a loop does after a turn.
pub open spec fn loop_step(s: StmtV) -> Option<Box<StmtV>> {
    match s.kind {
        StmtKindV::For { step, .. } => step,
        _ => None,
    }
}

/// What a loop does before its first turn.
pub open spec fn loop_init(s: StmtV) -> Option<Box<StmtV>> {
    match s.kind {
        StmtKindV::For { init, .. } => init,
        _ => None,
    }
}

/// A loop that goes by a condition.
pub open spec fn is_loop(s: StmtV) -> bool {
    s.kind is While || s.kind is For
}

/// The code of a loop, the registers and variables after it, and those after its body.
pub open spec fn loop_at(p: ProgramV, vars: Seq<VarV>, g: Gen, s: StmtV) -> (CodeV, Gen) {
    let (h, c) = code_at(p, vars, inner(g), sole(s));
    let bg = stmts_at(p, vars, inner(h), loop_body(s), 0);
    let (st, _) = opt_at(p, vars, inner(bg), loop_step(s));
    (CodeV::Loop { head: h.code, cond: c, body: bg.code, step: st.code }, st)
}

/// The parts of a loop that goes by a condition are accepted.
pub open spec fn loop_ok(cx: Place, vars: Seq<VarV>, s: StmtV) -> bool {
    &&& typed(cx.prog, vars, sole(s))
    &&& stmts_ok(looped(cx), vars, loop_body(s), 0)
    &&& opt_ok(cx, vars, loop_step(s))
}

pub proof fn parts_of_opt(cx: Place, vars: Seq<VarV>, g: Gen, s: Option<Box<StmtV>>)
    requires
        opt_ok(cx, vars, s),
    ensures
        match s {
            Some(x) => stmt_ok(cx, vars, *x) && opt_at(cx.prog, vars, g, s) == stmt_at(
                cx.prog,
                vars,
                g,
                *x,
            ),
            None => opt_at(cx.prog, vars, g, s) == (g, vars),
        },
{
    reveal(opt_ok);
    reveal(stmt_ok);
    reveal(opt_at);
    reveal(stmt_at);
}

pub proof fn sense_of_opt<V, W>(
    b: Base<V, W>,
    p: ProgramV,
    vars: Seq<VarV>,
    vals: Seq<V>,
    s: Option<Box<StmtV>>,
    w: W,
    fuel: nat,
)
    ensures
        match s {
            Some(x) => opt_sense(b, p, vars, vals, s, w, fuel) == stmt_sense(
                b,
                p,
                vars,
                vals,
                *x,
                w,
                fuel,
            ),
            None => opt_sense(b, p, vars, vals, s, w, fuel) == Some(After::Next(vals, w)),
        },
{
    reveal(opt_sense);
    reveal(stmt_sense);
}

/// The types of the variables after a statement are those that the type checker has.
pub proof fn after_is_named(cx: Place, vars: Seq<VarV>, g: Gen, s: StmtV)
    requires
        stmt_ok(cx, vars, s),
    ensures
        check_stmt(cx, tenv(vars), s) == Ok::<_, DiagV>(tenv(stmt_at(cx.prog, vars, g, s).1)),
        names_after(cx.prog, tenv(vars), s) == tenv(stmt_at(cx.prog, vars, g, s).1),
{
    reveal(stmt_ok);
    reveal(stmt_at);
    if let StmtKindV::Let { name, ty, value } = s.kind {
        let (g1, v) = lower(cx.prog, vars, g, value);
        let t = let_type(cx.prog, tenv(vars), ty, value, s.span)->Ok_0;
        lemma_tenv_push(vars, name, g1.slots.len() as usize, t);
    }
}

pub proof fn opt_is_named(cx: Place, vars: Seq<VarV>, g: Gen, s: Option<Box<StmtV>>)
    requires
        opt_ok(cx, vars, s),
    ensures
        check_opt(cx, tenv(vars), s) == Ok::<_, DiagV>(tenv(opt_at(cx.prog, vars, g, s).1)),
        names_after_opt(cx.prog, tenv(vars), s) == tenv(opt_at(cx.prog, vars, g, s).1),
{
    parts_of_opt(cx, vars, g, s);
    if let Some(x) = s {
        after_is_named(cx, vars, g, *x);
    }
}

pub proof fn parts_of_loop(cx: Place, vars: Seq<VarV>, g: Gen, s: StmtV)
    requires
        stmt_ok(cx, vars, s),
        is_loop(s),
    ensures
        ({
            let p = cx.prog;
            let (g1, inside) = opt_at(p, vars, g, loop_init(s));
            let (c, last) = loop_at(p, inside, g1, s);
            &&& opt_ok(cx, vars, loop_init(s))
            &&& loop_ok(cx, inside, s)
            &&& stmt_at(p, vars, g, s) == (then_code(g1, c, last), vars)
        }),
{
    reveal(stmt_ok);
    reveal(opt_ok);
    assert(opt_ok(cx, vars, loop_init(s)));
    opt_is_named(cx, vars, g, loop_init(s));
    reveal(stmts_ok);
    reveal(stmt_at);
    reveal(opt_at);
    reveal(stmts_at);
    reveal(typed);
    reveal(code_at);
}

pub proof fn sense_of_loop<V, W>(
    b: Base<V, W>,
    cx: Place,
    vars: Seq<VarV>,
    vals: Seq<V>,
    g: Gen,
    s: StmtV,
    w: W,
    fuel: nat,
)
    requires
        stmt_ok(cx, vars, s),
        is_loop(s),
    ensures
        ({
            let p = cx.prog;
            let inside = opt_at(p, vars, g, loop_init(s)).1;
            s.kind is While ==> stmt_sense(b, p, vars, vals, s, w, fuel) == turns_sense(
                b,
                p,
                vars,
                vals,
                s,
                w,
                fuel,
            )
        }),
        ({
            let p = cx.prog;
            let inside = opt_at(p, vars, g, loop_init(s)).1;
            s.kind is For ==> stmt_sense(b, p, vars, vals, s, w, fuel) == match opt_sense(
                b,
                p,
                vars,
                vals,
                loop_init(s),
                w,
                fuel,
            ) {
                Some(After::Next(vals1, w1)) => cut(
                    turns_sense(b, p, inside, vals1, s, w1, fuel),
                    vals.len(),
                ),
                other => other,
            }
        }),
        s.kind is While ==> opt_at(cx.prog, vars, g, loop_init(s)) == (g, vars),
{
    if s.kind is For {
        assert(opt_ok(cx, vars, loop_init(s))) by {
            reveal(stmt_ok);
            reveal(opt_ok);
        }
        opt_is_named(cx, vars, g, loop_init(s));
    }
    reveal(stmt_sense);
    reveal(opt_sense);
    reveal(turns_sense);
    reveal(opt_at);
}

/// What comes of a loop after the body of a turn.
#[verifier::opaque]
pub open spec fn turned<V, W>(
    b: Base<V, W>,
    p: ProgramV,
    vars: Seq<VarV>,
    vals: Seq<V>,
    n: nat,
    s: StmtV,
    w: W,
    fuel: nat,
) -> Option<After<V, W>> {
    if s.kind is While {
        turns_sense(b, p, vars, vals, s, w, (fuel - 1) as nat)
    } else {
        match cut(opt_sense(b, p, vars, vals, loop_step(s), w, fuel), n) {
            Some(After::Next(vals3, w3)) => turns_sense(
                b,
                p,
                vars,
                vals3,
                s,
                w3,
                (fuel - 1) as nat,
            ),
            other => other,
        }
    }
}

proof fn lemma_turned<V, W>(
    b: Base<V, W>,
    p: ProgramV,
    vars: Seq<VarV>,
    vals: Seq<V>,
    n: nat,
    s: StmtV,
    w: W,
    fuel: nat,
)
    requires
        is_loop(s),
        fuel > 0,
    ensures
        turned(b, p, vars, vals, n, s, w, fuel) == if s.kind is While {
            turns(b, p, tenv(vars), vals, s, w, (fuel - 1) as nat)
        } else {
            stepped(
                b,
                p,
                tenv(vars),
                vals,
                s,
                cut(opt(b, p, tenv(vars), vals, loop_step(s), w, fuel), n),
                fuel,
            )
        },
{
    reveal(turned);
    reveal(opt_sense);
    reveal(turns_sense);
}

/// What comes of a loop after the condition of a turn, and then of its body.
pub open spec fn turn_on<V, W>(
    b: Base<V, W>,
    p: ProgramV,
    vars: Seq<VarV>,
    vals: Seq<V>,
    s: StmtV,
    body: Option<After<V, W>>,
    fuel: nat,
) -> Option<After<V, W>> {
    match body {
        Some(After::Next(vals2, w2)) => turned(b, p, vars, vals2, vals.len(), s, w2, fuel),
        Some(After::Cont(vals2, w2)) => turned(b, p, vars, vals2, vals.len(), s, w2, fuel),
        Some(After::Brk(vals2, w2)) => Some(After::Next(vals2, w2)),
        other => other,
    }
}

proof fn lemma_turn_on<V, W>(
    b: Base<V, W>,
    p: ProgramV,
    vars: Seq<VarV>,
    vals: Seq<V>,
    s: StmtV,
    w: W,
    fuel: nat,
    c: V,
    w1: W,
)
    requires
        is_loop(s),
        fuel > 0,
        expr(b, p, tenv(vars), vals, sole(s), w) == Value::<V, W>::Is(c, w1),
        (b.truth)(c),
    ensures
        turns(b, p, tenv(vars), vals, s, w, fuel) == turn_on(
            b,
            p,
            vars,
            vals,
            s,
            cut(stmts(b, p, tenv(vars), vals, loop_body(s), 0, w1, fuel), vals.len()),
            fuel,
        ),
{
    let body = cut(stmts(b, p, tenv(vars), vals, loop_body(s), 0, w1, fuel), vals.len());
    match body {
        Some(After::Next(vals2, w2)) => {
            lemma_turned(b, p, vars, vals2, vals.len(), s, w2, fuel);
        },
        Some(After::Cont(vals2, w2)) => {
            lemma_turned(b, p, vars, vals2, vals.len(), s, w2, fuel);
        },
        _ => {},
    }
}

pub proof fn sense_of_turns<V, W>(
    b: Base<V, W>,
    p: ProgramV,
    vars: Seq<VarV>,
    vals: Seq<V>,
    s: StmtV,
    w: W,
    fuel: nat,
)
    requires
        is_loop(s),
    ensures
        fuel == 0 ==> turns_sense(b, p, vars, vals, s, w, fuel) is None,
        fuel > 0 ==> turns_sense(b, p, vars, vals, s, w, fuel) == match sense(
            b,
            p,
            vars,
            vals,
            sole(s),
            w,
        ) {
            Value::Is(c, w1) => if (b.truth)(c) {
                turn_on(
                    b,
                    p,
                    vars,
                    vals,
                    s,
                    cut(stmts_sense(b, p, vars, vals, loop_body(s), 0, w1, fuel), vals.len()),
                    fuel,
                )
            } else {
                Some(After::Next(vals, w1))
            },
            other => ended(other),
        },
{
    reveal(turns_sense);
    reveal(stmts_sense);
    reveal(sense);
    if fuel > 0 {
        if let Value::Is(c, w1) = expr(b, p, tenv(vars), vals, sole(s), w) {
            if (b.truth)(c) {
                lemma_turn_on(b, p, vars, vals, s, w, fuel, c, w1);
            }
        }
    }
}

pub proof fn parts_of_stmts(cx: Place, vars: Seq<VarV>, g: Gen, ss: Seq<StmtV>, i: int)
    requires
        stmts_ok(cx, vars, ss, i),
        0 <= i <= ss.len(),
    ensures
        i == ss.len() ==> stmts_at(cx.prog, vars, g, ss, i) == g,
        i < ss.len() ==> {
            let (g1, after) = stmt_at(cx.prog, vars, g, ss[i]);
            &&& stmt_ok(cx, vars, ss[i])
            &&& stmts_ok(cx, after, ss, i + 1)
            &&& stmts_at(cx.prog, vars, g, ss, i) == if closes(ss[i]) {
                g1
            } else {
                stmts_at(cx.prog, after, g1, ss, i + 1)
            }
        },
{
    if i < ss.len() {
        assert(stmt_ok(cx, vars, ss[i])) by {
            reveal(stmts_ok);
            reveal(stmt_ok);
        }
        after_is_named(cx, vars, g, ss[i]);
    }
    reveal(stmts_ok);
    reveal(stmt_ok);
    reveal(stmts_at);
    reveal(stmt_at);
}

pub proof fn sense_of_stmts<V, W>(
    b: Base<V, W>,
    cx: Place,
    vars: Seq<VarV>,
    vals: Seq<V>,
    g: Gen,
    ss: Seq<StmtV>,
    i: int,
    w: W,
    fuel: nat,
)
    requires
        stmts_ok(cx, vars, ss, i),
        0 <= i <= ss.len(),
    ensures
        i == ss.len() ==> stmts_sense(b, cx.prog, vars, vals, ss, i, w, fuel) == Some(
            After::Next(vals, w),
        ),
        i < ss.len() ==> {
            let after = stmt_at(cx.prog, vars, g, ss[i]).1;
            stmts_sense(b, cx.prog, vars, vals, ss, i, w, fuel) == match stmt_sense(
                b,
                cx.prog,
                vars,
                vals,
                ss[i],
                w,
                fuel,
            ) {
                Some(After::Next(vals1, w1)) => stmts_sense(
                    b,
                    cx.prog,
                    after,
                    vals1,
                    ss,
                    i + 1,
                    w1,
                    fuel,
                ),
                other => other,
            }
        },
        i < ss.len() && closes(ss[i]) ==> !(stmt_sense(
            b,
            cx.prog,
            vars,
            vals,
            ss[i],
            w,
            fuel,
        ) matches Some(After::Next(_, _))),
{
    if i < ss.len() {
        assert(stmt_ok(cx, vars, ss[i])) by {
            reveal(stmts_ok);
            reveal(stmt_ok);
        }
        after_is_named(cx, vars, g, ss[i]);
    }
    reveal(stmts_sense);
    reveal(stmt_sense);
}

// Loops over collections.

#[verifier::opaque]
pub open spec fn item_ty(p: ProgramV, vars: Seq<VarV>, iter: ExprV) -> Ty {
    item_type(p, tenv(vars), iter)->Ok_0
}

/// What is walked through: the keys of a map, or an array itself.
#[verifier::opaque]
pub open spec fn keys_row(t: Ty) -> Row {
    if t is MapOf {
        single(IrTy::Ptr, Op::Rt(Rt::MapKeys), Srcs::S1(Src::In(0)))
    } else {
        same()
    }
}

/// An index is below a length.
#[verifier::opaque]
pub open spec fn below_row() -> Row {
    single(IrTy::I1, Op::ICmp(Pred::Below), Srcs::S2(Src::In(0), Src::In(1)))
}

/// The next index.
#[verifier::opaque]
pub open spec fn next_row() -> Row {
    single(IrTy::I64, Op::Add, Srcs::S2(Src::In(0), Src::Konst(OpndV::Int(1))))
}

/// A loop over a collection up to where its length is known.
pub open spec fn each_start(p: ProgramV, vars: Seq<VarV>, g: Gen, s: StmtV) -> (Gen, OpndV, OpndV) {
    let (g1, it) = code_at(p, vars, g, sole(s));
    let (g3, arr) = placed_row(null_at(g1, it), keys_row(type_at(p, vars, sole(s))), seq![it]);
    let (g4, len) = placed_row(g3, length_row(Ty::Null), seq![arr]);
    (g4, len, arr)
}

/// The variables of such a loop: where its index and its element are held.
pub open spec fn each_slots(g: Gen, ty: IrTy) -> (Gen, usize, usize) {
    let i_slot = g.slots.len() as usize;
    let g6 = set_var(new_slot(g, IrTy::I64), i_slot, OpndV::Int(0));
    let slot = g6.slots.len() as usize;
    (new_slot(g6, ty), i_slot, slot)
}

/// The condition of such a loop: the code, the index, and whether the loop goes on.
pub open spec fn each_head(g: Gen, len: OpndV, i_slot: usize) -> (Gen, OpndV, OpndV) {
    let (h1, i) = emit(inner(g), IrTy::I64, Op::GetVar(i_slot), Seq::empty());
    let (h2, c) = placed_row(h1, below_row(), seq![i, len]);
    (h2, i, c)
}

/// The body of such a loop before its statements.
pub open spec fn each_item(g: Gen, arr: OpndV, i: OpndV, slot: usize, ty: IrTy) -> Gen {
    let (b2, x) = placed_row(inner(g), item_row(ty), seq![arr, i]);
    set_var(b2, slot, x)
}

/// The end of a turn of such a loop.
pub open spec fn each_step(g: Gen, i_slot: usize) -> Gen {
    let (s1, j) = emit(inner(g), IrTy::I64, Op::GetVar(i_slot), Seq::empty());
    let (s2, next) = placed_row(s1, next_row(), seq![j]);
    set_var(s2, i_slot, next)
}

/// The code of such a loop, and the registers and variables after it.
pub open spec fn each_loop(
    p: ProgramV,
    vars: Seq<VarV>,
    g: Gen,
    len: OpndV,
    arr: OpndV,
    i_slot: usize,
    slot: usize,
    t: Ty,
    s: StmtV,
) -> (CodeV, Gen) {
    let (h, i, c) = each_head(g, len, i_slot);
    let b3 = each_item(h, arr, i, slot, basic_ty(t));
    let bg = stmts_at(p, with_var(vars, s.kind->ForIn_var, slot, t), b3, loop_body(s), 0);
    let st = each_step(bg, i_slot);
    (CodeV::Loop { head: h.code, cond: c, body: bg.code, step: st.code }, st)
}

/// The rows of such a loop are rows.
pub proof fn each_rows_ok(t: Ty, ty: IrTy)
    ensures
        row_ok(keys_row(t)),
        row_ok(below_row()),
        row_ok(next_row()),
        row_ok(length_row(Ty::Null)),
        row_ok(item_row(ty)),
{
    reveal(keys_row);
    reveal(below_row);
    reveal(next_row);
    reveal(single);
    reveal(length_row);
    reveal(item_row);
}

proof fn code_keys(g: Gen, v: OpndV, t: Ty)
    ensures
        placed_row(g, keys_row(t), seq![v]) == if t is MapOf {
            emit(g, IrTy::Ptr, Op::Rt(Rt::MapKeys), seq![v])
        } else {
            (g, v)
        },
{
    reveal(keys_row);
    if t is MapOf {
        code_single(g, IrTy::Ptr, Op::Rt(Rt::MapKeys), Srcs::S1(Src::In(0)), seq![v]);
    } else {
        reveal(placed);
        reveal(placed_row);
    }
}

proof fn code_below(g: Gen, i: OpndV, len: OpndV)
    ensures
        placed_row(g, below_row(), seq![i, len]) == emit(
            g,
            IrTy::I1,
            Op::ICmp(Pred::Below),
            seq![i, len],
        ),
{
    reveal(below_row);
    let srcs = Srcs::S2(Src::In(0), Src::In(1));
    code_single(g, IrTy::I1, Op::ICmp(Pred::Below), srcs, seq![i, len]);
}

proof fn code_next(g: Gen, i: OpndV)
    ensures
        placed_row(g, next_row(), seq![i]) == emit(g, IrTy::I64, Op::Add, seq![i, OpndV::Int(1)]),
{
    reveal(next_row);
    let srcs = Srcs::S2(Src::In(0), Src::Konst(OpndV::Int(1)));
    code_single(g, IrTy::I64, Op::Add, srcs, seq![i]);
}

pub proof fn parts_of_each(cx: Place, vars: Seq<VarV>, g: Gen, s: StmtV)
    requires
        stmt_ok(cx, vars, s),
        s.kind is ForIn,
    ensures
        ({
            let p = cx.prog;
            let t = item_ty(p, vars, sole(s));
            let (g4, len, arr) = each_start(p, vars, g, s);
            let (g7, i_slot, slot) = each_slots(g4, basic_ty(t));
            let (c, last) = each_loop(p, vars, g7, len, arr, i_slot, slot, t, s);
            &&& typed(p, vars, sole(s))
            &&& stmts_ok(
                looped(cx),
                with_var(vars, s.kind->ForIn_var, slot, t),
                loop_body(s),
                0,
            )
            &&& stmt_at(p, vars, g, s) == (then_code(g7, c, last), vars)
        }),
{
    let p = cx.prog;
    let t = item_ty(p, vars, sole(s));
    let (g4, len, arr) = each_start(p, vars, g, s);
    let (g7, i_slot, slot) = each_slots(g4, basic_ty(t));
    lemma_tenv_push(vars, s.kind->ForIn_var, slot, t);
    assert(typed(p, vars, sole(s)) && stmts_ok(
        looped(cx),
        with_var(vars, s.kind->ForIn_var, slot, t),
        loop_body(s),
        0,
    )) by {
        reveal(item_ty);
        reveal(stmt_ok);
        reveal(stmts_ok);
        reveal(typed);
    }
    each_is_made(cx, vars, g, s);
}

proof fn each_is_made(cx: Place, vars: Seq<VarV>, g: Gen, s: StmtV)
    requires
        s.kind is ForIn,
    ensures
        ({
            let p = cx.prog;
            let t = item_ty(p, vars, sole(s));
            let (g4, len, arr) = each_start(p, vars, g, s);
            let (g7, i_slot, slot) = each_slots(g4, basic_ty(t));
            let (c, last) = each_loop(p, vars, g7, len, arr, i_slot, slot, t, s);
            stmt_at(p, vars, g, s) == (then_code(g7, c, last), vars)
        }),
{
    let p = cx.prog;
    let t = item_ty(p, vars, sole(s));
    let (g1, it) = code_at(p, vars, g, sole(s));
    let ty = type_at(p, vars, sole(s));
    code_null(g1, it);
    code_keys(null_at(g1, it), it, ty);
    let (g3, arr) = placed_row(null_at(g1, it), keys_row(ty), seq![it]);
    code_length(g3, arr, Ty::Null);
    let (g4, len) = placed_row(g3, length_row(Ty::Null), seq![arr]);
    let (g7, i_slot, slot) = each_slots(g4, basic_ty(t));
    let (h1, i) = emit(inner(g7), IrTy::I64, Op::GetVar(i_slot), Seq::empty());
    code_below(h1, i, len);
    let (h2, _, _) = each_head(g7, len, i_slot);
    code_item(inner(h2), arr, i, basic_ty(t));
    let b3 = each_item(h2, arr, i, slot, basic_ty(t));
    let bg = stmts_at(p, with_var(vars, s.kind->ForIn_var, slot, t), b3, loop_body(s), 0);
    let (s1, j) = emit(inner(bg), IrTy::I64, Op::GetVar(i_slot), Seq::empty());
    code_next(s1, j);
    reveal(item_ty);
    reveal(type_at);
    reveal(code_at);
    reveal(stmt_at);
    reveal(stmts_at);
}

/// What comes of one operation.
pub proof fn single_value<V, W>(b: Base<V, W>, ty: IrTy, op: Op, args: Srcs, ins: Seq<V>, w: W)
    ensures
        value_of(b, single(ty, op, args), ins, w) == match (b.op)(
            op,
            src_vals(b, ins, Seq::empty(), args),
            w,
        ) {
            Done::Go(v, w1) => Value::<V, W>::Is(v, w1),
            Done::Stop(w1) => Value::<V, W>::Stop(w1),
        },
{
    reveal(value_of);
    reveal(row);
    reveal(single);
    reveal_with_fuel(row_from, 2);
}

pub proof fn sense_of_each<V, W>(
    b: Base<V, W>,
    p: ProgramV,
    vars: Seq<VarV>,
    vals: Seq<V>,
    s: StmtV,
    w: W,
    fuel: nat,
)
    requires
        s.kind is ForIn,
    ensures
        stmt_sense(b, p, vars, vals, s, w, fuel) == match sense(b, p, vars, vals, sole(s), w) {
            Value::Is(it, w1) => match value_of(b, null_row(), seq![it], w1) {
                Value::Is(_, w2) => match value_of(
                    b,
                    keys_row(type_at(p, vars, sole(s))),
                    seq![it],
                    w2,
                ) {
                    Value::Is(arr, w3) => match value_of(b, length_row(Ty::Null), seq![arr], w3) {
                        Value::Is(len, w4) => items_sense(
                            b,
                            p,
                            vars,
                            vals,
                            s,
                            len,
                            arr,
                            (b.konst)(OpndV::Int(0)),
                            w4,
                            fuel,
                        ),
                        other => ended(other),
                    },
                    other => ended(other),
                },
                other => ended(other),
            },
            other => ended(other),
        },
{
    if let Value::Is(it, w1) = expr(b, p, tenv(vars), vals, sole(s), w) {
        if let Value::Is(_, w2) = value_of(b, null_row(), seq![it], w1) {
            keys_value(b, type_at(p, vars, sole(s)), it, w2);
        }
    }
    reveal(stmt_sense);
    reveal(items_sense);
    reveal(sense);
    reveal(type_at);
}

proof fn keys_value<V, W>(b: Base<V, W>, t: Ty, it: V, w: W)
    ensures
        value_of(b, keys_row(t), seq![it], w) == if t is MapOf {
            value_of(
                b,
                single(IrTy::Ptr, Op::Rt(Rt::MapKeys), Srcs::S1(Src::In(0))),
                seq![it],
                w,
            )
        } else {
            Value::Is(it, w)
        },
{
    reveal(keys_row);
    if !(t is MapOf) {
        reveal(value_of);
        reveal(row);
    }
}

/// What comes of a loop over a collection after the statements of a turn.
pub open spec fn each_on<V, W>(
    b: Base<V, W>,
    p: ProgramV,
    vars: Seq<VarV>,
    s: StmtV,
    len: V,
    arr: V,
    i: V,
    body: Option<After<V, W>>,
    fuel: nat,
) -> Option<After<V, W>> {
    match body {
        Some(After::Next(vals3, w3)) => each_next(b, p, vars, vals3, s, len, arr, i, w3, fuel),
        Some(After::Cont(vals3, w3)) => each_next(b, p, vars, vals3, s, len, arr, i, w3, fuel),
        Some(After::Brk(vals3, w3)) => Some(After::Next(vals3, w3)),
        other => other,
    }
}

/// What comes of a loop over a collection after the turn at an index.
#[verifier::opaque]
pub open spec fn each_next<V, W>(
    b: Base<V, W>,
    p: ProgramV,
    vars: Seq<VarV>,
    vals: Seq<V>,
    s: StmtV,
    len: V,
    arr: V,
    i: V,
    w: W,
    fuel: nat,
) -> Option<After<V, W>> {
    match value_of(b, next_row(), seq![i], w) {
        Value::Is(j, w1) => items_sense(b, p, vars, vals, s, len, arr, j, w1, (fuel - 1) as nat),
        other => ended(other),
    }
}

proof fn next_is_counted<V, W>(
    b: Base<V, W>,
    p: ProgramV,
    vars: Seq<VarV>,
    vals: Seq<V>,
    s: StmtV,
    len: V,
    arr: V,
    i: V,
    w: W,
    fuel: nat,
)
    requires
        fuel > 0,
    ensures
        each_next(b, p, vars, vals, s, len, arr, i, w, fuel) == counted(
            b,
            p,
            tenv(vars),
            vals,
            s,
            len,
            arr,
            i,
            w,
            fuel,
        ),
{
    reveal(each_next);
    reveal(items_sense);
    reveal(next_row);
    let srcs = Srcs::S2(Src::In(0), Src::Konst(OpndV::Int(1)));
    single_value(b, IrTy::I64, Op::Add, srcs, seq![i], w);
    assert(src_vals(b, seq![i], Seq::empty(), srcs) =~= seq![i, (b.konst)(OpndV::Int(1))]);
}

pub proof fn sense_of_items<V, W>(
    b: Base<V, W>,
    p: ProgramV,
    vars: Seq<VarV>,
    vals: Seq<V>,
    slot: usize,
    s: StmtV,
    len: V,
    arr: V,
    i: V,
    w: W,
    fuel: nat,
)
    requires
        s.kind is ForIn,
    ensures
        fuel == 0 ==> items_sense(b, p, vars, vals, s, len, arr, i, w, fuel) is None,
        fuel > 0 ==> {
            let t = item_ty(p, vars, sole(s));
            let inside = with_var(vars, s.kind->ForIn_var, slot, t);
            items_sense(b, p, vars, vals, s, len, arr, i, w, fuel) == match value_of(
                b,
                below_row(),
                seq![i, len],
                w,
            ) {
                Value::Is(c, w1) => if (b.truth)(c) {
                    match value_of(b, item_row(basic_ty(t)), seq![arr, i], w1) {
                        Value::Is(x, w2) => each_on(
                            b,
                            p,
                            vars,
                            s,
                            len,
                            arr,
                            i,
                            cut(
                                stmts_sense(
                                    b,
                                    p,
                                    inside,
                                    vals.push(x),
                                    loop_body(s),
                                    0,
                                    w2,
                                    fuel,
                                ),
                                vals.len(),
                            ),
                            fuel,
                        ),
                        other => ended(other),
                    }
                } else {
                    Some(After::Next(vals, w1))
                },
                other => ended(other),
            }
        },
{
    let t = item_ty(p, vars, sole(s));
    let inside = with_var(vars, s.kind->ForIn_var, slot, t);
    lemma_tenv_push(vars, s.kind->ForIn_var, slot, t);
    let srcs = Srcs::S2(Src::In(0), Src::In(1));
    single_value(b, IrTy::I1, Op::ICmp(Pred::Below), srcs, seq![i, len], w);
    assert(src_vals(b, seq![i, len], Seq::empty(), srcs) =~= seq![i, len]);
    assert(below_row() == single(IrTy::I1, Op::ICmp(Pred::Below), srcs)) by {
        reveal(below_row);
    }
    if fuel > 0 {
        if let Value::Is(c, w1) = value_of(b, below_row(), seq![i, len], w) {
            if let Value::Is(x, w2) = value_of(b, item_row(basic_ty(t)), seq![arr, i], w1) {
                let body = cut(
                    stmts(b, p, tenv(inside), vals.push(x), loop_body(s), 0, w2, fuel),
                    vals.len(),
                );
                match body {
                    Some(After::Next(vals3, w3)) => {
                        next_is_counted(b, p, vars, vals3, s, len, arr, i, w3, fuel);
                    },
                    Some(After::Cont(vals3, w3)) => {
                        next_is_counted(b, p, vars, vals3, s, len, arr, i, w3, fuel);
                    },
                    _ => {},
                }
            }
        }
    }
    reveal(items_sense);
    reveal(stmts_sense);
    reveal(item_ty);
}

} // verus!
