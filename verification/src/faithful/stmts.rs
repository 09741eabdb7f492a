//! Why the code of statements does what the statements mean.
use vstd::prelude::*;
#[allow(unused_imports)]
use crate::ast::{EnumDefV, ExprKindV, MatchArmV, ProgramV, StmtKindV, StmtV};
#[allow(unused_imports)]
use crate::faithful::anatomy::{code_at, null_at, sense, type_at};
#[allow(unused_imports)]
use crate::faithful::arm_anatomy::{
    arm_code, arm_fields, arm_is_ok, arm_sense, arm_start, arms_sense, arms_upto, bind_at,
    lemma_arms, match_def, parts_of_bind, parts_of_match, payload_sense, payload_ty, sense_of_arm,
    sense_of_match, sense_of_payload,
};
#[allow(unused_imports)]
use crate::faithful::exprs::{lemma_expr, lemma_get, lemma_slot};
#[allow(unused_imports)]
use crate::faithful::landing::{
    are, halts, lemma_begins_self, lemma_moves, lemma_null, lemma_one, lemma_row, lemma_store,
    lemma_then, lemma_two, lemma_value, stops,
};
#[allow(unused_imports)]
use crate::faithful::machine::{
    all_known, begins, extends, go, keeps, known, lemma_begins, lemma_extends, lemma_extends_put,
    lemma_extends_self, lemma_extends_then, lemma_known, lemma_last, lemma_placed, lemma_placed_row,
    lemma_val_kept, opnd_val, placed_row, State,
};
#[allow(unused_imports)]
use crate::faithful::shapes::{lemma_grows, lemma_shape};
#[allow(unused_imports)]
use crate::faithful::stmt_anatomy::{
    arms_ok, below_row, each_head, each_item, each_loop, each_next, each_on, each_rows_ok,
    each_slots, each_start, is_loop, item_ty, items_sense, keys_row, let_ty, loop_at, loop_body,
    loop_init, loop_ok, next_row, opt_at, opt_ok, opt_sense, parts_of_assign, parts_of_each,
    parts_of_if, parts_of_let, parts_of_loop, parts_of_opt, parts_of_print, parts_of_small,
    parts_of_stmts, sense_of_assign, sense_of_each, sense_of_if, sense_of_items, sense_of_let,
    sense_of_loop, sense_of_opt, sense_of_print, sense_of_small, sense_of_stmts, sense_of_turns,
    set_row, slot_in, sole, stmt_at, stmt_ok, stmt_sense, stmts_at, stmts_ok, stmts_sense, turn_on,
    turned, turns_sense, with_var,
};
#[allow(unused_imports)]
use crate::faithful::stmt_landing::{
    able, block_ends, comes, holds_vals, is_free, lemma_able_less, lemma_able_on, lemma_chain,
    lemma_code_end, lemma_comes_scope, lemma_effect, lemma_has_come_scope, lemma_if_run,
    lemma_loop_run, lemma_new_var, lemma_no_code, lemma_old_var, lemma_ready, lemma_set,
    lemma_stays, lemma_stays_keeps, lemma_stays_scope, lemma_stays_self, lemma_stmt_block,
    lemma_switch_run, lemma_turn_run, lemma_vals_kept, lemma_vals_len, lemma_value_end, lemma_whole,
    lemma_wrap, loop_out, stays, step_out, stmt_ends,
};
#[allow(unused_imports)]
use crate::faithful::stmt_shapes::{
    grown, held, lemma_after, lemma_arms_shape, lemma_bind_after, lemma_bind_shape,
    lemma_each_parts, lemma_each_slots, lemma_each_start, lemma_grown_less, lemma_grown_self,
    lemma_held, lemma_held_more, lemma_loop_parts, lemma_opt_shape, lemma_set_shape,
    lemma_start_shape, lemma_stmt_shape, lemma_stmts_shape,
};
#[allow(unused_imports)]
use crate::flow::{tag_index, Out};
#[allow(unused_imports)]
use crate::ir::{basic_ty, CodeV, IrTy, Op, OpndV};
#[allow(unused_imports)]
use crate::lowering::{
    closes, emit, inner, new_slot, put, set_var, slot_of, tenv, then_code, Gen, VarV,
};
#[allow(unused_imports)]
use crate::meaning::{
    arm_tags, cut, effect, ended, item_row, length_row, load_row, null_row, print_row, row,
    store_row, value_of, var_index, variant_arms, wildcard_arm, After, Base, Value, Values,
};
#[allow(unused_imports)]
use crate::types::Ty;
#[allow(unused_imports)]
use crate::typing::{looped, Place};

verus! {

/// The code of a statement does what the statement means.
pub proof fn lemma_stmt<V, W>(
    b: Base<V, W>,
    cx: Place,
    vars: Seq<VarV>,
    vals: Seq<V>,
    cs: Seq<CodeV>,
    g: Gen,
    x: StmtV,
    s: State<V, W>,
    fuel: nat,
) -> (t: State<V, W>)
    requires
        stmt_ok(cx, vars, x),
        able(vars, vals, cs, g, stmt_at(cx.prog, vars, g, x).0, s),
    ensures
        stmt_ends(
            b,
            cs,
            g,
            stmt_at(cx.prog, vars, g, x).0,
            vars,
            stmt_at(cx.prog, vars, g, x).1,
            s,
            t,
            fuel,
            stmt_sense(b, cx.prog, vars, vals, x, s.w, fuel),
        ),
    decreases fuel, x, 9int,
{
    match x.kind {
        StmtKindV::Let { .. } => lemma_let(b, cx, vars, vals, cs, g, x, s, fuel),
        StmtKindV::Assign { .. } => lemma_assign(b, cx, vars, vals, cs, g, x, s, fuel),
        StmtKindV::If { .. } => lemma_if(b, cx, vars, vals, cs, g, x, s, fuel),
        StmtKindV::While { .. } => lemma_loop(b, cx, vars, vals, cs, g, x, s, fuel),
        StmtKindV::For { .. } => lemma_loop(b, cx, vars, vals, cs, g, x, s, fuel),
        StmtKindV::ForIn { .. } => lemma_each(b, cx, vars, vals, cs, g, x, s, fuel),
        StmtKindV::Match { .. } => lemma_match(b, cx, vars, vals, cs, g, x, s, fuel),
        _ => lemma_small(b, cx, vars, vals, cs, g, x, s, fuel),
    }
}

proof fn lemma_let<V, W>(
    b: Base<V, W>,
    cx: Place,
    vars: Seq<VarV>,
    vals: Seq<V>,
    cs: Seq<CodeV>,
    g: Gen,
    x: StmtV,
    s: State<V, W>,
    fuel: nat,
) -> (t: State<V, W>)
    requires
        x.kind is Let,
        stmt_ok(cx, vars, x),
        able(vars, vals, cs, g, stmt_at(cx.prog, vars, g, x).0, s),
    ensures
        stmt_ends(
            b,
            cs,
            g,
            stmt_at(cx.prog, vars, g, x).0,
            vars,
            stmt_at(cx.prog, vars, g, x).1,
            s,
            t,
            fuel,
            stmt_sense(b, cx.prog, vars, vals, x, s.w, fuel),
        ),
{
    let p = cx.prog;
    let last = stmt_at(p, vars, g, x);
    let e = x.kind->Let_value;
    let ty = let_ty(p, vars, x);
    parts_of_let(cx, vars, g, x);
    sense_of_let(b, p, vars, vals, x, s.w, fuel);
    let (g1, v) = code_at(p, vars, g, e);
    let slot = g1.slots.len() as usize;
    lemma_shape(p, vars, g, e);
    lemma_set_shape(g1, basic_ty(ty), slot, v);
    lemma_grows(g1, last.0);
    lemma_able_less(vars, vals, cs, g, g1, last.0, s);
    lemma_ready(vars, vals, cs, g, g1, s);
    let t = lemma_expr(b, p, vars, vals, cs, g, e, s, fuel);
    match sense(b, p, vars, vals, e, s.w) {
        Value::Is(y, w1) => {
            lemma_able_on(vars, vals, cs, g, g1, last.0, s, t);
            let u = lemma_set(b, cs, new_slot(g1, basic_ty(ty)), slot, v, t, fuel);
            lemma_new_var(vars, vals, x.kind->Let_name, ty, y, g1, t, u);
            let a = Some(After::Next(vals.push(y), w1));
            lemma_chain(b, cs, g, g1, last.0, vars, last.1, s, t, u, fuel, a);
            u
        },
        other => {
            lemma_value_end(b, cs, g, (g1, v), last.0, vars, last.1, s, t, fuel, other);
            t
        },
    }
}

proof fn lemma_small<V, W>(
    b: Base<V, W>,
    cx: Place,
    vars: Seq<VarV>,
    vals: Seq<V>,
    cs: Seq<CodeV>,
    g: Gen,
    x: StmtV,
    s: State<V, W>,
    fuel: nat,
) -> (t: State<V, W>)
    requires
        x.kind is Print || x.kind is Return || x.kind is ExprStmt || x.kind is Break
            || x.kind is Continue,
        stmt_ok(cx, vars, x),
        able(vars, vals, cs, g, stmt_at(cx.prog, vars, g, x).0, s),
    ensures
        stmt_ends(
            b,
            cs,
            g,
            stmt_at(cx.prog, vars, g, x).0,
            vars,
            stmt_at(cx.prog, vars, g, x).1,
            s,
            t,
            fuel,
            stmt_sense(b, cx.prog, vars, vals, x, s.w, fuel),
        ),
{
    let p = cx.prog;
    let last = stmt_at(p, vars, g, x).0;
    let (g1, v) = code_at(p, vars, g, sole(x));
    parts_of_small(cx, vars, g, x);
    sense_of_small(b, p, vars, vals, x, s.w, fuel);
    lemma_vals_len(vars, s, vals);
    lemma_stays_self(s, vars, g);
    if x.kind is Break || x.kind is Continue {
        lemma_leave(b, cs, g, last.code.last(), g, s, fuel);
        s
    } else {
        if x.kind is Print {
            parts_of_print(cx, vars, g, x);
            sense_of_print(b, p, vars, vals, x, s.w, fuel);
            lemma_placed(g1, print_row(type_at(p, vars, sole(x))), seq![v]);
        } else if x.kind is Return {
            lemma_extends_then(g1, CodeV::Return(v), g1);
        } else {
            lemma_extends_self(g1);
        }
        lemma_shape(p, vars, g, sole(x));
        lemma_able_less(vars, vals, cs, g, g1, last, s);
        lemma_ready(vars, vals, cs, g, g1, s);
        let t = lemma_expr(b, p, vars, vals, cs, g, sole(x), s, fuel);
        match sense(b, p, vars, vals, sole(x), s.w) {
            Value::Is(y, w1) => {
                lemma_able_on(vars, vals, cs, g, g1, last, s, t);
                lemma_stays_keeps(s, t, vars, g);
                if x.kind is Print {
                    let r = print_row(type_at(p, vars, sole(x)));
                    lemma_one(b, t, v, y, g1);
                    let u = lemma_row(b, cs, g1, r, seq![v], seq![y], t, fuel);
                    let end = row(b, r, seq![y], w1);
                    lemma_effect(b, cs, g1, last, vars, vals, t, u, fuel, end);
                    lemma_chain(
                        b,
                        cs,
                        g,
                        g1,
                        last,
                        vars,
                        vars,
                        s,
                        t,
                        u,
                        fuel,
                        effect(end, vals),
                    );
                    u
                } else if x.kind is Return {
                    lemma_leave(b, cs, g1, CodeV::Return(v), g1, t, fuel);
                    t
                } else {
                    t
                }
            },
            other => {
                lemma_value_end(b, cs, g, (g1, v), last, vars, vars, s, t, fuel, other);
                t
            },
        }
    }
}

/// Code that leaves what is around it.
proof fn lemma_leave<V, W>(
    b: Base<V, W>,
    cs: Seq<CodeV>,
    g: Gen,
    c: CodeV,
    last: Gen,
    s: State<V, W>,
    fuel: nat,
)
    requires
        begins(cs, then_code(g, c, last)),
    ensures
        c is Break ==> go(b, cs, g.code.len(), s, fuel) == Some(Out::Brk(s)),
        c is Continue ==> go(b, cs, g.code.len(), s, fuel) == Some(Out::Cont(s)),
        c matches CodeV::Return(v) ==> go(b, cs, g.code.len(), s, fuel) == Some(Out::Ret(s, v)),
{
    reveal(go);
    reveal(begins);
    lemma_last(cs, then_code(g, c, last));
    assert(cs[g.code.len() as int] == c);
}

proof fn lemma_assign<V, W>(
    b: Base<V, W>,
    cx: Place,
    vars: Seq<VarV>,
    vals: Seq<V>,
    cs: Seq<CodeV>,
    g: Gen,
    x: StmtV,
    s: State<V, W>,
    fuel: nat,
) -> (t: State<V, W>)
    requires
        x.kind is Assign,
        stmt_ok(cx, vars, x),
        able(vars, vals, cs, g, stmt_at(cx.prog, vars, g, x).0, s),
    ensures
        stmt_ends(
            b,
            cs,
            g,
            stmt_at(cx.prog, vars, g, x).0,
            vars,
            stmt_at(cx.prog, vars, g, x).1,
            s,
            t,
            fuel,
            stmt_sense(b, cx.prog, vars, vals, x, s.w, fuel),
        ),
{
    let p = cx.prog;
    let last = stmt_at(p, vars, g, x).0;
    let (target, e) = (x.kind->Assign_target, x.kind->Assign_value);
    parts_of_assign(cx, vars, g, x);
    sense_of_assign(b, p, vars, vals, x, s.w, fuel);
    let (g1, v) = code_at(p, vars, g, e);
    lemma_shape(p, vars, g, e);
    lemma_target_shape(cx, vars, g, x);
    lemma_able_less(vars, vals, cs, g, g1, last, s);
    lemma_ready(vars, vals, cs, g, g1, s);
    let t = lemma_expr(b, p, vars, vals, cs, g, e, s, fuel);
    match sense(b, p, vars, vals, e, s.w) {
        Value::Is(y, w1) => {
            lemma_able_on(vars, vals, cs, g, g1, last, s, t);
            let u = match target.kind {
                ExprKindV::Var(name) => {
                    lemma_slot(vars, name);
                    let u = lemma_set(b, cs, g1, slot_of(vars, name), v, t, fuel);
                    lemma_old_var(vars, vals, var_index(tenv(vars), name), y, g1, t, u);
                    u
                },
                ExprKindV::Index { .. } => lemma_set_elem(
                    b,
                    cx,
                    vars,
                    vals,
                    cs,
                    g,
                    x,
                    y,
                    t,
                    fuel,
                ),
                _ => lemma_set_field(b, cx, vars, vals, cs, g, x, y, t, fuel),
            };
            let a = match target.kind {
                ExprKindV::Var(name) => Some(
                    After::Next(vals.update(var_index(tenv(vars), name), y), w1),
                ),
                ExprKindV::Index { .. } => elem_sense(b, p, vars, vals, x, y, w1),
                _ => own_field_sense(b, p, vars, vals, x, y, w1),
            };
            lemma_chain(b, cs, g, g1, last, vars, vars, s, t, u, fuel, a);
            u
        },
        other => {
            lemma_value_end(b, cs, g, (g1, v), last, vars, vars, s, t, fuel, other);
            t
        },
    }
}

/// The code of an assignment goes on behind that of its value.
proof fn lemma_target_shape(cx: Place, vars: Seq<VarV>, g: Gen, x: StmtV)
    requires
        stmt_ok(cx, vars, x),
        x.kind is Assign,
    ensures
        extends(
            code_at(cx.prog, vars, g, x.kind->Assign_value).0,
            stmt_at(cx.prog, vars, g, x).0,
        ),
{
    let p = cx.prog;
    let last = stmt_at(p, vars, g, x).0;
    parts_of_assign(cx, vars, g, x);
    let (target, e) = (x.kind->Assign_target, x.kind->Assign_value);
    let (g1, v) = code_at(p, vars, g, e);
    match target.kind {
        ExprKindV::Var(name) => {
            lemma_extends_put(g1, IrTy::I64, Op::SetVar(slot_of(vars, name)), seq![v]);
        },
        ExprKindV::Index { array, index } => {
            let (g2, a) = code_at(p, vars, g1, *array);
            lemma_shape(p, vars, g1, *array);
            let g3 = null_at(g2, a);
            lemma_placed(g2, null_row().parts, seq![a]);
            let (g4, i) = code_at(p, vars, g3, *index);
            lemma_shape(p, vars, g3, *index);
            lemma_placed(g4, set_row(p, vars, *array, e), seq![a, i, v]);
            lemma_extends(g1, g2, g3);
            lemma_extends(g1, g3, g4);
            lemma_extends(g1, g4, last);
        },
        ExprKindV::Field { obj, field } => {
            let (g2, o) = code_at(p, vars, g1, *obj);
            lemma_shape(p, vars, g1, *obj);
            let g3 = null_at(g2, o);
            lemma_placed(g2, null_row().parts, seq![o]);
            lemma_placed(g3, store_row(slot_in(p, vars, *obj, field)), seq![o, v]);
            lemma_extends(g1, g2, g3);
            lemma_extends(g1, g3, last);
        },
        _ => {},
    }
}

/// `a[i] = y`, from where `y` is known.
pub open spec fn elem_sense<V, W>(
    b: Base<V, W>,
    p: ProgramV,
    vars: Seq<VarV>,
    vals: Seq<V>,
    x: StmtV,
    y: V,
    w: W,
) -> Option<After<V, W>> {
    let (target, e) = (x.kind->Assign_target, x.kind->Assign_value);
    let (array, index) = (*target.kind->Index_array, *target.kind->Index_index);
    match sense(b, p, vars, vals, array, w) {
        Value::Is(a, w2) => match value_of(b, null_row(), seq![a], w2) {
            Value::Is(_, w3) => match sense(b, p, vars, vals, index, w3) {
                Value::Is(i, w4) => effect(
                    row(b, set_row(p, vars, array, e), seq![a, i, y], w4),
                    vals,
                ),
                other => ended(other),
            },
            other => ended(other),
        },
        other => ended(other),
    }
}

/// `o.f = y`, from where `y` is known.
pub open spec fn own_field_sense<V, W>(
    b: Base<V, W>,
    p: ProgramV,
    vars: Seq<VarV>,
    vals: Seq<V>,
    x: StmtV,
    y: V,
    w: W,
) -> Option<After<V, W>> {
    let target = x.kind->Assign_target;
    let (obj, field) = (*target.kind->Field_obj, target.kind->Field_field);
    match sense(b, p, vars, vals, obj, w) {
        Value::Is(o, w2) => match value_of(b, null_row(), seq![o], w2) {
            Value::Is(_, w3) => effect(
                row(b, store_row(slot_in(p, vars, obj, field)), seq![o, y], w3),
                vals,
            ),
            other => ended(other),
        },
        other => ended(other),
    }
}

proof fn lemma_set_elem<V, W>(
    b: Base<V, W>,
    cx: Place,
    vars: Seq<VarV>,
    vals: Seq<V>,
    cs: Seq<CodeV>,
    g: Gen,
    x: StmtV,
    y: V,
    s: State<V, W>,
    fuel: nat,
) -> (t: State<V, W>)
    requires
        x.kind is Assign,
        x.kind->Assign_target.kind is Index,
        stmt_ok(cx, vars, x),
        ({
            let (g1, v) = code_at(cx.prog, vars, g, x.kind->Assign_value);
            &&& known(v, g1)
            &&& opnd_val(b, s, v) == y
            &&& able(vars, vals, cs, g1, stmt_at(cx.prog, vars, g, x).0, s)
        }),
    ensures
        stmt_ends(
            b,
            cs,
            code_at(cx.prog, vars, g, x.kind->Assign_value).0,
            stmt_at(cx.prog, vars, g, x).0,
            vars,
            vars,
            s,
            t,
            fuel,
            elem_sense(b, cx.prog, vars, vals, x, y, s.w),
        ),
{
    let p = cx.prog;
    let last = stmt_at(p, vars, g, x).0;
    let (target, e) = (x.kind->Assign_target, x.kind->Assign_value);
    let (array, index) = (*target.kind->Index_array, *target.kind->Index_index);
    parts_of_assign(cx, vars, g, x);
    let (g1, v) = code_at(p, vars, g, e);
    let (g2, a) = code_at(p, vars, g1, array);
    lemma_shape(p, vars, g1, array);
    let g3 = null_at(g2, a);
    lemma_placed(g2, null_row().parts, seq![a]);
    let (g4, i) = code_at(p, vars, g3, index);
    lemma_shape(p, vars, g3, index);
    let r = set_row(p, vars, array, e);
    lemma_placed(g4, r, seq![a, i, v]);
    lemma_extends(g1, g2, g3);
    lemma_extends(g1, g3, g4);
    lemma_extends(g3, g4, last);
    lemma_extends(g2, g3, last);
    lemma_known(a, g2, g3);
    lemma_known(a, g3, g4);
    lemma_known(v, g1, g4);
    lemma_able_less(vars, vals, cs, g1, g2, last, s);
    lemma_able_less(vars, vals, cs, g1, g3, last, s);
    lemma_ready(vars, vals, cs, g1, g2, s);
    let t = lemma_expr(b, p, vars, vals, cs, g1, array, s, fuel);
    match sense(b, p, vars, vals, array, s.w) {
        Value::Is(av, w2) => {
            let u = lemma_null(b, cs, g2, a, av, t, fuel);
            match value_of(b, null_row(), seq![av], w2) {
                Value::Is(_, w3) => {
                    lemma_moves(b, cs, g1, g2, g3, s, t, u, fuel);
                    lemma_able_on(vars, vals, cs, g1, g3, last, s, u);
                    lemma_able_less(vars, vals, cs, g3, g4, last, u);
                    lemma_ready(vars, vals, cs, g3, g4, u);
                    let z = lemma_expr(b, p, vars, vals, cs, g3, index, u, fuel);
                    match sense(b, p, vars, vals, index, w3) {
                        Value::Is(iv, w4) => {
                            lemma_moves(b, cs, g1, g3, g4, s, u, z, fuel);
                            lemma_val_kept(b, u, z, g3, a);
                            lemma_val_kept(b, s, z, g1, v);
                            lemma_able_on(vars, vals, cs, g1, g4, last, s, z);
                            let os = seq![a, i, v];
                            let vs = seq![av, iv, y];
                            assert(are(b, z, os, vs));
                            assert(all_known(os, g4));
                            let k = lemma_row(b, cs, g4, r, os, vs, z, fuel);
                            let end = row(b, r, vs, w4);
                            lemma_effect(b, cs, g4, last, vars, vals, z, k, fuel, end);
                            lemma_chain(
                                b,
                                cs,
                                g1,
                                g4,
                                last,
                                vars,
                                vars,
                                s,
                                z,
                                k,
                                fuel,
                                effect(end, vals),
                            );
                            k
                        },
                        other => {
                            lemma_then(b, cs, g1, g3, (g4, i), s, u, z, fuel, other);
                            lemma_value_end(
                                b,
                                cs,
                                g1,
                                (g4, i),
                                last,
                                vars,
                                vars,
                                s,
                                z,
                                fuel,
                                other,
                            );
                            z
                        },
                    }
                },
                other => {
                    lemma_then(b, cs, g1, g2, (g3, a), s, t, u, fuel, other);
                    lemma_value_end(b, cs, g1, (g3, a), last, vars, vars, s, u, fuel, other);
                    u
                },
            }
        },
        other => {
            lemma_value_end(b, cs, g1, (g2, a), last, vars, vars, s, t, fuel, other);
            t
        },
    }
}

proof fn lemma_set_field<V, W>(
    b: Base<V, W>,
    cx: Place,
    vars: Seq<VarV>,
    vals: Seq<V>,
    cs: Seq<CodeV>,
    g: Gen,
    x: StmtV,
    y: V,
    s: State<V, W>,
    fuel: nat,
) -> (t: State<V, W>)
    requires
        x.kind is Assign,
        x.kind->Assign_target.kind is Field,
        stmt_ok(cx, vars, x),
        ({
            let (g1, v) = code_at(cx.prog, vars, g, x.kind->Assign_value);
            &&& known(v, g1)
            &&& opnd_val(b, s, v) == y
            &&& able(vars, vals, cs, g1, stmt_at(cx.prog, vars, g, x).0, s)
        }),
    ensures
        stmt_ends(
            b,
            cs,
            code_at(cx.prog, vars, g, x.kind->Assign_value).0,
            stmt_at(cx.prog, vars, g, x).0,
            vars,
            vars,
            s,
            t,
            fuel,
            own_field_sense(b, cx.prog, vars, vals, x, y, s.w),
        ),
{
    let p = cx.prog;
    let last = stmt_at(p, vars, g, x).0;
    let (target, e) = (x.kind->Assign_target, x.kind->Assign_value);
    let (obj, field) = (*target.kind->Field_obj, target.kind->Field_field);
    parts_of_assign(cx, vars, g, x);
    let (g1, v) = code_at(p, vars, g, e);
    let (g2, o) = code_at(p, vars, g1, obj);
    lemma_shape(p, vars, g1, obj);
    let g3 = null_at(g2, o);
    lemma_placed(g2, null_row().parts, seq![o]);
    let k = slot_in(p, vars, obj, field);
    lemma_placed(g3, store_row(k), seq![o, v]);
    lemma_extends(g1, g2, g3);
    lemma_extends(g2, g3, last);
    lemma_known(o, g2, g3);
    lemma_known(v, g1, g3);
    lemma_able_less(vars, vals, cs, g1, g2, last, s);
    lemma_able_less(vars, vals, cs, g1, g3, last, s);
    lemma_ready(vars, vals, cs, g1, g2, s);
    let t = lemma_expr(b, p, vars, vals, cs, g1, obj, s, fuel);
    match sense(b, p, vars, vals, obj, s.w) {
        Value::Is(ov, w2) => {
            let u = lemma_null(b, cs, g2, o, ov, t, fuel);
            match value_of(b, null_row(), seq![ov], w2) {
                Value::Is(_, w3) => {
                    lemma_moves(b, cs, g1, g2, g3, s, t, u, fuel);
                    lemma_able_on(vars, vals, cs, g1, g3, last, s, u);
                    lemma_val_kept(b, s, u, g1, v);
                    let z = lemma_store(b, cs, g3, o, ov, k, v, y, u, fuel);
                    let end = row(b, store_row(k), seq![ov, y], w3);
                    lemma_effect(b, cs, g3, last, vars, vals, u, z, fuel, end);
                    let a = effect(end, vals);
                    lemma_chain(b, cs, g1, g3, last, vars, vars, s, u, z, fuel, a);
                    z
                },
                other => {
                    lemma_then(b, cs, g1, g2, (g3, o), s, t, u, fuel, other);
                    lemma_value_end(b, cs, g1, (g3, o), last, vars, vars, s, u, fuel, other);
                    u
                },
            }
        },
        other => {
            lemma_value_end(b, cs, g1, (g2, o), last, vars, vars, s, t, fuel, other);
            t
        },
    }
}

/// The code of statements one after the other.
pub proof fn lemma_stmts<V, W>(
    b: Base<V, W>,
    cx: Place,
    vars: Seq<VarV>,
    vals: Seq<V>,
    cs: Seq<CodeV>,
    g: Gen,
    ss: Seq<StmtV>,
    i: int,
    s: State<V, W>,
    fuel: nat,
) -> (t: State<V, W>)
    requires
        stmts_ok(cx, vars, ss, i),
        0 <= i <= ss.len(),
        able(vars, vals, cs, g, stmts_at(cx.prog, vars, g, ss, i), s),
    ensures
        block_ends(
            b,
            cs,
            g,
            stmts_at(cx.prog, vars, g, ss, i),
            vars,
            s,
            t,
            fuel,
            stmts_sense(b, cx.prog, vars, vals, ss, i, s.w, fuel),
        ),
    decreases fuel, ss, ss.len() - i,
{
    let p = cx.prog;
    let last = stmts_at(p, vars, g, ss, i);
    parts_of_stmts(cx, vars, g, ss, i);
    sense_of_stmts(b, cx, vars, vals, g, ss, i, s.w, fuel);
    if i == ss.len() {
        lemma_vals_len(vars, s, vals);
        lemma_stays_self(s, vars, g);
        s
    } else {
        let (g1, after) = stmt_at(p, vars, g, ss[i]);
        lemma_stmt_shape(cx, vars, g, ss[i]);
        if closes(ss[i]) {
            lemma_stmt(b, cx, vars, vals, cs, g, ss[i], s, fuel)
        } else {
            lemma_stmts_shape(cx, after, g1, ss, i + 1);
            lemma_able_less(vars, vals, cs, g, g1, last, s);
            lemma_after(cx, vars, g, ss[i]);
            let t = lemma_stmt(b, cx, vars, vals, cs, g, ss[i], s, fuel);
            match stmt_sense(b, p, vars, vals, ss[i], s.w, fuel) {
                Some(After::Next(vals1, w1)) => {
                    let u = lemma_stmts(b, cx, after, vals1, cs, g1, ss, i + 1, t, fuel);
                    let a = stmts_sense(b, p, after, vals1, ss, i + 1, w1, fuel);
                    lemma_grows(g, g1);
                    lemma_block_chain(b, cs, g, g1, last, vars, after, s, t, u, fuel, a);
                    u
                },
                _ => t,
            }
        }
    }
}

/// What statements do after one that goes on.
proof fn lemma_block_chain<V, W>(
    b: Base<V, W>,
    cs: Seq<CodeV>,
    f: Gen,
    g: Gen,
    h: Gen,
    vars: Seq<VarV>,
    after: Seq<VarV>,
    r: State<V, W>,
    s: State<V, W>,
    t: State<V, W>,
    fuel: nat,
    a: Option<After<V, W>>,
)
    requires
        go(b, cs, f.code.len(), r, fuel) == go(b, cs, g.code.len(), s, fuel),
        stays(r, s, vars, f),
        grown(vars, after, f),
        f.regs.len() <= g.regs.len(),
        f.slots.len() <= g.slots.len(),
        block_ends(b, cs, g, h, after, s, t, fuel, a),
    ensures
        block_ends(b, cs, f, h, vars, r, t, fuel, a),
{
    match a {
        Some(After::Next(vs, w)) => lemma_has_come_scope(vars, after, f, g, r, s, t, vs, w),
        _ => lemma_comes_scope(
            b,
            vars,
            after,
            f,
            g,
            r,
            s,
            go(b, cs, g.code.len(), s, fuel),
            t,
            a,
        ),
    }
}

/// A block of its own, in a state in which the variables have their values.
proof fn lemma_body<V, W>(
    b: Base<V, W>,
    cx: Place,
    vars: Seq<VarV>,
    vals: Seq<V>,
    g: Gen,
    ss: Seq<StmtV>,
    s: State<V, W>,
    fuel: nat,
) -> (t: State<V, W>)
    requires
        stmts_ok(cx, vars, ss, 0),
        held(vars, g),
        holds_vals(vars, s, vals),
        stmts_at(cx.prog, vars, inner(g), ss, 0).slots.len() <= usize::MAX,
    ensures
        comes(
            b,
            vars,
            g,
            s,
            go(b, stmts_at(cx.prog, vars, inner(g), ss, 0).code, 0, s, fuel),
            t,
            stmts_sense(b, cx.prog, vars, vals, ss, 0, s.w, fuel),
        ),
    decreases fuel, ss, ss.len() + 1,
{
    let h = stmts_at(cx.prog, vars, inner(g), ss, 0);
    lemma_begins_self(h);
    lemma_held(vars, g, inner(g));
    let t = lemma_stmts(b, cx, vars, vals, h.code, inner(g), ss, 0, s, fuel);
    let a = stmts_sense(b, cx.prog, vars, vals, ss, 0, s.w, fuel);
    lemma_whole(b, inner(g), h, vars, s, t, fuel, a);
    lemma_grown_self(vars, g);
    lemma_stays_self(s, vars, g);
    lemma_comes_scope(b, vars, vars, g, inner(g), s, s, go(b, h.code, 0, s, fuel), t, a);
    t
}

proof fn lemma_if<V, W>(
    b: Base<V, W>,
    cx: Place,
    vars: Seq<VarV>,
    vals: Seq<V>,
    cs: Seq<CodeV>,
    g: Gen,
    x: StmtV,
    s: State<V, W>,
    fuel: nat,
) -> (t: State<V, W>)
    requires
        x.kind is If,
        stmt_ok(cx, vars, x),
        able(vars, vals, cs, g, stmt_at(cx.prog, vars, g, x).0, s),
    ensures
        stmt_ends(
            b,
            cs,
            g,
            stmt_at(cx.prog, vars, g, x).0,
            vars,
            stmt_at(cx.prog, vars, g, x).1,
            s,
            t,
            fuel,
            stmt_sense(b, cx.prog, vars, vals, x, s.w, fuel),
        ),
    decreases fuel, x, 0int,
{
    let p = cx.prog;
    let last = stmt_at(p, vars, g, x).0;
    parts_of_if(cx, vars, g, x);
    sense_of_if(b, p, vars, vals, x, s.w, fuel);
    let (g1, c) = code_at(p, vars, g, sole(x));
    lemma_shape(p, vars, g, sole(x));
    let (yes, no) = (x.kind->If_then_body, x.kind->If_else_body);
    let y = stmts_at(p, vars, inner(g1), yes, 0);
    lemma_stmts_shape(cx, vars, inner(g1), yes, 0);
    lemma_grows(inner(g1), y);
    let n = stmts_at(p, vars, inner(y), no, 0);
    lemma_stmts_shape(cx, vars, inner(y), no, 0);
    lemma_grows(inner(y), n);
    lemma_extends_then(g1, CodeV::If { cond: c, then: y.code, els: n.code }, n);
    lemma_able_less(vars, vals, cs, g, g1, last, s);
    lemma_ready(vars, vals, cs, g, g1, s);
    let t = lemma_expr(b, p, vars, vals, cs, g, sole(x), s, fuel);
    match sense(b, p, vars, vals, sole(x), s.w) {
        Value::Is(cv, w1) => {
            lemma_able_on(vars, vals, cs, g, g1, last, s, t);
            lemma_vals_len(vars, t, vals);
            lemma_if_run(b, cs, g1, c, y.code, n.code, n, t, fuel);
            lemma_stays_self(t, vars, g1);
            lemma_grown_self(vars, g1);
            if (b.truth)(cv) {
                let u = lemma_body(b, cx, vars, vals, g1, yes, t, fuel);
                let a = stmts_sense(b, p, vars, vals, yes, 0, w1, fuel);
                let out = go(b, y.code, 0, t, fuel);
                lemma_wrap(b, cs, g1, last, vars, t, out, u, fuel, a);
                let end = cut(a, vals.len());
                lemma_chain(b, cs, g, g1, last, vars, vars, s, t, u, fuel, end);
                u
            } else {
                lemma_held(vars, g1, y);
                let u = lemma_body(b, cx, vars, vals, y, no, t, fuel);
                let a = stmts_sense(b, p, vars, vals, no, 0, w1, fuel);
                let out = go(b, n.code, 0, t, fuel);
                lemma_comes_scope(b, vars, vars, g1, y, t, t, out, u, a);
                lemma_wrap(b, cs, g1, last, vars, t, out, u, fuel, a);
                let end = cut(a, vals.len());
                lemma_chain(b, cs, g, g1, last, vars, vars, s, t, u, fuel, end);
                u
            }
        },
        other => {
            lemma_value_end(b, cs, g, (g1, c), last, vars, vars, s, t, fuel, other);
            t
        },
    }
}

proof fn lemma_loop<V, W>(
    b: Base<V, W>,
    cx: Place,
    vars: Seq<VarV>,
    vals: Seq<V>,
    cs: Seq<CodeV>,
    g: Gen,
    x: StmtV,
    s: State<V, W>,
    fuel: nat,
) -> (t: State<V, W>)
    requires
        is_loop(x),
        stmt_ok(cx, vars, x),
        able(vars, vals, cs, g, stmt_at(cx.prog, vars, g, x).0, s),
    ensures
        stmt_ends(
            b,
            cs,
            g,
            stmt_at(cx.prog, vars, g, x).0,
            vars,
            stmt_at(cx.prog, vars, g, x).1,
            s,
            t,
            fuel,
            stmt_sense(b, cx.prog, vars, vals, x, s.w, fuel),
        ),
    decreases fuel, x, 3int,
{
    let p = cx.prog;
    let last = stmt_at(p, vars, g, x).0;
    parts_of_loop(cx, vars, g, x);
    sense_of_loop(b, cx, vars, vals, g, x, s.w, fuel);
    let (g1, inside) = opt_at(p, vars, g, loop_init(x));
    let (c, st) = loop_at(p, inside, g1, x);
    lemma_loop_parts(cx, inside, g1, x);
    lemma_extends_then(g1, c, st);
    lemma_vals_len(vars, s, vals);
    lemma_able_less(vars, vals, cs, g, g1, last, s);
    if x.kind is While {
        let u = lemma_turns(b, cx, vars, vals, g, x, s, fuel);
        lemma_loop_run(b, cs, g, c, st, s, fuel);
        let a = turns_sense(b, p, vars, vals, x, s.w, fuel);
        lemma_uncut(a, vars.len());
        lemma_wrap(b, cs, g, last, vars, s, loop_out(b, c, s, fuel), u, fuel, a);
        u
    } else {
        lemma_opt_shape(cx, vars, g, loop_init(x));
        lemma_opt_after(cx, vars, g, loop_init(x));
        let t = lemma_opt(b, cx, vars, vals, cs, g, x.kind->For_init, s, fuel);
        match opt_sense(b, p, vars, vals, loop_init(x), s.w, fuel) {
            Some(After::Next(vals1, w1)) => {
                let u = lemma_turns(b, cx, inside, vals1, g1, x, t, fuel);
                lemma_loop_run(b, cs, g1, c, st, t, fuel);
                let a = turns_sense(b, p, inside, vals1, x, w1, fuel);
                let out = loop_out(b, c, t, fuel);
                lemma_grows(g, g1);
                lemma_comes_scope(b, vars, inside, g, g1, s, t, out, u, a);
                lemma_wrap(b, cs, g, last, vars, s, out, u, fuel, a);
                u
            },
            _ => t,
        }
    }
}

/// A statement that may be left out.
proof fn lemma_opt<V, W>(
    b: Base<V, W>,
    cx: Place,
    vars: Seq<VarV>,
    vals: Seq<V>,
    cs: Seq<CodeV>,
    g: Gen,
    x: Option<Box<StmtV>>,
    s: State<V, W>,
    fuel: nat,
) -> (t: State<V, W>)
    requires
        opt_ok(cx, vars, x),
        able(vars, vals, cs, g, opt_at(cx.prog, vars, g, x).0, s),
    ensures
        stmt_ends(
            b,
            cs,
            g,
            opt_at(cx.prog, vars, g, x).0,
            vars,
            opt_at(cx.prog, vars, g, x).1,
            s,
            t,
            fuel,
            opt_sense(b, cx.prog, vars, vals, x, s.w, fuel),
        ),
    decreases fuel, x, 0int,
{
    parts_of_opt(cx, vars, g, x);
    sense_of_opt(b, cx.prog, vars, vals, x, s.w, fuel);
    lemma_stays_self(s, vars, g);
    match x {
        Some(y) => lemma_stmt(b, cx, vars, vals, cs, g, *y, s, fuel),
        None => s,
    }
}

proof fn lemma_opt_after(cx: Place, vars: Seq<VarV>, g: Gen, x: Option<Box<StmtV>>)
    requires
        opt_ok(cx, vars, x),
        held(vars, g),
        opt_at(cx.prog, vars, g, x).0.slots.len() <= usize::MAX,
    ensures
        held(opt_at(cx.prog, vars, g, x).1, opt_at(cx.prog, vars, g, x).0),
        grown(vars, opt_at(cx.prog, vars, g, x).1, g),
{
    parts_of_opt(cx, vars, g, x);
    match x {
        Some(y) => lemma_after(cx, vars, g, *y),
        None => lemma_grown_self(vars, g),
    }
}

/// Where no variable is new, none goes.
proof fn lemma_uncut<V, W>(a: Option<After<V, W>>, n: nat)
    requires
        of_len(a, n),
    ensures
        cut(a, n) == a,
{
    match a {
        Some(After::Next(vs, w)) => {
            assert(vs.take(n as int) =~= vs);
        },
        Some(After::Brk(vs, w)) => {
            assert(vs.take(n as int) =~= vs);
        },
        Some(After::Cont(vs, w)) => {
            assert(vs.take(n as int) =~= vs);
        },
        _ => {},
    }
}

/// There are `n` variables.
pub open spec fn of_len<V, W>(a: Option<After<V, W>>, n: nat) -> bool {
    match a {
        Some(After::Next(vs, _)) => vs.len() == n,
        Some(After::Brk(vs, _)) => vs.len() == n,
        Some(After::Cont(vs, _)) => vs.len() == n,
        _ => true,
    }
}

/// The turns of a loop.
proof fn lemma_turns<V, W>(
    b: Base<V, W>,
    cx: Place,
    vars: Seq<VarV>,
    vals: Seq<V>,
    g: Gen,
    x: StmtV,
    s: State<V, W>,
    fuel: nat,
) -> (t: State<V, W>)
    requires
        is_loop(x),
        loop_ok(cx, vars, x),
        held(vars, g),
        holds_vals(vars, s, vals),
        loop_at(cx.prog, vars, g, x).1.slots.len() <= usize::MAX,
    ensures
        comes(
            b,
            vars,
            g,
            s,
            loop_out(b, loop_at(cx.prog, vars, g, x).0, s, fuel),
            t,
            turns_sense(b, cx.prog, vars, vals, x, s.w, fuel),
        ),
        of_len(turns_sense(b, cx.prog, vars, vals, x, s.w, fuel), vars.len()),
    decreases fuel, x, 2int,
{
    let p = cx.prog;
    let (c, st) = loop_at(p, vars, g, x);
    let (h, o) = code_at(p, vars, inner(g), sole(x));
    let bg = stmts_at(p, vars, inner(h), loop_body(x), 0);
    lemma_loop_parts(cx, vars, g, x);
    lemma_turn_run(b, h.code, o, bg.code, st.code, s, fuel);
    sense_of_turns(b, p, vars, vals, x, s.w, fuel);
    lemma_vals_len(vars, s, vals);
    if fuel == 0 {
        s
    } else {
        lemma_begins_self(h);
        lemma_held(vars, g, inner(g));
        lemma_held(vars, g, h);
        lemma_ready(vars, vals, h.code, inner(g), h, s);
        let t = lemma_expr(b, p, vars, vals, h.code, inner(g), sole(x), s, fuel);
        match sense(b, p, vars, vals, sole(x), s.w) {
            Value::Is(cv, w1) => {
                lemma_code_end(b, h.code, t, fuel);
                lemma_vals_kept(vars, vals, inner(g), s, t);
                lemma_stays_keeps(s, t, vars, inner(g));
                lemma_stays_self(s, vars, g);
                lemma_stays(s, s, t, vars, g, inner(g));
                if (b.truth)(cv) {
                    let u = lemma_body(b, looped(cx), vars, vals, h, loop_body(x), t, fuel);
                    lemma_turn_end(b, cx, vars, vals, g, x, s, t, u, w1, fuel)
                } else {
                    t
                }
            },
            _ => t,
        }
    }
}

/// A turn of a loop from the end of its body on.
proof fn lemma_turn_end<V, W>(
    b: Base<V, W>,
    cx: Place,
    vars: Seq<VarV>,
    vals: Seq<V>,
    g: Gen,
    x: StmtV,
    s: State<V, W>,
    t: State<V, W>,
    u: State<V, W>,
    w: W,
    fuel: nat,
) -> (z: State<V, W>)
    requires
        fuel > 0,
        is_loop(x),
        loop_ok(cx, vars, x),
        held(vars, g),
        vals.len() == vars.len(),
        stays(s, t, vars, g),
        loop_at(cx.prog, vars, g, x).1.slots.len() <= usize::MAX,
        ({
            let p = cx.prog;
            let (c, st) = loop_at(p, vars, g, x);
            let (h, o) = code_at(p, vars, inner(g), sole(x));
            let bg = stmts_at(p, vars, inner(h), loop_body(x), 0);
            &&& comes(
                b,
                vars,
                h,
                t,
                go(b, bg.code, 0, t, fuel),
                u,
                stmts_sense(b, p, vars, vals, loop_body(x), 0, w, fuel),
            )
            &&& loop_out(b, c, s, fuel) == match go(b, bg.code, 0, t, fuel) {
                Some(Out::End(s2)) => step_out(b, c, s2, fuel),
                Some(Out::Cont(s2)) => step_out(b, c, s2, fuel),
                Some(Out::Brk(s2)) => Some(Out::End(s2)),
                other => other,
            }
        }),
    ensures
        ({
            let p = cx.prog;
            let body = cut(stmts_sense(b, p, vars, vals, loop_body(x), 0, w, fuel), vals.len());
            let a = turn_on(b, p, vars, vals, x, body, fuel);
            &&& comes(b, vars, g, s, loop_out(b, loop_at(p, vars, g, x).0, s, fuel), z, a)
            &&& of_len(a, vars.len())
        }),
    decreases fuel, x, 1int,
{
    let p = cx.prog;
    let n = vars.len();
    let (c, st) = loop_at(p, vars, g, x);
    let (h, o) = code_at(p, vars, inner(g), sole(x));
    let bg = stmts_at(p, vars, inner(h), loop_body(x), 0);
    lemma_loop_parts(cx, vars, g, x);
    let a = stmts_sense(b, p, vars, vals, loop_body(x), 0, w, fuel);
    lemma_grown_self(vars, g);
    lemma_comes_scope(b, vars, vars, g, h, s, t, go(b, bg.code, 0, t, fuel), u, a);
    match a {
        Some(After::Next(vs, w2)) => {
            let z = lemma_turn_step(b, cx, vars, vs.take(n as int), g, x, u, fuel);
            let end = turned(b, p, vars, vs.take(n as int), n, x, w2, fuel);
            lemma_comes_scope(b, vars, vars, g, g, s, u, step_out(b, c, u, fuel), z, end);
            z
        },
        Some(After::Cont(vs, w2)) => {
            let z = lemma_turn_step(b, cx, vars, vs.take(n as int), g, x, u, fuel);
            let end = turned(b, p, vars, vs.take(n as int), n, x, w2, fuel);
            lemma_comes_scope(b, vars, vars, g, g, s, u, step_out(b, c, u, fuel), z, end);
            z
        },
        Some(After::Brk(vs, w2)) => {
            lemma_vals_len(vars, u, vs.take(n as int));
            u
        },
        _ => u,
    }
}

/// A loop after the body of a turn.
proof fn lemma_turn_step<V, W>(
    b: Base<V, W>,
    cx: Place,
    vars: Seq<VarV>,
    vals: Seq<V>,
    g: Gen,
    x: StmtV,
    s: State<V, W>,
    fuel: nat,
) -> (t: State<V, W>)
    requires
        fuel > 0,
        is_loop(x),
        loop_ok(cx, vars, x),
        held(vars, g),
        holds_vals(vars, s, vals),
        loop_at(cx.prog, vars, g, x).1.slots.len() <= usize::MAX,
    ensures
        comes(
            b,
            vars,
            g,
            s,
            step_out(b, loop_at(cx.prog, vars, g, x).0, s, fuel),
            t,
            turned(b, cx.prog, vars, vals, vars.len(), x, s.w, fuel),
        ),
        of_len(turned(b, cx.prog, vars, vals, vars.len(), x, s.w, fuel), vars.len()),
    decreases fuel, x, 0int,
{
    let p = cx.prog;
    let n = vars.len();
    let (c, st) = loop_at(p, vars, g, x);
    let (h, o) = code_at(p, vars, inner(g), sole(x));
    let bg = stmts_at(p, vars, inner(h), loop_body(x), 0);
    lemma_loop_parts(cx, vars, g, x);
    lemma_turn_run(b, h.code, o, bg.code, st.code, s, fuel);
    reveal(turned);
    let less = (fuel - 1) as nat;
    if x.kind is While {
        parts_of_opt(cx, vars, inner(bg), None);
        lemma_no_code(b, s, fuel);
        lemma_turns(b, cx, vars, vals, g, x, s, less)
    } else {
        let step = x.kind->For_step;
        let after = opt_at(p, vars, inner(bg), step).1;
        lemma_begins_self(st);
        lemma_held(vars, g, inner(bg));
        lemma_opt_after(cx, vars, inner(bg), step);
        let t = lemma_opt(b, cx, vars, vals, st.code, inner(bg), step, s, fuel);
        let a = opt_sense(b, p, vars, vals, step, s.w, fuel);
        lemma_stmt_block(b, st.code, inner(bg), st, vars, after, s, t, fuel, a);
        lemma_whole(b, inner(bg), st, vars, s, t, fuel, a);
        let out = go(b, st.code, 0, s, fuel);
        lemma_grown_self(vars, g);
        lemma_stays_self(s, vars, g);
        lemma_comes_scope(b, vars, vars, g, inner(bg), s, s, out, t, a);
        match a {
            Some(After::Next(vs, w3)) => {
                let z = lemma_turns(b, cx, vars, vs.take(n as int), g, x, t, less);
                let end = turns_sense(b, p, vars, vs.take(n as int), x, w3, less);
                lemma_comes_scope(b, vars, vars, g, g, s, t, loop_out(b, c, t, less), z, end);
                z
            },
            Some(After::Brk(vs, w3)) => {
                lemma_vals_len(vars, t, vs.take(n as int));
                assert(vs.take(n as int).take(n as int) =~= vs.take(n as int));
                t
            },
            Some(After::Cont(vs, w3)) => {
                lemma_vals_len(vars, t, vs.take(n as int));
                assert(vs.take(n as int).take(n as int) =~= vs.take(n as int));
                t
            },
            _ => t,
        }
    }
}

proof fn lemma_each<V, W>(
    b: Base<V, W>,
    cx: Place,
    vars: Seq<VarV>,
    vals: Seq<V>,
    cs: Seq<CodeV>,
    g: Gen,
    x: StmtV,
    s: State<V, W>,
    fuel: nat,
) -> (t: State<V, W>)
    requires
        x.kind is ForIn,
        stmt_ok(cx, vars, x),
        able(vars, vals, cs, g, stmt_at(cx.prog, vars, g, x).0, s),
    ensures
        stmt_ends(
            b,
            cs,
            g,
            stmt_at(cx.prog, vars, g, x).0,
            vars,
            stmt_at(cx.prog, vars, g, x).1,
            s,
            t,
            fuel,
            stmt_sense(b, cx.prog, vars, vals, x, s.w, fuel),
        ),
    decreases fuel, x, 6int,
{
    let p = cx.prog;
    let last = stmt_at(p, vars, g, x).0;
    parts_of_each(cx, vars, g, x);
    sense_of_each(b, p, vars, vals, x, s.w, fuel);
    lemma_each_start(cx, vars, g, x);
    let ty = type_at(p, vars, sole(x));
    each_rows_ok(ty, IrTy::Ptr);
    let (g1, it) = code_at(p, vars, g, sole(x));
    let g2 = null_at(g1, it);
    let (g3, arr) = placed_row(g2, keys_row(ty), seq![it]);
    lemma_each_rest(cx, vars, g, x);
    lemma_extends(g, g1, g2);
    lemma_extends(g, g2, g3);
    lemma_extends(g2, g3, last);
    lemma_extends(g1, g2, last);
    lemma_able_less(vars, vals, cs, g, g1, last, s);
    lemma_able_less(vars, vals, cs, g, g2, last, s);
    lemma_able_less(vars, vals, cs, g, g3, last, s);
    lemma_ready(vars, vals, cs, g, g1, s);
    let t = lemma_expr(b, p, vars, vals, cs, g, sole(x), s, fuel);
    match sense(b, p, vars, vals, sole(x), s.w) {
        Value::Is(iv, w1) => {
            let u = lemma_null(b, cs, g1, it, iv, t, fuel);
            match value_of(b, null_row(), seq![iv], w1) {
                Value::Is(_, w2) => {
                    lemma_moves(b, cs, g, g1, g2, s, t, u, fuel);
                    lemma_one(b, u, it, iv, g2);
                    let z = lemma_value(b, cs, g2, keys_row(ty), seq![it], seq![iv], u, fuel);
                    match value_of(b, keys_row(ty), seq![iv], w2) {
                        Value::Is(av, w3) => {
                            lemma_moves(b, cs, g, g2, g3, s, u, z, fuel);
                            lemma_able_on(vars, vals, cs, g, g3, last, s, z);
                            let k = lemma_walk(b, cx, vars, vals, cs, g, x, av, z, fuel);
                            let a = walk_sense(b, p, vars, vals, x, av, w3, fuel);
                            lemma_chain(b, cs, g, g3, last, vars, vars, s, z, k, fuel, a);
                            k
                        },
                        other => {
                            lemma_then(b, cs, g, g2, (g3, arr), s, u, z, fuel, other);
                            lemma_value_end(
                                b,
                                cs,
                                g,
                                (g3, arr),
                                last,
                                vars,
                                vars,
                                s,
                                z,
                                fuel,
                                other,
                            );
                            z
                        },
                    }
                },
                other => {
                    lemma_then(b, cs, g, g1, (g2, it), s, t, u, fuel, other);
                    lemma_value_end(b, cs, g, (g2, it), last, vars, vars, s, u, fuel, other);
                    u
                },
            }
        },
        other => {
            lemma_value_end(b, cs, g, (g1, it), last, vars, vars, s, t, fuel, other);
            t
        },
    }
}

/// The code of a loop over a collection goes on behind what is walked through.
proof fn lemma_each_rest(cx: Place, vars: Seq<VarV>, g: Gen, x: StmtV)
    requires
        stmt_ok(cx, vars, x),
        x.kind is ForIn,
    ensures
        ({
            let p = cx.prog;
            let ty = type_at(p, vars, sole(x));
            let t = item_ty(p, vars, sole(x));
            let last = stmt_at(p, vars, g, x).0;
            let (g1, it) = code_at(p, vars, g, sole(x));
            let (g3, arr) = placed_row(null_at(g1, it), keys_row(ty), seq![it]);
            let (g4, len) = placed_row(g3, length_row(Ty::Null), seq![arr]);
            let (g7, i_slot, slot) = each_slots(g4, basic_ty(t));
            &&& extends(g3, g4)
            &&& extends(g4, g7)
            &&& extends(g7, last)
            &&& extends(g4, last)
            &&& extends(g3, last)
        }),
{
    let p = cx.prog;
    parts_of_each(cx, vars, g, x);
    lemma_each_start(cx, vars, g, x);
    let ty = type_at(p, vars, sole(x));
    let t = item_ty(p, vars, sole(x));
    let last = stmt_at(p, vars, g, x).0;
    let (g1, it) = code_at(p, vars, g, sole(x));
    let (g3, arr) = placed_row(null_at(g1, it), keys_row(ty), seq![it]);
    let (g4, len) = placed_row(g3, length_row(Ty::Null), seq![arr]);
    let (g7, i_slot, slot) = each_slots(g4, basic_ty(t));
    lemma_each_slots(g4, basic_ty(t));
    lemma_known(len, g4, g7);
    lemma_known(arr, g4, g7);
    lemma_each_parts(cx, vars, g7, len, arr, i_slot, slot, t, x);
    let (c, st) = each_loop(p, vars, g7, len, arr, i_slot, slot, t, x);
    lemma_extends_then(g7, c, st);
    lemma_extends(g4, g7, last);
    lemma_extends(g3, g4, last);
}

/// What comes of a loop over a collection from where what is walked through is known.
pub open spec fn walk_sense<V, W>(
    b: Base<V, W>,
    p: ProgramV,
    vars: Seq<VarV>,
    vals: Seq<V>,
    x: StmtV,
    arr: V,
    w: W,
    fuel: nat,
) -> Option<After<V, W>> {
    match value_of(b, length_row(Ty::Null), seq![arr], w) {
        Value::Is(len, w4) => items_sense(
            b,
            p,
            vars,
            vals,
            x,
            len,
            arr,
            (b.konst)(OpndV::Int(0)),
            w4,
            fuel,
        ),
        other => ended(other),
    }
}

proof fn lemma_walk<V, W>(
    b: Base<V, W>,
    cx: Place,
    vars: Seq<VarV>,
    vals: Seq<V>,
    cs: Seq<CodeV>,
    g: Gen,
    x: StmtV,
    av: V,
    s: State<V, W>,
    fuel: nat,
) -> (u: State<V, W>)
    requires
        x.kind is ForIn,
        stmt_ok(cx, vars, x),
        ({
            let p = cx.prog;
            let (g1, it) = code_at(p, vars, g, sole(x));
            let ty = type_at(p, vars, sole(x));
            let (g3, arr) = placed_row(null_at(g1, it), keys_row(ty), seq![it]);
            &&& opnd_val(b, s, arr) == av
            &&& able(vars, vals, cs, g3, stmt_at(p, vars, g, x).0, s)
        }),
    ensures
        ({
            let p = cx.prog;
            let (g1, it) = code_at(p, vars, g, sole(x));
            let ty = type_at(p, vars, sole(x));
            let (g3, arr) = placed_row(null_at(g1, it), keys_row(ty), seq![it]);
            stmt_ends(
                b,
                cs,
                g3,
                stmt_at(p, vars, g, x).0,
                vars,
                vars,
                s,
                u,
                fuel,
                walk_sense(b, p, vars, vals, x, av, s.w, fuel),
            )
        }),
    decreases fuel, x, 5int,
{
    let p = cx.prog;
    let last = stmt_at(p, vars, g, x).0;
    let ty = type_at(p, vars, sole(x));
    let t = item_ty(p, vars, sole(x));
    parts_of_each(cx, vars, g, x);
    lemma_each_start(cx, vars, g, x);
    lemma_each_rest(cx, vars, g, x);
    each_rows_ok(ty, IrTy::Ptr);
    let (g1, it) = code_at(p, vars, g, sole(x));
    let (g3, arr) = placed_row(null_at(g1, it), keys_row(ty), seq![it]);
    let lr = length_row(Ty::Null);
    let (g4, len) = placed_row(g3, lr, seq![arr]);
    lemma_able_less(vars, vals, cs, g3, g4, last, s);
    lemma_one(b, s, arr, av, g3);
    let t1 = lemma_value(b, cs, g3, lr, seq![arr], seq![av], s, fuel);
    match value_of(b, lr, seq![av], s.w) {
        Value::Is(lv, w4) => {
            lemma_val_kept(b, s, t1, g3, arr);
            lemma_able_on(vars, vals, cs, g3, g4, last, s, t1);
            let u = lemma_walk_on(b, cx, vars, vals, cs, g, x, lv, av, t1, fuel);
            let zero = (b.konst)(OpndV::Int(0));
            let a = items_sense(b, p, vars, vals, x, lv, av, zero, w4, fuel);
            lemma_chain(b, cs, g3, g4, last, vars, vars, s, t1, u, fuel, a);
            u
        },
        other => {
            lemma_value_end(b, cs, g3, (g4, len), last, vars, vars, s, t1, fuel, other);
            t1
        },
    }
}

/// The registers of `g` and its variables but for the last.
pub open spec fn wide_of(g: Gen) -> Gen {
    Gen { code: Seq::empty(), regs: g.regs, slots: g.slots.drop_last() }
}

/// The registers of `g` and its variables but for the last two.
pub open spec fn room_of(g: Gen) -> Gen {
    Gen { code: Seq::empty(), regs: g.regs, slots: g.slots.drop_last().drop_last() }
}

/// A loop over a collection from where its length is known.
proof fn lemma_walk_on<V, W>(
    b: Base<V, W>,
    cx: Place,
    vars: Seq<VarV>,
    vals: Seq<V>,
    cs: Seq<CodeV>,
    g: Gen,
    x: StmtV,
    lv: V,
    av: V,
    s: State<V, W>,
    fuel: nat,
) -> (u: State<V, W>)
    requires
        x.kind is ForIn,
        stmt_ok(cx, vars, x),
        ({
            let (g4, len, arr) = each_start(cx.prog, vars, g, x);
            &&& opnd_val(b, s, len) == lv
            &&& opnd_val(b, s, arr) == av
            &&& able(vars, vals, cs, g4, stmt_at(cx.prog, vars, g, x).0, s)
        }),
    ensures
        stmt_ends(
            b,
            cs,
            each_start(cx.prog, vars, g, x).0,
            stmt_at(cx.prog, vars, g, x).0,
            vars,
            vars,
            s,
            u,
            fuel,
            items_sense(
                b,
                cx.prog,
                vars,
                vals,
                x,
                lv,
                av,
                (b.konst)(OpndV::Int(0)),
                s.w,
                fuel,
            ),
        ),
    decreases fuel, x, 4int,
{
    let p = cx.prog;
    let last = stmt_at(p, vars, g, x).0;
    let t = item_ty(p, vars, sole(x));
    let zero = (b.konst)(OpndV::Int(0));
    parts_of_each(cx, vars, g, x);
    lemma_each_start(cx, vars, g, x);
    lemma_each_rest(cx, vars, g, x);
    let (g4, len, arr) = each_start(p, vars, g, x);
    let (g7, i_slot, slot) = each_slots(g4, basic_ty(t));
    lemma_each_slots(g4, basic_ty(t));
    lemma_grows(g7, last);
    lemma_known(len, g4, g7);
    lemma_known(arr, g4, g7);
    let (c, st) = each_loop(p, vars, g7, len, arr, i_slot, slot, t, x);
    lemma_begins(cs, g7, last);
    let g6 = new_slot(g4, IrTy::I64);
    lemma_begins_code(cs, g7, set_var(g6, i_slot, OpndV::Int(0)));
    let t1 = lemma_set(b, cs, g6, i_slot, OpndV::Int(0), s, fuel);
    lemma_new_var(vars, vals, x.kind->ForIn_var, t, zero, g4, s, t1);
    lemma_val_kept(b, s, t1, g4, len);
    lemma_val_kept(b, s, t1, g4, arr);
    lemma_vals_kept(vars, vals, g4, s, t1);
    lemma_held(vars, g4, room_of(g7));
    let u = lemma_items(
        b,
        cx,
        vars,
        vals,
        g7,
        len,
        lv,
        arr,
        av,
        i_slot,
        slot,
        zero,
        t,
        x,
        t1,
        fuel,
    );
    let a = items_sense(b, p, vars, vals, x, lv, av, zero, s.w, fuel);
    let out = loop_out(b, c, t1, fuel);
    lemma_loop_run(b, cs, g7, c, st, t1, fuel);
    lemma_grown_self(vars, g4);
    lemma_comes_scope(b, vars, vars, g4, room_of(g7), s, t1, out, u, a);
    lemma_wrap(b, cs, g4, last, vars, s, out, u, fuel, a);
    lemma_uncut(a, vars.len());
    u
}

/// Code with the same text.
proof fn lemma_begins_code(cs: Seq<CodeV>, g: Gen, h: Gen)
    requires
        begins(cs, g),
        g.code == h.code,
    ensures
        begins(cs, h),
{
    reveal(begins);
}

/// The turns of a loop over a collection.
proof fn lemma_items<V, W>(
    b: Base<V, W>,
    cx: Place,
    vars: Seq<VarV>,
    vals: Seq<V>,
    g: Gen,
    len: OpndV,
    lv: V,
    arr: OpndV,
    av: V,
    i_slot: usize,
    slot: usize,
    iv: V,
    t: Ty,
    x: StmtV,
    s: State<V, W>,
    fuel: nat,
) -> (u: State<V, W>)
    requires
        x.kind is ForIn,
        t == item_ty(cx.prog, vars, sole(x)),
        stmts_ok(looped(cx), with_var(vars, x.kind->ForIn_var, slot, t), loop_body(x), 0),
        known(len, g),
        known(arr, g),
        slot == i_slot + 1,
        g.slots.len() == i_slot + 2,
        held(vars, room_of(g)),
        each_loop(cx.prog, vars, g, len, arr, i_slot, slot, t, x).1.slots.len() <= usize::MAX,
        holds_vals(vars, s, vals),
        opnd_val(b, s, len) == lv,
        opnd_val(b, s, arr) == av,
        s.vars[i_slot as nat] == iv,
    ensures
        comes(
            b,
            vars,
            room_of(g),
            s,
            loop_out(b, each_loop(cx.prog, vars, g, len, arr, i_slot, slot, t, x).0, s, fuel),
            u,
            items_sense(b, cx.prog, vars, vals, x, lv, av, iv, s.w, fuel),
        ),
        of_len(items_sense(b, cx.prog, vars, vals, x, lv, av, iv, s.w, fuel), vars.len()),
    decreases fuel, x, 3int,
{
    let p = cx.prog;
    let inside = with_var(vars, x.kind->ForIn_var, slot, t);
    lemma_each_parts(cx, vars, g, len, arr, i_slot, slot, t, x);
    let (c, st) = each_loop(p, vars, g, len, arr, i_slot, slot, t, x);
    let (h1, i) = emit(inner(g), IrTy::I64, Op::GetVar(i_slot), Seq::empty());
    let (h, o) = placed_row(h1, below_row(), seq![i, len]);
    let b3 = each_item(h, arr, i, slot, basic_ty(t));
    let bg = stmts_at(p, inside, b3, loop_body(x), 0);
    lemma_turn_run(b, h.code, o, bg.code, st.code, s, fuel);
    sense_of_items(b, p, vars, vals, slot, x, lv, av, iv, s.w, fuel);
    each_rows_ok(t, basic_ty(t));
    lemma_vals_len(vars, s, vals);
    if fuel == 0 {
        s
    } else {
        lemma_begins_self(h);
        lemma_begins(h.code, h1, h);
        let t1 = lemma_get(b, h.code, inner(g), IrTy::I64, i_slot, s, fuel);
        lemma_val_kept(b, s, t1, inner(g), len);
        lemma_two(b, t1, i, iv, len, lv, h1);
        let t2 = lemma_value(b, h.code, h1, below_row(), seq![i, len], seq![iv, lv], t1, fuel);
        match value_of(b, below_row(), seq![iv, lv], s.w) {
            Value::Is(cv, w1) => {
                lemma_moves(b, h.code, inner(g), h1, h, s, t1, t2, fuel);
                lemma_code_end(b, h.code, t2, fuel);
                lemma_held(vars, room_of(g), inner(g));
                lemma_vals_kept(vars, vals, inner(g), s, t2);
                lemma_stays_keeps(s, t2, vars, inner(g));
                lemma_stays_self(s, vars, room_of(g));
                lemma_stays(s, s, t2, vars, room_of(g), inner(g));
                if (b.truth)(cv) {
                    lemma_val_kept(b, s, t2, inner(g), len);
                    lemma_val_kept(b, s, t2, inner(g), arr);
                    lemma_val_kept(b, t1, t2, h1, i);
                    lemma_slot_kept(s, t2, inner(g), i_slot);
                    let z = lemma_each_body(
                        b,
                        cx,
                        vars,
                        vals,
                        g,
                        len,
                        arr,
                        av,
                        i_slot,
                        slot,
                        iv,
                        t,
                        x,
                        t2,
                        fuel,
                    );
                    lemma_each_end(
                        b,
                        cx,
                        vars,
                        vals,
                        g,
                        len,
                        lv,
                        arr,
                        av,
                        i_slot,
                        slot,
                        iv,
                        t,
                        x,
                        s,
                        t2,
                        z,
                        w1,
                        fuel,
                    )
                } else {
                    t2
                }
            },
            _ => t2,
        }
    }
}

proof fn lemma_slot_kept<V, W>(s: State<V, W>, t: State<V, W>, g: Gen, slot: usize)
    requires
        keeps(s, t, g),
        slot < g.slots.len(),
    ensures
        t.vars[slot as nat] == s.vars[slot as nat],
{
    reveal(keeps);
}

/// What the body of a turn at an index means.
pub open spec fn item_body<V, W>(
    b: Base<V, W>,
    p: ProgramV,
    vars: Seq<VarV>,
    vals: Seq<V>,
    slot: usize,
    t: Ty,
    x: StmtV,
    av: V,
    iv: V,
    w: W,
    fuel: nat,
) -> Option<After<V, W>> {
    match value_of(b, item_row(basic_ty(t)), seq![av, iv], w) {
        Value::Is(y, w2) => stmts_sense(
            b,
            p,
            with_var(vars, x.kind->ForIn_var, slot, t),
            vals.push(y),
            loop_body(x),
            0,
            w2,
            fuel,
        ),
        other => ended(other),
    }
}

/// The body of a turn.
proof fn lemma_each_body<V, W>(
    b: Base<V, W>,
    cx: Place,
    vars: Seq<VarV>,
    vals: Seq<V>,
    g: Gen,
    len: OpndV,
    arr: OpndV,
    av: V,
    i_slot: usize,
    slot: usize,
    iv: V,
    t: Ty,
    x: StmtV,
    s: State<V, W>,
    fuel: nat,
) -> (u: State<V, W>)
    requires
        x.kind is ForIn,
        t == item_ty(cx.prog, vars, sole(x)),
        stmts_ok(looped(cx), with_var(vars, x.kind->ForIn_var, slot, t), loop_body(x), 0),
        known(len, g),
        known(arr, g),
        slot == i_slot + 1,
        g.slots.len() == i_slot + 2,
        held(vars, room_of(g)),
        each_loop(cx.prog, vars, g, len, arr, i_slot, slot, t, x).1.slots.len() <= usize::MAX,
        holds_vals(vars, s, vals),
        opnd_val(b, s, arr) == av,
        opnd_val(b, s, OpndV::Reg(g.regs.len())) == iv,
    ensures
        ({
            let p = cx.prog;
            let (h, i, c) = each_head(g, len, i_slot);
            let b3 = each_item(h, arr, i, slot, basic_ty(t));
            let bg = stmts_at(
                p,
                with_var(vars, x.kind->ForIn_var, slot, t),
                b3,
                loop_body(x),
                0,
            );
            comes(
                b,
                vars,
                wide_of(g),
                s,
                go(b, bg.code, 0, s, fuel),
                u,
                item_body(b, p, vars, vals, slot, t, x, av, iv, s.w, fuel),
            )
        }),
    decreases fuel, x, 2int,
{
    let p = cx.prog;
    let inside = with_var(vars, x.kind->ForIn_var, slot, t);
    let wide = wide_of(g);
    let r = item_row(basic_ty(t));
    lemma_each_parts(cx, vars, g, len, arr, i_slot, slot, t, x);
    each_rows_ok(t, basic_ty(t));
    let (h, i, c) = each_head(g, len, i_slot);
    lemma_grows(put(inner(g), IrTy::I64, Op::GetVar(i_slot), Seq::empty()), h);
    let (b2, o) = placed_row(inner(h), r, seq![arr, i]);
    let b3 = set_var(b2, slot, o);
    let bg = stmts_at(p, inside, b3, loop_body(x), 0);
    lemma_begins_self(bg);
    lemma_begins(bg.code, b3, bg);
    lemma_begins(bg.code, b2, b3);
    lemma_two(b, s, arr, av, i, iv, inner(h));
    let t1 = lemma_value(b, bg.code, inner(h), r, seq![arr, i], seq![av, iv], s, fuel);
    match value_of(b, r, seq![av, iv], s.w) {
        Value::Is(y, w2) => {
            let t2 = lemma_set(b, bg.code, b2, slot, o, t1, fuel);
            lemma_held(vars, room_of(g), inner(h));
            lemma_held(vars, room_of(g), wide);
            lemma_vals_kept(vars, vals, inner(h), s, t1);
            lemma_new_var(vars, vals, x.kind->ForIn_var, t, y, wide, t1, t2);
            lemma_held_more(vars, x.kind->ForIn_var, t, wide, b3);
            lemma_stays_keeps(s, t1, vars, inner(h));
            lemma_stays_self(s, vars, wide);
            lemma_stays(s, s, t1, vars, wide, inner(h));
            lemma_stays(s, t1, t2, vars, wide, wide);
            let ss = loop_body(x);
            let u = lemma_stmts(
                b,
                looped(cx),
                inside,
                vals.push(y),
                bg.code,
                b3,
                ss,
                0,
                t2,
                fuel,
            );
            let a = stmts_sense(b, p, inside, vals.push(y), ss, 0, w2, fuel);
            lemma_whole(b, b3, bg, inside, t2, u, fuel, a);
            let out = go(b, bg.code, b3.code.len(), t2, fuel);
            lemma_comes_scope(b, vars, inside, wide, b3, s, t2, out, u, a);
            u
        },
        _ => t1,
    }
}

/// A turn of a loop over a collection from the end of its body on.
proof fn lemma_each_end<V, W>(
    b: Base<V, W>,
    cx: Place,
    vars: Seq<VarV>,
    vals: Seq<V>,
    g: Gen,
    len: OpndV,
    lv: V,
    arr: OpndV,
    av: V,
    i_slot: usize,
    slot: usize,
    iv: V,
    t: Ty,
    x: StmtV,
    s: State<V, W>,
    t2: State<V, W>,
    z: State<V, W>,
    w: W,
    fuel: nat,
) -> (u: State<V, W>)
    requires
        fuel > 0,
        x.kind is ForIn,
        t == item_ty(cx.prog, vars, sole(x)),
        stmts_ok(looped(cx), with_var(vars, x.kind->ForIn_var, slot, t), loop_body(x), 0),
        known(len, g),
        known(arr, g),
        slot == i_slot + 1,
        g.slots.len() == i_slot + 2,
        held(vars, room_of(g)),
        each_loop(cx.prog, vars, g, len, arr, i_slot, slot, t, x).1.slots.len() <= usize::MAX,
        vals.len() == vars.len(),
        opnd_val(b, t2, len) == lv,
        opnd_val(b, t2, arr) == av,
        t2.vars[i_slot as nat] == iv,
        stays(s, t2, vars, room_of(g)),
        ({
            let p = cx.prog;
            let (c, st) = each_loop(p, vars, g, len, arr, i_slot, slot, t, x);
            let (h, i, o) = each_head(g, len, i_slot);
            let b3 = each_item(h, arr, i, slot, basic_ty(t));
            let bg = stmts_at(
                p,
                with_var(vars, x.kind->ForIn_var, slot, t),
                b3,
                loop_body(x),
                0,
            );
            &&& comes(
                b,
                vars,
                wide_of(g),
                t2,
                go(b, bg.code, 0, t2, fuel),
                z,
                item_body(b, p, vars, vals, slot, t, x, av, iv, w, fuel),
            )
            &&& loop_out(b, c, s, fuel) == match go(b, bg.code, 0, t2, fuel) {
                Some(Out::End(s2)) => step_out(b, c, s2, fuel),
                Some(Out::Cont(s2)) => step_out(b, c, s2, fuel),
                Some(Out::Brk(s2)) => Some(Out::End(s2)),
                other => other,
            }
        }),
    ensures
        ({
            let p = cx.prog;
            let body = item_body(b, p, vars, vals, slot, t, x, av, iv, w, fuel);
            let a = each_on(b, p, vars, x, lv, av, iv, cut(body, vals.len()), fuel);
            let c = each_loop(p, vars, g, len, arr, i_slot, slot, t, x).0;
            &&& comes(b, vars, room_of(g), s, loop_out(b, c, s, fuel), u, a)
            &&& of_len(a, vars.len())
        }),
    decreases fuel, x, 1int,
{
    let p = cx.prog;
    let n = vars.len();
    let (c, st) = each_loop(p, vars, g, len, arr, i_slot, slot, t, x);
    let (h, i, o) = each_head(g, len, i_slot);
    let b3 = each_item(h, arr, i, slot, basic_ty(t));
    let bg = stmts_at(p, with_var(vars, x.kind->ForIn_var, slot, t), b3, loop_body(x), 0);
    let room = room_of(g);
    let out = go(b, bg.code, 0, t2, fuel);
    let a = item_body(b, p, vars, vals, slot, t, x, av, iv, w, fuel);
    lemma_grown_self(vars, room);
    match a {
        Some(After::Next(vs, w2)) => lemma_room_kept(b, vars, g, len, arr, i_slot, t2, z),
        Some(After::Cont(vs, w2)) => lemma_room_kept(b, vars, g, len, arr, i_slot, t2, z),
        _ => {},
    }
    lemma_comes_scope(b, vars, vars, room, wide_of(g), s, t2, out, z, a);
    match a {
        Some(After::Next(vs, w2)) => {
            let vs1 = vs.take(n as int);
            let u = lemma_each_next(
                b,
                cx,
                vars,
                vs1,
                g,
                len,
                lv,
                arr,
                av,
                i_slot,
                slot,
                iv,
                t,
                x,
                z,
                fuel,
            );
            let end = each_next(b, p, vars, vs1, x, lv, av, iv, w2, fuel);
            lemma_comes_scope(b, vars, vars, room, room, s, z, step_out(b, c, z, fuel), u, end);
            u
        },
        Some(After::Cont(vs, w2)) => {
            let vs1 = vs.take(n as int);
            let u = lemma_each_next(
                b,
                cx,
                vars,
                vs1,
                g,
                len,
                lv,
                arr,
                av,
                i_slot,
                slot,
                iv,
                t,
                x,
                z,
                fuel,
            );
            let end = each_next(b, p, vars, vs1, x, lv, av, iv, w2, fuel);
            lemma_comes_scope(b, vars, vars, room, room, s, z, step_out(b, c, z, fuel), u, end);
            u
        },
        Some(After::Brk(vs, w2)) => {
            lemma_vals_len(vars, z, vs.take(n as int));
            z
        },
        _ => z,
    }
}

/// The index, the length and the array of a loop are kept by its body.
proof fn lemma_room_kept<V, W>(
    b: Base<V, W>,
    vars: Seq<VarV>,
    g: Gen,
    len: OpndV,
    arr: OpndV,
    i_slot: usize,
    s: State<V, W>,
    t: State<V, W>,
)
    requires
        stays(s, t, vars, wide_of(g)),
        held(vars, room_of(g)),
        known(len, g),
        known(arr, g),
        g.slots.len() == i_slot + 2,
    ensures
        opnd_val(b, t, len) == opnd_val(b, s, len),
        opnd_val(b, t, arr) == opnd_val(b, s, arr),
        t.vars[i_slot as nat] == s.vars[i_slot as nat],
{
    reveal(stays);
    reveal(held);
    assert(is_free(vars, i_slot as nat)) by {
        assert forall|i: int| 0 <= i < vars.len() implies (#[trigger] vars[i]).slot
            != i_slot as nat by {
            assert(vars[i].slot < room_of(g).slots.len());
        }
    }
    assert(t.vars[i_slot as nat] == s.vars[i_slot as nat]);
    if let OpndV::Reg(r) = len {
        assert(t.regs[r] == s.regs[r]);
    }
    if let OpndV::Reg(r) = arr {
        assert(t.regs[r] == s.regs[r]);
    }
}

/// A loop over a collection after the statements of a turn.
proof fn lemma_each_next<V, W>(
    b: Base<V, W>,
    cx: Place,
    vars: Seq<VarV>,
    vals: Seq<V>,
    g: Gen,
    len: OpndV,
    lv: V,
    arr: OpndV,
    av: V,
    i_slot: usize,
    slot: usize,
    iv: V,
    t: Ty,
    x: StmtV,
    s: State<V, W>,
    fuel: nat,
) -> (u: State<V, W>)
    requires
        fuel > 0,
        x.kind is ForIn,
        t == item_ty(cx.prog, vars, sole(x)),
        stmts_ok(looped(cx), with_var(vars, x.kind->ForIn_var, slot, t), loop_body(x), 0),
        known(len, g),
        known(arr, g),
        slot == i_slot + 1,
        g.slots.len() == i_slot + 2,
        held(vars, room_of(g)),
        each_loop(cx.prog, vars, g, len, arr, i_slot, slot, t, x).1.slots.len() <= usize::MAX,
        holds_vals(vars, s, vals),
        opnd_val(b, s, len) == lv,
        opnd_val(b, s, arr) == av,
        s.vars[i_slot as nat] == iv,
    ensures
        ({
            let a = each_next(b, cx.prog, vars, vals, x, lv, av, iv, s.w, fuel);
            let c = each_loop(cx.prog, vars, g, len, arr, i_slot, slot, t, x).0;
            &&& comes(b, vars, room_of(g), s, step_out(b, c, s, fuel), u, a)
            &&& of_len(a, vars.len())
        }),
    decreases fuel, x, 0int,
{
    let p = cx.prog;
    let room = room_of(g);
    let (c, st) = each_loop(p, vars, g, len, arr, i_slot, slot, t, x);
    lemma_each_parts(cx, vars, g, len, arr, i_slot, slot, t, x);
    each_rows_ok(t, basic_ty(t));
    let (h, i, o) = each_head(g, len, i_slot);
    let b3 = each_item(h, arr, i, slot, basic_ty(t));
    let bg = stmts_at(p, with_var(vars, x.kind->ForIn_var, slot, t), b3, loop_body(x), 0);
    lemma_turn_run(b, h.code, o, bg.code, st.code, s, fuel);
    reveal(each_next);
    let (s1, j) = emit(inner(bg), IrTy::I64, Op::GetVar(i_slot), Seq::empty());
    let (s2, next) = placed_row(s1, next_row(), seq![j]);
    lemma_begins_self(st);
    lemma_begins(st.code, s2, st);
    lemma_begins(st.code, s1, s2);
    let t1 = lemma_get(b, st.code, inner(bg), IrTy::I64, i_slot, s, fuel);
    lemma_one(b, t1, j, iv, s1);
    let t2 = lemma_value(b, st.code, s1, next_row(), seq![j], seq![iv], t1, fuel);
    match value_of(b, next_row(), seq![iv], s.w) {
        Value::Is(jv, w1) => {
            lemma_moves(b, st.code, inner(bg), s1, s2, s, t1, t2, fuel);
            let z = lemma_set(b, st.code, s2, i_slot, next, t2, fuel);
            lemma_code_end(b, st.code, z, fuel);
            lemma_held(vars, room, inner(bg));
            lemma_vals_kept(vars, vals, inner(bg), s, t2);
            lemma_new_var(vars, vals, x.kind->ForIn_var, t, jv, room, t2, z);
            lemma_vals_kept(vars, vals, room, t2, z);
            lemma_stays_keeps(s, t2, vars, inner(bg));
            lemma_stays_self(s, vars, room);
            lemma_stays(s, s, t2, vars, room, inner(bg));
            lemma_stays(s, t2, z, vars, room, room);
            lemma_val_kept(b, s, t2, inner(bg), len);
            lemma_val_kept(b, s, t2, inner(bg), arr);
            let less = (fuel - 1) as nat;
            let u = lemma_items(
                b,
                cx,
                vars,
                vals,
                g,
                len,
                lv,
                arr,
                av,
                i_slot,
                slot,
                jv,
                t,
                x,
                z,
                less,
            );
            let a = items_sense(b, p, vars, vals, x, lv, av, jv, w1, less);
            lemma_grown_self(vars, room);
            lemma_comes_scope(b, vars, vars, room, room, s, z, loop_out(b, c, z, less), u, a);
            u
        },
        _ => t2,
    }
}

proof fn lemma_match<V, W>(
    b: Base<V, W>,
    cx: Place,
    vars: Seq<VarV>,
    vals: Seq<V>,
    cs: Seq<CodeV>,
    g: Gen,
    x: StmtV,
    s: State<V, W>,
    fuel: nat,
) -> (t: State<V, W>)
    requires
        x.kind is Match,
        stmt_ok(cx, vars, x),
        able(vars, vals, cs, g, stmt_at(cx.prog, vars, g, x).0, s),
    ensures
        stmt_ends(
            b,
            cs,
            g,
            stmt_at(cx.prog, vars, g, x).0,
            vars,
            stmt_at(cx.prog, vars, g, x).1,
            s,
            t,
            fuel,
            stmt_sense(b, cx.prog, vars, vals, x, s.w, fuel),
        ),
    decreases fuel, x, 3int,
{
    let p = cx.prog;
    let last = stmt_at(p, vars, g, x).0;
    let arms = x.kind->Match_arms;
    let def = match_def(p, vars, x);
    let r = length_row(Ty::Null);
    parts_of_match(cx, vars, g, x);
    sense_of_match(b, p, vars, vals, x, s.w, fuel);
    let (g1, o) = code_at(p, vars, g, sole(x));
    lemma_shape(p, vars, g, sole(x));
    let g2 = null_at(g1, o);
    lemma_placed(g1, null_row().parts, seq![o]);
    lemma_known(o, g1, g2);
    let (g3, tag) = placed_row(g2, r, seq![o]);
    assert(all_known(seq![o], g2));
    lemma_placed_row(g2, r, seq![o]);
    lemma_known(o, g2, g3);
    let out = arms_upto(p, vars, g3, o, def, arms, arms.len());
    lemma_arms_shape(cx, vars, g3, o, def, arms, 0, arms.len());
    lemma_arms(p, vars, g3, o, def, arms, arms.len());
    let c = CodeV::Switch { on: tag, tags: out.tags, cases: out.cases, default: out.default };
    lemma_extends_then(g3, c, out.last);
    lemma_extends(g2, g3, last);
    lemma_extends(g1, g2, last);
    lemma_extends(g, g1, g2);
    lemma_extends(g, g2, g3);
    lemma_able_less(vars, vals, cs, g, g1, last, s);
    lemma_able_less(vars, vals, cs, g, g2, last, s);
    lemma_able_less(vars, vals, cs, g, g3, last, s);
    lemma_ready(vars, vals, cs, g, g1, s);
    let t = lemma_expr(b, p, vars, vals, cs, g, sole(x), s, fuel);
    match sense(b, p, vars, vals, sole(x), s.w) {
        Value::Is(v, w1) => {
            let u = lemma_null(b, cs, g1, o, v, t, fuel);
            match value_of(b, null_row(), seq![v], w1) {
                Value::Is(_, w2) => {
                    lemma_moves(b, cs, g, g1, g2, s, t, u, fuel);
                    lemma_one(b, u, o, v, g2);
                    let z = lemma_value(b, cs, g2, r, seq![o], seq![v], u, fuel);
                    match value_of(b, r, seq![v], w2) {
                        Value::Is(tv, w3) => {
                            lemma_moves(b, cs, g, g2, g3, s, u, z, fuel);
                            lemma_able_on(vars, vals, cs, g, g3, last, s, z);
                            lemma_val_kept(b, u, z, g2, o);
                            lemma_vals_len(vars, z, vals);
                            lemma_switch_run(
                                b,
                                cs,
                                g3,
                                tag,
                                out.tags,
                                out.cases,
                                out.default,
                                out.last,
                                z,
                                fuel,
                            );
                            let nr = (b.number)(tv);
                            let k = lemma_chosen(
                                b,
                                cx,
                                vars,
                                vals,
                                g3,
                                o,
                                def,
                                arms,
                                v,
                                nr,
                                z,
                                fuel,
                            );
                            let a = arms_sense(b, p, vars, vals, def, arms, v, nr, w3, fuel);
                            let code = chosen_code(p, vars, g3, o, def, arms, nr);
                            let res = go(b, code, 0, z, fuel);
                            lemma_wrap(b, cs, g3, last, vars, z, res, k, fuel, a);
                            let end = cut(a, vals.len());
                            lemma_chain(b, cs, g, g3, last, vars, vars, s, z, k, fuel, end);
                            k
                        },
                        other => {
                            lemma_then(b, cs, g, g2, (g3, tag), s, u, z, fuel, other);
                            lemma_value_end(
                                b,
                                cs,
                                g,
                                (g3, tag),
                                last,
                                vars,
                                vars,
                                s,
                                z,
                                fuel,
                                other,
                            );
                            z
                        },
                    }
                },
                other => {
                    lemma_then(b, cs, g, g1, (g2, o), s, t, u, fuel, other);
                    lemma_value_end(b, cs, g, (g2, o), last, vars, vars, s, u, fuel, other);
                    u
                },
            }
        },
        other => {
            lemma_value_end(b, cs, g, (g1, o), last, vars, vars, s, t, fuel, other);
            t
        },
    }
}

/// The code of the arm for the variant with this index.
pub open spec fn chosen_code(
    p: ProgramV,
    vars: Seq<VarV>,
    g: Gen,
    o: OpndV,
    def: EnumDefV,
    arms: Seq<MatchArmV>,
    tag: int,
) -> Seq<CodeV> {
    let out = arms_upto(p, vars, g, o, def, arms, arms.len());
    let j = tag_index(out.tags, tag, 0);
    if 0 <= j < out.cases.len() {
        out.cases[j]
    } else {
        out.default
    }
}

proof fn lemma_chosen<V, W>(
    b: Base<V, W>,
    cx: Place,
    vars: Seq<VarV>,
    vals: Seq<V>,
    g: Gen,
    o: OpndV,
    def: EnumDefV,
    arms: Seq<MatchArmV>,
    v: V,
    tag: int,
    s: State<V, W>,
    fuel: nat,
) -> (t: State<V, W>)
    requires
        arms_ok(cx, vars, def, arms),
        held(vars, g),
        holds_vals(vars, s, vals),
        known(o, g),
        opnd_val(b, s, o) == v,
        arms_upto(cx.prog, vars, g, o, def, arms, arms.len()).last.slots.len() <= usize::MAX,
    ensures
        comes(
            b,
            vars,
            g,
            s,
            go(b, chosen_code(cx.prog, vars, g, o, def, arms, tag), 0, s, fuel),
            t,
            arms_sense(b, cx.prog, vars, vals, def, arms, v, tag, s.w, fuel),
        ),
    decreases fuel, arms, 1int,
{
    let p = cx.prog;
    lemma_arms(p, vars, g, o, def, arms, arms.len());
    let which = variant_arms(arms, arms.len());
    let j = tag_index(arm_tags(def, arms, which), tag, 0);
    if 0 <= j < which.len() {
        let k = which[j];
        assert(0 <= k < arms.len());
        lemma_arms_shape(cx, vars, g, o, def, arms, (k + 1) as nat, arms.len());
        lemma_arm(b, cx, vars, vals, g, o, def, arms, k, v, s, fuel)
    } else {
        match wildcard_arm(arms, arms.len()) {
            Some(k) => {
                lemma_arms_shape(cx, vars, g, o, def, arms, (k + 1) as nat, arms.len());
                lemma_arm(b, cx, vars, vals, g, o, def, arms, k, v, s, fuel)
            },
            None => {
                lemma_no_code(b, s, fuel);
                lemma_vals_len(vars, s, vals);
                lemma_stays_self(s, vars, g);
                s
            },
        }
    }
}

/// The run has given names to a payload.
pub open spec fn payload_ends<V, W>(
    b: Base<V, W>,
    cs: Seq<CodeV>,
    g: Gen,
    h: Gen,
    vars: Seq<VarV>,
    after: Seq<VarV>,
    s: State<V, W>,
    t: State<V, W>,
    fuel: nat,
    a: Values<V, W>,
) -> bool {
    match a {
        Values::Are(vs, w) => {
            &&& go(b, cs, g.code.len(), s, fuel) == go(b, cs, h.code.len(), t, fuel)
            &&& t.w == w
            &&& holds_vals(after, t, vs)
            &&& stays(s, t, vars, g)
        },
        Values::Halt(msg, w) => halts(b, cs, g, s, t, fuel, msg, w),
        Values::Stop(w) => stops(b, cs, g, s, t, fuel, w),
    }
}

proof fn lemma_payload<V, W>(
    b: Base<V, W>,
    p: ProgramV,
    vars: Seq<VarV>,
    vals: Seq<V>,
    cs: Seq<CodeV>,
    g: Gen,
    o: OpndV,
    v: V,
    names: Seq<Seq<char>>,
    fields: Seq<Ty>,
    i: int,
    s: State<V, W>,
    fuel: nat,
) -> (t: State<V, W>)
    requires
        0 <= i <= names.len(),
        known(o, g),
        opnd_val(b, s, o) == v,
        able(vars, vals, cs, g, bind_at(p, vars, g, o, names, fields, i).0, s),
    ensures
        payload_ends(
            b,
            cs,
            g,
            bind_at(p, vars, g, o, names, fields, i).0,
            vars,
            bind_at(p, vars, g, o, names, fields, i).1,
            s,
            t,
            fuel,
            payload_sense(b, p, vals, v, names, fields, i, s.w),
        ),
    decreases names.len() - i,
{
    parts_of_bind(p, vars, g, o, names, fields, i);
    sense_of_payload(b, p, vals, v, names, fields, i, s.w);
    lemma_stays_self(s, vars, g);
    if i == names.len() {
        s
    } else {
        let last = bind_at(p, vars, g, o, names, fields, i);
        let ty = payload_ty(p, fields, i);
        let r = load_row(basic_ty(ty), (i + 1) as usize);
        let (g1, y) = placed_row(g, r, seq![o]);
        let slot = g1.slots.len() as usize;
        let g2 = set_var(new_slot(g1, basic_ty(ty)), slot, y);
        let more = with_var(vars, names[i], slot, ty);
        assert(all_known(seq![o], g));
        lemma_placed_row(g, r, seq![o]);
        lemma_set_shape(g1, basic_ty(ty), slot, y);
        lemma_extends(g, g1, g2);
        lemma_known(o, g, g1);
        lemma_known(o, g, g2);
        lemma_bind_shape(p, more, g2, o, names, fields, i + 1);
        lemma_extends(g1, g2, last.0);
        lemma_grows(g, g1);
        lemma_grows(g, g2);
        lemma_grows(g2, last.0);
        lemma_able_less(vars, vals, cs, g, g1, last.0, s);
        lemma_able_less(vars, vals, cs, g, g2, last.0, s);
        lemma_one(b, s, o, v, g);
        let t = lemma_value(b, cs, g, r, seq![o], seq![v], s, fuel);
        match value_of(b, r, seq![v], s.w) {
            Value::Is(yv, w1) => {
                lemma_able_on(vars, vals, cs, g, g1, last.0, s, t);
                let u = lemma_set(b, cs, new_slot(g1, basic_ty(ty)), slot, y, t, fuel);
                lemma_new_var(vars, vals, names[i], ty, yv, g1, t, u);
                lemma_held_more(vars, names[i], ty, g1, g2);
                lemma_val_kept(b, s, t, g, o);
                lemma_val_kept(b, t, u, g1, o);
                lemma_stays_keeps(s, t, vars, g);
                lemma_stays(s, t, u, vars, g, g1);
                let z = lemma_payload(
                    b,
                    p,
                    more,
                    vals.push(yv),
                    cs,
                    g2,
                    o,
                    v,
                    names,
                    fields,
                    i + 1,
                    u,
                    fuel,
                );
                if payload_sense(b, p, vals.push(yv), v, names, fields, i + 1, w1) is Are {
                    lemma_grown_less(vars, more, g, g1);
                    lemma_stays_scope(u, z, vars, more, g, g2);
                    lemma_stays(s, u, z, vars, g, g);
                }
                z
            },
            _ => t,
        }
    }
}

proof fn lemma_arm<V, W>(
    b: Base<V, W>,
    cx: Place,
    vars: Seq<VarV>,
    vals: Seq<V>,
    g: Gen,
    o: OpndV,
    def: EnumDefV,
    arms: Seq<MatchArmV>,
    k: int,
    v: V,
    s: State<V, W>,
    fuel: nat,
) -> (t: State<V, W>)
    requires
        arms_ok(cx, vars, def, arms),
        0 <= k < arms.len(),
        held(vars, g),
        holds_vals(vars, s, vals),
        known(o, g),
        opnd_val(b, s, o) == v,
        arm_code(cx.prog, vars, g, o, def, arms, k).slots.len() <= usize::MAX,
    ensures
        comes(
            b,
            vars,
            g,
            s,
            go(b, arm_code(cx.prog, vars, g, o, def, arms, k).code, 0, s, fuel),
            t,
            arm_sense(b, cx.prog, vars, vals, def, arms[k], v, s.w, fuel),
        ),
    decreases fuel, arms, 0int,
{
    let p = cx.prog;
    let a = arms[k];
    let before = arms_upto(p, vars, g, o, def, arms, k as nat).last;
    lemma_arms_shape(cx, vars, g, o, def, arms, 0, k as nat);
    arm_is_ok(cx, vars, before, o, def, arms, k);
    sense_of_arm(b, p, vars, vals, before, o, def, a, v, s.w, fuel);
    let (b1, inside) = arm_start(p, vars, before, o, def, a);
    let h = arm_code(p, vars, g, o, def, arms, k);
    lemma_start_shape(p, vars, before, o, def, a);
    lemma_stmts_shape(cx, inside, b1, a.body, 0);
    lemma_grows(inner(before), b1);
    lemma_grows(b1, h);
    lemma_held(vars, g, before);
    lemma_held(vars, g, inner(before));
    lemma_grown_self(vars, g);
    lemma_stays_self(s, vars, g);
    if a.wildcard {
        let t = lemma_body(b, cx, vars, vals, before, a.body, s, fuel);
        let end = stmts_sense(b, p, vars, vals, a.body, 0, s.w, fuel);
        lemma_comes_scope(b, vars, vars, g, before, s, s, go(b, h.code, 0, s, fuel), t, end);
        t
    } else {
        let fields = arm_fields(def, a);
        lemma_begins_self(h);
        lemma_begins(h.code, b1, h);
        let t = lemma_payload(
            b,
            p,
            vars,
            vals,
            h.code,
            inner(before),
            o,
            v,
            a.bindings,
            fields,
            0,
            s,
            fuel,
        );
        match payload_sense(b, p, vals, v, a.bindings, fields, 0, s.w) {
            Values::Are(vals1, w1) => {
                lemma_bind_after(p, vars, inner(before), o, a.bindings, fields, 0);
                let u = lemma_stmts(b, cx, inside, vals1, h.code, b1, a.body, 0, t, fuel);
                let end = stmts_sense(b, p, inside, vals1, a.body, 0, w1, fuel);
                lemma_whole(b, b1, h, inside, t, u, fuel, end);
                lemma_grown_less(vars, inside, g, inner(before));
                lemma_stays(s, s, t, vars, g, inner(before));
                let out = go(b, h.code, b1.code.len(), t, fuel);
                lemma_comes_scope(b, vars, inside, g, b1, s, t, out, u, end);
                u
            },
            _ => t,
        }
    }
}

} // verus!
