//! Why the code of an expression does what the expression means.
use vstd::prelude::*;
#[allow(unused_imports)]
use crate::ast::{BinOp, ExprKindV, ExprV, FieldInitV, ParamV, ProgramV};
#[allow(unused_imports)]
use crate::builtins::{builtin_named, Builtin};
#[allow(unused_imports)]
use crate::faithful::anatomy::{
    all_typed, array_is_made, binary_row, bound_at, bound_sense, bound_typed, call_at,
    call_is_typed, call_sense, call_typed, code_at, elems_at, elems_sense, field_row, fields_at,
    fields_sense, first_type, index_row, inits_typed, list_at, list_sense, null_at, pairs_at,
    pairs_sense, pairs_typed, parts_of_array, parts_of_binary, parts_of_bound, parts_of_call,
    parts_of_checked, parts_of_elems, parts_of_field, parts_of_fields, parts_of_index,
    parts_of_list, parts_of_map, parts_of_own, parts_of_pairs, parts_of_plain, parts_of_slice,
    parts_of_struct, parts_of_unary, put_at, sense, sense_of_array, sense_of_binary, sense_of_bound,
    sense_of_call, sense_of_checked, sense_of_elems, sense_of_field, sense_of_fields,
    sense_of_index, sense_of_list, sense_of_map, sense_of_own, sense_of_pairs, sense_of_plain,
    sense_of_slice, sense_of_struct, sense_of_unary, store_at, type_at, typed,
};
#[allow(unused_imports)]
use crate::faithful::landing::{
    are, env_ok, halts, lands, lands_row, lemma_are_kept, lemma_begins_self, lemma_env_kept,
    lemma_line, lemma_moves, lemma_null, lemma_one, lemma_pushed, lemma_row, lemma_self_moves,
    lemma_store, lemma_then, lemma_two, lemma_value, lemma_variant, moves, stops,
};
#[allow(unused_imports)]
use crate::faithful::machine::{
    all_known, begins, extends, go, holds, keeps, known, lemma_begins, lemma_extends,
    lemma_extends_put, lemma_known, lemma_last, lemma_placed, lemma_placed_row, lemma_src,
    lemma_val_kept, opnd_val, opnd_vals, placed_row, src_opnd, State,
};
#[allow(unused_imports)]
use crate::faithful::rowcode::code_map_put;
#[allow(unused_imports)]
use crate::faithful::shapes::{
    is_leaf, lemma_bound_shape, lemma_elems_shape, lemma_extends_slot, lemma_fields_shape,
    lemma_func_shape, lemma_grows, lemma_line_parts, lemma_list_shape, lemma_logical_shape,
    lemma_pairs_shape, lemma_push_known, lemma_push_parts, lemma_shape, lemma_variant_shape,
};
#[allow(unused_imports)]
use crate::flow::{run, Out};
#[allow(unused_imports)]
use crate::ir::{basic_ty, CodeV, IrTy, Op, OpndV, Rt};
#[allow(unused_imports)]
use crate::lowering::{
    call_func, checks_first, emit, init_index, inner, logical, new_slot, put, set_var, slot_of,
    tenv, then_code, ty_of, Gen, VarV,
};
#[allow(unused_imports)]
use crate::meaning::{
    array_data, array_row, builtin_row, length_row, line, map_put_row, null_row, prefix_row, pushed,
    row, second_row, single, slice_row, src_val, store_row, value_of, var_index, variant, Base,
    Done, RowEnd, Src, Srcs, Value, Values,
};
#[allow(unused_imports)]
use crate::types::Ty;
#[allow(unused_imports)]
use crate::typing::{func_index, resolve, struct_named, variant_named};
#[allow(unused_imports)]
use crate::typing;

verus! {

// Expressions.

/// The variables have these values at the end of `g`, and the code goes on with that of
/// `last`.
pub open spec fn ready<V, W>(
    vars: Seq<VarV>,
    vals: Seq<V>,
    cs: Seq<CodeV>,
    g: Gen,
    last: Gen,
    s: State<V, W>,
) -> bool {
    &&& env_ok(vars, g, s, vals)
    &&& begins(cs, last)
    &&& last.slots.len() <= usize::MAX
}

/// Less code.
pub proof fn lemma_less<V, W>(
    vars: Seq<VarV>,
    vals: Seq<V>,
    cs: Seq<CodeV>,
    g: Gen,
    h: Gen,
    last: Gen,
    s: State<V, W>,
)
    requires
        ready(vars, vals, cs, g, last, s),
        extends(h, last),
    ensures
        ready(vars, vals, cs, g, h, s),
{
    lemma_grows(h, last);
    lemma_begins(cs, h, last);
}

/// A step further.
pub proof fn lemma_on<V, W>(
    vars: Seq<VarV>,
    vals: Seq<V>,
    cs: Seq<CodeV>,
    g: Gen,
    h: Gen,
    last: Gen,
    s: State<V, W>,
    t: State<V, W>,
)
    requires
        ready(vars, vals, cs, g, last, s),
        keeps(s, t, g),
        extends(g, h),
    ensures
        ready(vars, vals, cs, h, last, t),
{
    lemma_grows(g, h);
    lemma_env_kept(vars, g, h, s, t, vals);
}

/// The slot of a variable and its place among the values.
pub proof fn lemma_slot(vars: Seq<VarV>, name: Seq<char>)
    requires
        typing::lookup(tenv(vars), name) is Some,
    ensures
        0 <= var_index(tenv(vars), name) < vars.len(),
        slot_of(vars, name) == vars[var_index(tenv(vars), name)].slot,
    decreases vars.len(),
{
    if vars.len() > 0 {
        assert(tenv(vars).drop_last() =~= tenv(vars.drop_last()));
        assert(tenv(vars).last() == (vars.last().name, vars.last().ty));
        if vars.last().name != name {
            lemma_slot(vars.drop_last(), name);
        }
    }
}

/// The code of an expression does what the expression means.
pub proof fn lemma_expr<V, W>(
    b: Base<V, W>,
    p: ProgramV,
    vars: Seq<VarV>,
    vals: Seq<V>,
    cs: Seq<CodeV>,
    g: Gen,
    e: ExprV,
    s: State<V, W>,
    fuel: nat,
) -> (t: State<V, W>)
    requires
        typed(p, vars, e),
        ready(vars, vals, cs, g, code_at(p, vars, g, e).0, s),
    ensures
        lands(
            b,
            cs,
            g,
            code_at(p, vars, g, e),
            s,
            t,
            fuel,
            sense(b, p, vars, vals, e, s.w),
        ),
    decreases e, 2int,
{
    match e.kind {
        ExprKindV::Unary { .. } => lemma_unary(b, p, vars, vals, cs, g, e, s, fuel),
        ExprKindV::Binary { op, .. } => if op == BinOp::And || op == BinOp::Or {
            lemma_logical(b, p, vars, vals, cs, g, e, s, fuel)
        } else {
            lemma_binary(b, p, vars, vals, cs, g, e, s, fuel)
        },
        ExprKindV::Call { name, args } => {
            parts_of_call(p, vars, g, e);
            sense_of_call(b, p, vars, vals, e, s.w);
            lemma_call(b, p, vars, vals, cs, g, name, args, s, fuel)
        },
        ExprKindV::Array(..) => lemma_array(b, p, vars, vals, cs, g, e, s, fuel),
        ExprKindV::Index { .. } => lemma_index(b, p, vars, vals, cs, g, e, s, fuel),
        ExprKindV::Slice { .. } => lemma_slice(b, p, vars, vals, cs, g, e, s, fuel),
        ExprKindV::StructLit { .. } => lemma_struct(b, p, vars, vals, cs, g, e, s, fuel),
        ExprKindV::MapLit(..) => lemma_map(b, p, vars, vals, cs, g, e, s, fuel),
        ExprKindV::Field { .. } => lemma_field(b, p, vars, vals, cs, g, e, s, fuel),
        _ => lemma_leaf(b, p, vars, vals, cs, g, e, s, fuel),
    }
}

proof fn lemma_unary<V, W>(
    b: Base<V, W>,
    p: ProgramV,
    vars: Seq<VarV>,
    vals: Seq<V>,
    cs: Seq<CodeV>,
    g: Gen,
    e: ExprV,
    s: State<V, W>,
    fuel: nat,
) -> (t: State<V, W>)
    requires
        e.kind is Unary,
        typed(p, vars, e),
        ready(vars, vals, cs, g, code_at(p, vars, g, e).0, s),
    ensures
        lands(
            b,
            cs,
            g,
            code_at(p, vars, g, e),
            s,
            t,
            fuel,
            sense(b, p, vars, vals, e, s.w),
        ),
    decreases e, 0int,
{
    parts_of_unary(p, vars, g, e);
    sense_of_unary(b, p, vars, vals, e, s.w);
    let (op, x) = (e.kind->Unary_op, *e.kind->Unary_expr);
    let last = code_at(p, vars, g, e);
    let (g1, v) = code_at(p, vars, g, x);
    let ty = type_at(p, vars, x);
    lemma_shape(p, vars, g, x);
    assert(all_known(seq![v], g1));
    lemma_placed_row(g1, prefix_row(op, ty), seq![v]);
    lemma_less(vars, vals, cs, g, g1, last.0, s);
    let t = lemma_expr(b, p, vars, vals, cs, g, x, s, fuel);
    match sense(b, p, vars, vals, x, s.w) {
        Value::Is(xv, w1) => {
            lemma_one(b, t, v, xv, g1);
            let u = lemma_value(b, cs, g1, prefix_row(op, ty), seq![v], seq![xv], t, fuel);
            let end = value_of(b, prefix_row(op, ty), seq![xv], w1);
            lemma_then(b, cs, g, g1, last, s, t, u, fuel, end);
            u
        },
        _ => t,
    }
}

proof fn lemma_binary<V, W>(
    b: Base<V, W>,
    p: ProgramV,
    vars: Seq<VarV>,
    vals: Seq<V>,
    cs: Seq<CodeV>,
    g: Gen,
    e: ExprV,
    s: State<V, W>,
    fuel: nat,
) -> (t: State<V, W>)
    requires
        e.kind is Binary,
        e.kind->Binary_op != BinOp::And && e.kind->Binary_op != BinOp::Or,
        typed(p, vars, e),
        ready(vars, vals, cs, g, code_at(p, vars, g, e).0, s),
    ensures
        lands(
            b,
            cs,
            g,
            code_at(p, vars, g, e),
            s,
            t,
            fuel,
            sense(b, p, vars, vals, e, s.w),
        ),
    decreases e, 0int,
{
    parts_of_binary(p, vars, g, e);
    sense_of_binary(b, p, vars, vals, e, s.w);
    let (op, lhs, rhs) = (e.kind->Binary_op, *e.kind->Binary_lhs, *e.kind->Binary_rhs);
    let last = code_at(p, vars, g, e);
    let (g1, l) = code_at(p, vars, g, lhs);
    let (g2, r) = code_at(p, vars, g1, rhs);
    let lt = type_at(p, vars, lhs);
    let rt = type_at(p, vars, rhs);
    let x = binary_row(op, lt, rt);
    lemma_shape(p, vars, g, lhs);
    lemma_shape(p, vars, g1, rhs);
    lemma_known(l, g1, g2);
    assert(last == placed_row(g2, x, seq![l, r]));
    assert(all_known(seq![l, r], g2));
    lemma_placed_row(g2, x, seq![l, r]);
    lemma_extends(g1, g2, last.0);
    lemma_less(vars, vals, cs, g, g1, last.0, s);
    let t = lemma_expr(b, p, vars, vals, cs, g, lhs, s, fuel);
    match sense(b, p, vars, vals, lhs, s.w) {
        Value::Is(lv, w1) => {
            lemma_on(vars, vals, cs, g, g1, last.0, s, t);
            lemma_less(vars, vals, cs, g1, g2, last.0, t);
            let u = lemma_expr(b, p, vars, vals, cs, g1, rhs, t, fuel);
            let rest = sense(b, p, vars, vals, rhs, w1);
            match rest {
                Value::Is(rv, w2) => {
                    lemma_val_kept(b, t, u, g1, l);
                    lemma_two(b, u, l, lv, r, rv, g2);
                    let v = lemma_value(b, cs, g2, x, seq![l, r], seq![lv, rv], u, fuel);
                    let end = value_of(b, x, seq![lv, rv], w2);
                    lemma_moves(b, cs, g, g1, g2, s, t, u, fuel);
                    lemma_extends(g, g1, g2);
                    lemma_then(b, cs, g, g2, last, s, u, v, fuel, end);
                    v
                },
                _ => {
                    lemma_then(b, cs, g, g1, (g2, r), s, t, u, fuel, rest);
                    u
                },
            }
        },
        _ => t,
    }
}


proof fn lemma_leaf<V, W>(
    b: Base<V, W>,
    p: ProgramV,
    vars: Seq<VarV>,
    vals: Seq<V>,
    cs: Seq<CodeV>,
    g: Gen,
    e: ExprV,
    s: State<V, W>,
    fuel: nat,
) -> (t: State<V, W>)
    requires
        is_leaf(e),
        typed(p, vars, e),
        ready(vars, vals, cs, g, code_at(p, vars, g, e).0, s),
    ensures
        lands(
            b,
            cs,
            g,
            code_at(p, vars, g, e),
            s,
            t,
            fuel,
            sense(b, p, vars, vals, e, s.w),
        ),
{
    reveal(typed);
    reveal(code_at);
    reveal(sense);
    lemma_self_moves(b, cs, g, s, fuel);
    if let ExprKindV::Var(name) = e.kind {
        if variant_named(p, name) is Some {
            lemma_variant(b, p, cs, g, name, Seq::empty(), Seq::<V>::empty(), s, fuel)
        } else {
            lemma_slot(vars, name);
            lemma_read(b, vars, vals, cs, g, basic_ty(ty_of(p, vars, e)), name, s, fuel)
        }
    } else {
        s
    }
}

/// Reads a variable.
proof fn lemma_read<V, W>(
    b: Base<V, W>,
    vars: Seq<VarV>,
    vals: Seq<V>,
    cs: Seq<CodeV>,
    g: Gen,
    ty: IrTy,
    name: Seq<char>,
    s: State<V, W>,
    fuel: nat,
) -> (t: State<V, W>)
    requires
        typing::lookup(tenv(vars), name) is Some,
        env_ok(vars, g, s, vals),
        begins(cs, put(g, ty, Op::GetVar(slot_of(vars, name)), Seq::empty())),
    ensures
        lands(
            b,
            cs,
            g,
            emit(g, ty, Op::GetVar(slot_of(vars, name)), Seq::empty()),
            s,
            t,
            fuel,
            Value::Is(vals[var_index(tenv(vars), name)], s.w),
        ),
{
    reveal(env_ok);
    let h = put(g, ty, Op::GetVar(slot_of(vars, name)), Seq::empty());
    lemma_slot(vars, name);
    let i = var_index(tenv(vars), name);
    assert(s.vars[vars[i].slot as nat] == vals[i]);
    let t = lemma_get(b, cs, g, ty, slot_of(vars, name), s, fuel);
    t
}

/// Reads a slot.
pub proof fn lemma_get<V, W>(
    b: Base<V, W>,
    cs: Seq<CodeV>,
    g: Gen,
    ty: IrTy,
    slot: usize,
    s: State<V, W>,
    fuel: nat,
) -> (t: State<V, W>)
    requires
        begins(cs, put(g, ty, Op::GetVar(slot), Seq::empty())),
    ensures
        t == (State {
            regs: s.regs.insert(g.regs.len(), s.vars[slot as nat]),
            vars: s.vars,
            w: s.w,
        }),
        moves(b, cs, g, put(g, ty, Op::GetVar(slot), Seq::empty()), s, t, fuel),
{
    reveal(go);
    reveal(begins);
    reveal(keeps);
    let h = put(g, ty, Op::GetVar(slot), Seq::empty());
    lemma_last(cs, h);
    assert(cs[g.code.len() as int] == h.code.last());
    State { regs: s.regs.insert(g.regs.len(), s.vars[slot as nat]), vars: s.vars, w: s.w }
}

/// The last thing that code does is to set a variable.
proof fn lemma_set_last<V, W>(
    b: Base<V, W>,
    g: Gen,
    slot: usize,
    v: OpndV,
    s: State<V, W>,
    fuel: nat,
)
    ensures
        go(b, set_var(g, slot, v).code, g.code.len(), s, fuel) == Some(
            Out::End(
                State {
                    regs: s.regs,
                    vars: s.vars.insert(slot as nat, opnd_val(b, s, v)),
                    w: s.w,
                },
            ),
        ),
{
    reveal(go);
    let code = set_var(g, slot, v).code;
    assert(code[g.code.len() as int] == code.last());
    reveal_with_fuel(run, 2);
}

/// A variable that `g` does not have was set.
proof fn lemma_flag_kept<V, W>(s: State<V, W>, t: State<V, W>, u: State<V, W>, g: Gen, slot: usize)
    requires
        keeps(s, t, inner(new_slot(g, IrTy::I1))) || s == t,
        slot == g.slots.len(),
        exists|x: V| u.vars == t.vars.insert(slot as nat, x),
        forall|k: nat| k < g.regs.len() ==> #[trigger] u.regs[k] == t.regs[k],
    ensures
        keeps(s, u, g),
{
    reveal(keeps);
    let x = choose|x: V| u.vars == t.vars.insert(slot as nat, x);
    assert forall|k: nat| k < g.slots.len() implies #[trigger] u.vars[k] == s.vars[k] by {
        assert(u.vars[k] == t.vars[k]);
        assert(t.vars[k] == s.vars[k]);
    }
    assert forall|k: nat| k < g.regs.len() implies #[trigger] u.regs[k] == s.regs[k] by {
        assert(u.regs[k] == t.regs[k]);
        assert(t.regs[k] == s.regs[k]);
    }
}

/// The branch of `&&` or `||` that is taken has set the variable.
proof fn lemma_flag<V, W>(
    b: Base<V, W>,
    cs: Seq<CodeV>,
    g: Gen,
    op: BinOp,
    l: OpndV,
    slot: usize,
    rg: Gen,
    r: OpndV,
    s: State<V, W>,
    t: State<V, W>,
    fuel: nat,
) -> (u: State<V, W>)
    requires
        begins(cs, logical(g, op, l, slot, rg, r).0),
        ({
            let long = set_var(rg, slot, r);
            let short = set_var(inner(long), slot, OpndV::Bool(op == BinOp::Or));
            let code = if (op == BinOp::And) == (b.truth)(opnd_val(b, s, l)) {
                long.code
            } else {
                short.code
            };
            go(b, code, 0, s, fuel) == Some(Out::End(t))
        }),
        g.regs.len() <= rg.regs.len(),
    ensures
        ({
            let last = logical(g, op, l, slot, rg, r);
            &&& go(b, cs, g.code.len(), s, fuel) == go(b, cs, last.0.code.len(), u, fuel)
            &&& u.w == t.w
            &&& u.vars == t.vars
            &&& opnd_val(b, u, last.1) == t.vars[slot as nat]
            &&& forall|k: nat| k < g.regs.len() ==> #[trigger] u.regs[k] == t.regs[k]
        }),
{
    reveal(go);
    reveal(begins);
    let long = set_var(rg, slot, r);
    let short = set_var(inner(long), slot, OpndV::Bool(op == BinOp::Or));
    let c = if op == BinOp::And {
        CodeV::If { cond: l, then: long.code, els: short.code }
    } else {
        CodeV::If { cond: l, then: short.code, els: long.code }
    };
    let h = then_code(g, c, short);
    let last = logical(g, op, l, slot, rg, r);
    lemma_extends_put(h, IrTy::I1, Op::GetVar(slot), Seq::empty());
    lemma_begins(cs, h, last.0);
    lemma_last(cs, h);
    lemma_last(cs, last.0);
    assert(cs[g.code.len() as int] == c);
    assert(go(b, cs, g.code.len(), s, fuel) == go(b, cs, h.code.len(), t, fuel));
    State { regs: t.regs.insert(h.regs.len(), t.vars[slot as nat]), vars: t.vars, w: t.w }
}

/// The branch of `&&` or `||` that is taken has ended the program.
proof fn lemma_no_flag<V, W>(
    b: Base<V, W>,
    cs: Seq<CodeV>,
    g: Gen,
    op: BinOp,
    l: OpndV,
    slot: usize,
    rg: Gen,
    r: OpndV,
    s: State<V, W>,
    fuel: nat,
)
    requires
        begins(cs, logical(g, op, l, slot, rg, r).0),
        (op == BinOp::And) == (b.truth)(opnd_val(b, s, l)),
        !(go(b, set_var(rg, slot, r).code, 0, s, fuel) matches Some(Out::End(_))),
        g.regs.len() <= rg.regs.len(),
    ensures
        go(b, cs, g.code.len(), s, fuel) == go(b, set_var(rg, slot, r).code, 0, s, fuel),
{
    reveal(go);
    reveal(begins);
    let long = set_var(rg, slot, r);
    let short = set_var(inner(long), slot, OpndV::Bool(op == BinOp::Or));
    let c = if op == BinOp::And {
        CodeV::If { cond: l, then: long.code, els: short.code }
    } else {
        CodeV::If { cond: l, then: short.code, els: long.code }
    };
    let h = then_code(g, c, short);
    let last = logical(g, op, l, slot, rg, r);
    lemma_extends_put(h, IrTy::I1, Op::GetVar(slot), Seq::empty());
    lemma_begins(cs, h, last.0);
    lemma_last(cs, h);
    assert(cs[g.code.len() as int] == c);
}

proof fn lemma_logical<V, W>(
    b: Base<V, W>,
    p: ProgramV,
    vars: Seq<VarV>,
    vals: Seq<V>,
    cs: Seq<CodeV>,
    g: Gen,
    e: ExprV,
    s: State<V, W>,
    fuel: nat,
) -> (t: State<V, W>)
    requires
        e.kind is Binary,
        e.kind->Binary_op == BinOp::And || e.kind->Binary_op == BinOp::Or,
        typed(p, vars, e),
        ready(vars, vals, cs, g, code_at(p, vars, g, e).0, s),
    ensures
        lands(
            b,
            cs,
            g,
            code_at(p, vars, g, e),
            s,
            t,
            fuel,
            sense(b, p, vars, vals, e, s.w),
        ),
    decreases e, 0int,
{
    parts_of_binary(p, vars, g, e);
    sense_of_binary(b, p, vars, vals, e, s.w);
    let (op, lhs, rhs) = (e.kind->Binary_op, *e.kind->Binary_lhs, *e.kind->Binary_rhs);
    let last = code_at(p, vars, g, e);
    let (g1, l) = code_at(p, vars, g, lhs);
    let slot = g1.slots.len() as usize;
    let g2 = new_slot(g1, IrTy::I1);
    let (rg, r) = code_at(p, vars, inner(g2), rhs);
    let long = set_var(rg, slot, r);
    let short = set_var(inner(long), slot, OpndV::Bool(op == BinOp::Or));
    lemma_shape(p, vars, g, lhs);
    lemma_shape(p, vars, inner(g2), rhs);
    lemma_extends_slot(g1, IrTy::I1);
    lemma_grows(g, g1);
    lemma_grows(inner(g2), rg);
    lemma_logical_shape(g2, op, l, slot, rg, r);
    lemma_grows(g2, last.0);
    lemma_extends(g1, g2, last.0);
    lemma_less(vars, vals, cs, g, g1, last.0, s);
    let t = lemma_expr(b, p, vars, vals, cs, g, lhs, s, fuel);
    match sense(b, p, vars, vals, lhs, s.w) {
        Value::Is(lv, w1) => {
            if (op == BinOp::And) == (b.truth)(lv) {
                lemma_extends_put(rg, IrTy::I64, Op::SetVar(slot), seq![r]);
                lemma_begins_self(long);
                lemma_begins(long.code, rg, long);
                lemma_env_kept(vars, g, inner(g2), s, t, vals);
                let u = lemma_expr(b, p, vars, vals, long.code, inner(g2), rhs, t, fuel);
                match sense(b, p, vars, vals, rhs, w1) {
                    Value::Is(rv, w2) => {
                        let x = State { regs: u.regs, vars: u.vars.insert(slot as nat, rv), w: w2 };
                        lemma_set_last(b, rg, slot, r, u, fuel);
                        let v = lemma_flag(b, cs, g2, op, l, slot, rg, r, t, x, fuel);
                        lemma_flag_kept(t, u, v, g1, slot);
                        lemma_moves(b, cs, g, g1, last.0, s, t, v, fuel);
                        v
                    },
                    _ => {
                        lemma_no_flag(b, cs, g2, op, l, slot, rg, r, t, fuel);
                        u
                    },
                }
            } else {
                let f = (b.konst)(OpndV::Bool(op == BinOp::Or));
                let x = State { regs: t.regs, vars: t.vars.insert(slot as nat, f), w: w1 };
                lemma_set_last(b, inner(long), slot, OpndV::Bool(op == BinOp::Or), t, fuel);
                let v = lemma_flag(b, cs, g2, op, l, slot, rg, r, t, x, fuel);
                lemma_flag_kept(t, t, v, g1, slot);
                lemma_moves(b, cs, g, g1, last.0, s, t, v, fuel);
                v
            }
        },
        _ => t,
    }
}

proof fn lemma_array<V, W>(
    b: Base<V, W>,
    p: ProgramV,
    vars: Seq<VarV>,
    vals: Seq<V>,
    cs: Seq<CodeV>,
    g: Gen,
    e: ExprV,
    s: State<V, W>,
    fuel: nat,
) -> (t: State<V, W>)
    requires
        e.kind is Array,
        typed(p, vars, e),
        ready(vars, vals, cs, g, code_at(p, vars, g, e).0, s),
    ensures
        lands(
            b,
            cs,
            g,
            code_at(p, vars, g, e),
            s,
            t,
            fuel,
            sense(b, p, vars, vals, e, s.w),
        ),
    decreases e, 0int,
{
    parts_of_array(p, vars, g, e);
    sense_of_array(b, p, vars, vals, e, s.w);
    array_is_made(b, e.kind->Array_0.len() as usize, s.w);
    let es = e.kind->Array_0;
    let last = code_at(p, vars, g, e);
    let n = es.len() as usize;
    let (h, hdr) = placed_row(g, array_row(n), Seq::empty());
    let made = h.regs.len() - g.regs.len();
    let data = src_opnd(Seq::empty(), g.regs.len(), made, array_data(n));
    lemma_placed_row(g, array_row(n), Seq::empty());
    lemma_elems_shape(p, vars, h, data, es, 0);
    lemma_less(vars, vals, cs, g, h, last.0, s);
    let none = Seq::<V>::empty();
    let t = lemma_row(b, cs, g, array_row(n).parts, Seq::empty(), none, s, fuel);
    match row(b, array_row(n).parts, none, s.w) {
        RowEnd::Done(res, w1) => {
            lemma_on(vars, vals, cs, g, h, last.0, s, t);
            assert(holds(b, t, Seq::empty(), g.regs.len(), none, res));
            lemma_src(b, t, Seq::empty(), g.regs.len(), none, res, array_data(n));
            lemma_src(b, t, Seq::empty(), g.regs.len(), none, res, Src::Res(0));
            let dv = src_val(b, none, res, array_data(n));
            let u = lemma_elements(
                b,
                p,
                vars,
                vals,
                cs,
                h,
                data,
                dv,
                es,
                0,
                hdr,
                res[0],
                t,
                fuel,
            );
            let end = elems_sense(b, p, vars, vals, dv, es, 0, res[0], w1);
            lemma_then(b, cs, g, h, last, s, t, u, fuel, end);
            u
        },
        _ => t,
    }
}

proof fn lemma_elements<V, W>(
    b: Base<V, W>,
    p: ProgramV,
    vars: Seq<VarV>,
    vals: Seq<V>,
    cs: Seq<CodeV>,
    g: Gen,
    data: OpndV,
    dv: V,
    es: Seq<ExprV>,
    i: int,
    hdr: OpndV,
    hv: V,
    s: State<V, W>,
    fuel: nat,
) -> (t: State<V, W>)
    requires
        0 <= i <= es.len(),
        all_typed(p, vars, es),
        known(data, g),
        known(hdr, g),
        opnd_val(b, s, data) == dv,
        opnd_val(b, s, hdr) == hv,
        ready(vars, vals, cs, g, elems_at(p, vars, g, data, es, i), s),
    ensures
        lands(
            b,
            cs,
            g,
            (elems_at(p, vars, g, data, es, i), hdr),
            s,
            t,
            fuel,
            elems_sense(b, p, vars, vals, dv, es, i, hv, s.w),
        ),
    decreases es, es.len() - i,
{
    parts_of_elems(p, vars, g, data, es, i);
    sense_of_elems(b, p, vars, vals, dv, es, i, hv, s.w);
    lemma_self_moves(b, cs, g, s, fuel);
    if i == es.len() {
        s
    } else {
            let k = i as usize;
        let last = elems_at(p, vars, g, data, es, i);
        let (g1, v) = code_at(p, vars, g, es[i]);
        let h = store_at(g1, data, k, v);
        lemma_shape(p, vars, g, es[i]);
        lemma_placed(g1, store_row(k), seq![data, v]);
        lemma_elems_shape(p, vars, h, data, es, i + 1);
        lemma_extends(g1, h, last);
        lemma_extends(g, g1, h);
        lemma_known(data, g, g1);
        lemma_known(data, g1, h);
        lemma_known(hdr, g, g1);
        lemma_known(hdr, g1, h);
        lemma_less(vars, vals, cs, g, g1, last, s);
        let t = lemma_expr(b, p, vars, vals, cs, g, es[i], s, fuel);
        match sense(b, p, vars, vals, es[i], s.w) {
            Value::Is(x, w1) => {
                lemma_on(vars, vals, cs, g, g1, last, s, t);
                lemma_less(vars, vals, cs, g1, h, last, t);
                lemma_val_kept(b, s, t, g, data);
                lemma_val_kept(b, s, t, g, hdr);
                let u = lemma_store(b, cs, g1, data, dv, k, v, x, t, fuel);
                match row(b, store_row(k), seq![dv, x], w1) {
                    RowEnd::Done(_, w2) => {
                        lemma_on(vars, vals, cs, g1, h, last, t, u);
                        lemma_moves(b, cs, g, g1, h, s, t, u, fuel);
                        lemma_val_kept(b, t, u, g1, data);
                        lemma_val_kept(b, t, u, g1, hdr);
                        let z = lemma_elements(
                            b,
                            p,
                            vars,
                            vals,
                            cs,
                            h,
                            data,
                            dv,
                            es,
                            i + 1,
                            hdr,
                            hv,
                            u,
                            fuel,
                        );
                        let end = elems_sense(b, p, vars, vals, dv, es, i + 1, hv, w2);
                        lemma_then(b, cs, g, h, (last, hdr), s, u, z, fuel, end);
                        z
                    },
                    _ => u,
                }
            },
            _ => t,
        }
    }
}

proof fn lemma_inits<V, W>(
    b: Base<V, W>,
    p: ProgramV,
    vars: Seq<VarV>,
    vals: Seq<V>,
    cs: Seq<CodeV>,
    g: Gen,
    obj: OpndV,
    ov: V,
    fields: Seq<ParamV>,
    fs: Seq<FieldInitV>,
    i: int,
    s: State<V, W>,
    fuel: nat,
) -> (t: State<V, W>)
    requires
        0 <= i <= fields.len(),
        inits_typed(p, vars, fs),
        known(obj, g),
        opnd_val(b, s, obj) == ov,
        ready(vars, vals, cs, g, fields_at(p, vars, g, obj, fields, fs, i), s),
    ensures
        lands(
            b,
            cs,
            g,
            (fields_at(p, vars, g, obj, fields, fs, i), obj),
            s,
            t,
            fuel,
            fields_sense(b, p, vars, vals, ov, fields, fs, i, s.w),
        ),
    decreases fs, fields.len() - i,
{
    parts_of_fields(p, vars, g, obj, fields, fs, i);
    sense_of_fields(b, p, vars, vals, ov, fields, fs, i, s.w);
    lemma_self_moves(b, cs, g, s, fuel);
    if i == fields.len() {
        s
    } else {
            let j = init_index(fs, fields[i].name, 0);
        if 0 <= j < fs.len() {
            let k = i as usize;
            let last = fields_at(p, vars, g, obj, fields, fs, i);
            let (g1, v) = code_at(p, vars, g, fs[j].value);
            let h = store_at(g1, obj, k, v);
            lemma_shape(p, vars, g, fs[j].value);
            lemma_placed(g1, store_row(k), seq![obj, v]);
            lemma_fields_shape(p, vars, h, obj, fields, fs, i + 1);
            lemma_extends(g1, h, last);
            lemma_extends(g, g1, h);
            lemma_known(obj, g, g1);
            lemma_known(obj, g1, h);
            lemma_less(vars, vals, cs, g, g1, last, s);
            let t = lemma_expr(b, p, vars, vals, cs, g, fs[j].value, s, fuel);
            match sense(b, p, vars, vals, fs[j].value, s.w) {
                Value::Is(x, w1) => {
                    lemma_on(vars, vals, cs, g, g1, last, s, t);
                    lemma_less(vars, vals, cs, g1, h, last, t);
                    lemma_val_kept(b, s, t, g, obj);
                    let u = lemma_store(b, cs, g1, obj, ov, k, v, x, t, fuel);
                    match row(b, store_row(k), seq![ov, x], w1) {
                        RowEnd::Done(_, w2) => {
                            lemma_on(vars, vals, cs, g1, h, last, t, u);
                            lemma_moves(b, cs, g, g1, h, s, t, u, fuel);
                            lemma_val_kept(b, t, u, g1, obj);
                            let z = lemma_inits(
                                b,
                                p,
                                vars,
                                vals,
                                cs,
                                h,
                                obj,
                                ov,
                                fields,
                                fs,
                                i + 1,
                                u,
                                fuel,
                            );
                            let end = fields_sense(b, p, vars, vals, ov, fields, fs, i + 1, w2);
                            lemma_then(b, cs, g, h, (last, obj), s, u, z, fuel, end);
                            z
                        },
                        _ => u,
                    }
                },
                _ => t,
            }
        } else {
            s
        }
    }
}

proof fn lemma_put<V, W>(
    b: Base<V, W>,
    cs: Seq<CodeV>,
    g: Gen,
    o: OpndV,
    ov: V,
    k: OpndV,
    kv: V,
    x: OpndV,
    xv: V,
    ty: Ty,
    s: State<V, W>,
    fuel: nat,
) -> (t: State<V, W>)
    requires
        known(o, g),
        known(k, g),
        known(x, g),
        opnd_val(b, s, o) == ov,
        opnd_val(b, s, k) == kv,
        opnd_val(b, s, x) == xv,
        begins(cs, put_at(g, o, k, x, ty)),
    ensures
        lands_row(
            b,
            cs,
            g,
            put_at(g, o, k, x, ty),
            s,
            t,
            fuel,
            row(b, map_put_row(ty), seq![ov, kv, xv], s.w),
        ),
{
    code_map_put(g, o, k, x, ty);
    assert(are(b, s, seq![o, k, x], seq![ov, kv, xv]));
    assert(all_known(seq![o, k, x], g));
    lemma_row(b, cs, g, map_put_row(ty), seq![o, k, x], seq![ov, kv, xv], s, fuel)
}

proof fn lemma_pairs<V, W>(
    b: Base<V, W>,
    p: ProgramV,
    vars: Seq<VarV>,
    vals: Seq<V>,
    cs: Seq<CodeV>,
    g: Gen,
    hdr: OpndV,
    hv: V,
    es: Seq<(ExprV, ExprV)>,
    i: int,
    s: State<V, W>,
    fuel: nat,
) -> (t: State<V, W>)
    requires
        0 <= i <= es.len(),
        pairs_typed(p, vars, es),
        known(hdr, g),
        opnd_val(b, s, hdr) == hv,
        ready(vars, vals, cs, g, pairs_at(p, vars, g, hdr, es, i), s),
    ensures
        lands(
            b,
            cs,
            g,
            (pairs_at(p, vars, g, hdr, es, i), hdr),
            s,
            t,
            fuel,
            pairs_sense(b, p, vars, vals, hv, es, i, s.w),
        ),
    decreases es, es.len() - i,
{
    parts_of_pairs(p, vars, g, hdr, es, i);
    sense_of_pairs(b, p, vars, vals, hv, es, i, s.w);
    lemma_self_moves(b, cs, g, s, fuel);
    if i == es.len() {
        s
    } else {
            let last = pairs_at(p, vars, g, hdr, es, i);
        let (g1, k) = code_at(p, vars, g, es[i].0);
        let (g2, x) = code_at(p, vars, g1, es[i].1);
        let ty = type_at(p, vars, es[i].1);
        let h = put_at(g2, hdr, k, x, ty);
        lemma_shape(p, vars, g, es[i].0);
        lemma_shape(p, vars, g1, es[i].1);
        lemma_placed(g2, map_put_row(ty), seq![hdr, k, x]);
        lemma_pairs_shape(p, vars, h, hdr, es, i + 1);
        lemma_extends(g2, h, last);
        lemma_extends(g1, g2, last);
        lemma_extends(g, g1, g2);
        lemma_extends(g, g2, h);
        lemma_known(k, g1, g2);
        lemma_known(hdr, g, g1);
        lemma_known(hdr, g1, g2);
        lemma_known(hdr, g2, h);
        lemma_less(vars, vals, cs, g, g1, last, s);
        let t = lemma_expr(b, p, vars, vals, cs, g, es[i].0, s, fuel);
        match sense(b, p, vars, vals, es[i].0, s.w) {
            Value::Is(kv, w1) => {
                lemma_on(vars, vals, cs, g, g1, last, s, t);
                lemma_less(vars, vals, cs, g1, g2, last, t);
                lemma_val_kept(b, s, t, g, hdr);
                let u = lemma_expr(b, p, vars, vals, cs, g1, es[i].1, t, fuel);
                match sense(b, p, vars, vals, es[i].1, w1) {
                    Value::Is(xv, w2) => {
                        lemma_on(vars, vals, cs, g1, g2, last, t, u);
                        lemma_less(vars, vals, cs, g2, h, last, u);
                        lemma_moves(b, cs, g, g1, g2, s, t, u, fuel);
                        lemma_val_kept(b, t, u, g1, hdr);
                        lemma_val_kept(b, t, u, g1, k);
                        let y = lemma_put(b, cs, g2, hdr, hv, k, kv, x, xv, ty, u, fuel);
                        match row(b, map_put_row(ty), seq![hv, kv, xv], w2) {
                            RowEnd::Done(_, w3) => {
                                lemma_on(vars, vals, cs, g2, h, last, u, y);
                                lemma_moves(b, cs, g, g2, h, s, u, y, fuel);
                                lemma_val_kept(b, u, y, g2, hdr);
                                let z = lemma_pairs(
                                    b,
                                    p,
                                    vars,
                                    vals,
                                    cs,
                                    h,
                                    hdr,
                                    hv,
                                    es,
                                    i + 1,
                                    y,
                                    fuel,
                                );
                                let end = pairs_sense(b, p, vars, vals, hv, es, i + 1, w3);
                                lemma_then(b, cs, g, h, (last, hdr), s, y, z, fuel, end);
                                z
                            },
                            _ => y,
                        }
                    },
                    _ => u,
                }
            },
            _ => t,
        }
    }
}

proof fn lemma_struct<V, W>(
    b: Base<V, W>,
    p: ProgramV,
    vars: Seq<VarV>,
    vals: Seq<V>,
    cs: Seq<CodeV>,
    g: Gen,
    e: ExprV,
    s: State<V, W>,
    fuel: nat,
) -> (t: State<V, W>)
    requires
        e.kind is StructLit,
        typed(p, vars, e),
        ready(vars, vals, cs, g, code_at(p, vars, g, e).0, s),
    ensures
        lands(
            b,
            cs,
            g,
            code_at(p, vars, g, e),
            s,
            t,
            fuel,
            sense(b, p, vars, vals, e, s.w),
        ),
    decreases e, 0int,
{
    parts_of_struct(p, vars, g, e);
    sense_of_struct(b, p, vars, vals, e, s.w);
    let (name, fields) = (e.kind->StructLit_name, e.kind->StructLit_fields);
    let last = code_at(p, vars, g, e);
    let def = struct_named(p, name)->0;
    let n = def.fields.len() as usize;
    let r = single(IrTy::Ptr, Op::New(n), Srcs::S0);
    let none = Seq::<V>::empty();
    let (h, obj) = placed_row(g, r, Seq::empty());
    lemma_placed_row(g, r, Seq::empty());
    lemma_fields_shape(p, vars, h, obj, def.fields, fields, 0);
    lemma_less(vars, vals, cs, g, h, last.0, s);
    let t = lemma_value(b, cs, g, r, Seq::empty(), none, s, fuel);
    match value_of(b, r, none, s.w) {
        Value::Is(ov, w1) => {
            lemma_on(vars, vals, cs, g, h, last.0, s, t);
            let u = lemma_inits(b, p, vars, vals, cs, h, obj, ov, def.fields, fields, 0, t, fuel);
            let end = fields_sense(b, p, vars, vals, ov, def.fields, fields, 0, w1);
            lemma_then(b, cs, g, h, last, s, t, u, fuel, end);
            u
        },
        _ => t,
    }
}

proof fn lemma_map<V, W>(
    b: Base<V, W>,
    p: ProgramV,
    vars: Seq<VarV>,
    vals: Seq<V>,
    cs: Seq<CodeV>,
    g: Gen,
    e: ExprV,
    s: State<V, W>,
    fuel: nat,
) -> (t: State<V, W>)
    requires
        e.kind is MapLit,
        typed(p, vars, e),
        ready(vars, vals, cs, g, code_at(p, vars, g, e).0, s),
    ensures
        lands(
            b,
            cs,
            g,
            code_at(p, vars, g, e),
            s,
            t,
            fuel,
            sense(b, p, vars, vals, e, s.w),
        ),
    decreases e, 0int,
{
    parts_of_map(p, vars, g, e);
    sense_of_map(b, p, vars, vals, e, s.w);
    let es = e.kind->MapLit_0;
    let last = code_at(p, vars, g, e);
    let r = single(IrTy::Ptr, Op::Rt(Rt::MapNew), Srcs::S0);
    let none = Seq::<V>::empty();
    let (h, hdr) = placed_row(g, r, Seq::empty());
    lemma_placed_row(g, r, Seq::empty());
    lemma_pairs_shape(p, vars, h, hdr, es, 0);
    lemma_less(vars, vals, cs, g, h, last.0, s);
    let t = lemma_value(b, cs, g, r, Seq::empty(), none, s, fuel);
    match value_of(b, r, none, s.w) {
        Value::Is(hv, w1) => {
            lemma_on(vars, vals, cs, g, h, last.0, s, t);
            let u = lemma_pairs(b, p, vars, vals, cs, h, hdr, hv, es, 0, t, fuel);
            let end = pairs_sense(b, p, vars, vals, hv, es, 0, w1);
            lemma_then(b, cs, g, h, last, s, t, u, fuel, end);
            u
        },
        _ => t,
    }
}

proof fn lemma_field<V, W>(
    b: Base<V, W>,
    p: ProgramV,
    vars: Seq<VarV>,
    vals: Seq<V>,
    cs: Seq<CodeV>,
    g: Gen,
    e: ExprV,
    s: State<V, W>,
    fuel: nat,
) -> (t: State<V, W>)
    requires
        e.kind is Field,
        typed(p, vars, e),
        ready(vars, vals, cs, g, code_at(p, vars, g, e).0, s),
    ensures
        lands(
            b,
            cs,
            g,
            code_at(p, vars, g, e),
            s,
            t,
            fuel,
            sense(b, p, vars, vals, e, s.w),
        ),
    decreases e, 0int,
{
    parts_of_field(p, vars, g, e);
    sense_of_field(b, p, vars, vals, e, s.w);
    let x = *e.kind->Field_obj;
    let last = code_at(p, vars, g, e);
    let (g1, o) = code_at(p, vars, g, x);
    let g2 = null_at(g1, o);
    let r = field_row(p, vars, e);
    lemma_shape(p, vars, g, x);
    lemma_placed(g1, null_row().parts, seq![o]);
    lemma_known(o, g1, g2);
    assert(all_known(seq![o], g2));
    lemma_placed_row(g2, r, seq![o]);
    lemma_extends(g1, g2, last.0);
    lemma_extends(g, g1, g2);
    lemma_less(vars, vals, cs, g, g1, last.0, s);
    lemma_less(vars, vals, cs, g, g2, last.0, s);
    let t = lemma_expr(b, p, vars, vals, cs, g, x, s, fuel);
    match sense(b, p, vars, vals, x, s.w) {
        Value::Is(ov, w1) => {
            let u = lemma_null(b, cs, g1, o, ov, t, fuel);
            match value_of(b, null_row(), seq![ov], w1) {
                Value::Is(_, w2) => {
                    lemma_moves(b, cs, g, g1, g2, s, t, u, fuel);
                    lemma_one(b, u, o, ov, g2);
                    let z = lemma_value(b, cs, g2, r, seq![o], seq![ov], u, fuel);
                    let end = value_of(b, r, seq![ov], w2);
                    lemma_then(b, cs, g, g2, last, s, u, z, fuel, end);
                    z
                },
                _ => u,
            }
        },
        _ => t,
    }
}

proof fn lemma_index<V, W>(
    b: Base<V, W>,
    p: ProgramV,
    vars: Seq<VarV>,
    vals: Seq<V>,
    cs: Seq<CodeV>,
    g: Gen,
    e: ExprV,
    s: State<V, W>,
    fuel: nat,
) -> (t: State<V, W>)
    requires
        e.kind is Index,
        typed(p, vars, e),
        ready(vars, vals, cs, g, code_at(p, vars, g, e).0, s),
    ensures
        lands(
            b,
            cs,
            g,
            code_at(p, vars, g, e),
            s,
            t,
            fuel,
            sense(b, p, vars, vals, e, s.w),
        ),
    decreases e, 0int,
{
    parts_of_index(p, vars, g, e);
    sense_of_index(b, p, vars, vals, e, s.w);
    let (x, y) = (*e.kind->Index_array, *e.kind->Index_index);
    let last = code_at(p, vars, g, e);
    let (g1, a) = code_at(p, vars, g, x);
    let g2 = null_at(g1, a);
    let (g3, i) = code_at(p, vars, g2, y);
    let r = index_row(type_at(p, vars, x));
    lemma_shape(p, vars, g, x);
    lemma_placed(g1, null_row().parts, seq![a]);
    lemma_shape(p, vars, g2, y);
    lemma_extends(g1, g2, g3);
    lemma_known(a, g1, g2);
    lemma_known(a, g1, g3);
    assert(all_known(seq![a, i], g3));
    assert(last == placed_row(g3, r, seq![a, i]));
    lemma_placed_row(g3, r, seq![a, i]);
    lemma_extends(g2, g3, last.0);
    lemma_extends(g1, g2, last.0);
    lemma_extends(g, g1, g2);
    lemma_extends(g, g2, g3);
    lemma_less(vars, vals, cs, g, g1, last.0, s);
    lemma_less(vars, vals, cs, g, g2, last.0, s);
    let t = lemma_expr(b, p, vars, vals, cs, g, x, s, fuel);
    match sense(b, p, vars, vals, x, s.w) {
        Value::Is(av, w1) => {
            let u = lemma_null(b, cs, g1, a, av, t, fuel);
            match value_of(b, null_row(), seq![av], w1) {
                Value::Is(_, w2) => {
                    lemma_moves(b, cs, g, g1, g2, s, t, u, fuel);
                    lemma_on(vars, vals, cs, g, g2, last.0, s, u);
                    lemma_less(vars, vals, cs, g2, g3, last.0, u);
                    let y1 = lemma_expr(b, p, vars, vals, cs, g2, y, u, fuel);
                    match sense(b, p, vars, vals, y, w2) {
                        Value::Is(iv, w3) => {
                            lemma_moves(b, cs, g, g2, g3, s, u, y1, fuel);
                            lemma_val_kept(b, u, y1, g2, a);
                            lemma_two(b, y1, a, av, i, iv, g3);
                            let z = lemma_value(b, cs, g3, r, seq![a, i], seq![av, iv], y1, fuel);
                            let end = value_of(b, r, seq![av, iv], w3);
                            lemma_then(b, cs, g, g3, last, s, y1, z, fuel, end);
                            z
                        },
                        _ => y1,
                    }
                },
                _ => u,
            }
        },
        _ => t,
    }
}

proof fn lemma_bound<V, W>(
    b: Base<V, W>,
    p: ProgramV,
    vars: Seq<VarV>,
    vals: Seq<V>,
    cs: Seq<CodeV>,
    g: Gen,
    e: Option<Box<ExprV>>,
    other: OpndV,
    ov: V,
    s: State<V, W>,
    fuel: nat,
) -> (t: State<V, W>)
    requires
        bound_typed(p, vars, e),
        opnd_val(b, s, other) == ov,
        ready(vars, vals, cs, g, bound_at(p, vars, g, e, other).0, s),
    ensures
        lands(
            b,
            cs,
            g,
            bound_at(p, vars, g, e, other),
            s,
            t,
            fuel,
            bound_sense(b, p, vars, vals, e, ov, s.w),
        ),
    decreases e, 0int,
{
    parts_of_bound(p, vars, g, e, other);
    sense_of_bound(b, p, vars, vals, e, ov, s.w);
    lemma_self_moves(b, cs, g, s, fuel);
    match e {
        Some(x) => lemma_expr(b, p, vars, vals, cs, g, *x, s, fuel),
        None => s,
    }
}

proof fn lemma_slice<V, W>(
    b: Base<V, W>,
    p: ProgramV,
    vars: Seq<VarV>,
    vals: Seq<V>,
    cs: Seq<CodeV>,
    g: Gen,
    e: ExprV,
    s: State<V, W>,
    fuel: nat,
) -> (t: State<V, W>)
    requires
        e.kind is Slice,
        typed(p, vars, e),
        ready(vars, vals, cs, g, code_at(p, vars, g, e).0, s),
    ensures
        lands(
            b,
            cs,
            g,
            code_at(p, vars, g, e),
            s,
            t,
            fuel,
            sense(b, p, vars, vals, e, s.w),
        ),
    decreases e, 1int,
{
    parts_of_slice(p, vars, g, e);
    sense_of_slice(b, p, vars, vals, e, s.w);
    let (x, lo, hi) = (*e.kind->Slice_seq, e.kind->Slice_lo, e.kind->Slice_hi);
    let last = code_at(p, vars, g, e);
    let ty = type_at(p, vars, x);
    let (g1, o) = code_at(p, vars, g, x);
    let g2 = null_at(g1, o);
    let (g3, len) = placed_row(g2, length_row(ty), seq![o]);
    let (g4, l) = bound_at(p, vars, g3, lo, OpndV::Int(0));
    let (g5, h) = bound_at(p, vars, g4, hi, len);
    lemma_shape(p, vars, g, x);
    lemma_placed(g1, null_row().parts, seq![o]);
    lemma_known(o, g1, g2);
    assert(all_known(seq![o], g2));
    lemma_placed_row(g2, length_row(ty), seq![o]);
    lemma_bound_shape(p, vars, g3, lo, OpndV::Int(0));
    lemma_known(len, g3, g4);
    lemma_bound_shape(p, vars, g4, hi, len);
    lemma_known(l, g4, g5);
    lemma_known(len, g4, g5);
    lemma_extends(g3, g4, g5);
    lemma_extends(g2, g3, g5);
    lemma_known(o, g2, g3);
    lemma_known(o, g2, g5);
    assert(all_known(seq![o, l, h, len], g5));
    lemma_placed_row(g5, slice_row(ty), seq![o, l, h, len]);
    lemma_extends(g4, g5, last.0);
    lemma_extends(g3, g4, last.0);
    lemma_extends(g2, g3, last.0);
    lemma_extends(g1, g2, last.0);
    lemma_extends(g, g1, g2);
    lemma_extends(g, g2, g3);
    lemma_extends(g, g3, g4);
    lemma_extends(g, g4, g5);
    lemma_less(vars, vals, cs, g, g1, last.0, s);
    lemma_less(vars, vals, cs, g, g2, last.0, s);
    lemma_less(vars, vals, cs, g, g3, last.0, s);
    let t = lemma_expr(b, p, vars, vals, cs, g, x, s, fuel);
    match sense(b, p, vars, vals, x, s.w) {
        Value::Is(xv, w1) => {
            let u = lemma_null(b, cs, g1, o, xv, t, fuel);
            match value_of(b, null_row(), seq![xv], w1) {
                Value::Is(_, w2) => {
                    lemma_moves(b, cs, g, g1, g2, s, t, u, fuel);
                    lemma_one(b, u, o, xv, g2);
                    let u1 = lemma_value(b, cs, g2, length_row(ty), seq![o], seq![xv], u, fuel);
                    match value_of(b, length_row(ty), seq![xv], w2) {
                        Value::Is(nv, w3) => {
                            lemma_moves(b, cs, g, g2, g3, s, u, u1, fuel);
                            lemma_val_kept(b, u, u1, g2, o);
                            lemma_on(vars, vals, cs, g, g3, last.0, s, u1);
                            lemma_slice_end(
                                b,
                                p,
                                vars,
                                vals,
                                cs,
                                g,
                                e,
                                s,
                                u1,
                                xv,
                                nv,
                                fuel,
                            )
                        },
                        _ => u1,
                    }
                },
                _ => u,
            }
        },
        _ => t,
    }
}

/// A slice from its bounds on.
proof fn lemma_slice_end<V, W>(
    b: Base<V, W>,
    p: ProgramV,
    vars: Seq<VarV>,
    vals: Seq<V>,
    cs: Seq<CodeV>,
    g: Gen,
    e: ExprV,
    s: State<V, W>,
    t: State<V, W>,
    xv: V,
    nv: V,
    fuel: nat,
) -> (u: State<V, W>)
    requires
        e.kind is Slice,
        typed(p, vars, e),
        ({
            let x = *e.kind->Slice_seq;
            let (g1, o) = code_at(p, vars, g, x);
            let g2 = null_at(g1, o);
            let (g3, len) = placed_row(g2, length_row(type_at(p, vars, x)), seq![o]);
            &&& extends(g, g3)
            &&& moves(b, cs, g, g3, s, t, fuel)
            &&& known(o, g3)
            &&& known(len, g3)
            &&& opnd_val(b, t, o) == xv
            &&& opnd_val(b, t, len) == nv
            &&& ready(vars, vals, cs, g3, code_at(p, vars, g, e).0, t)
        }),
    ensures
        ({
            let ty = type_at(p, vars, *e.kind->Slice_seq);
            let zero = (b.konst)(OpndV::Int(0));
            let end = match bound_sense(b, p, vars, vals, e.kind->Slice_lo, zero, t.w) {
                Value::Is(l, w4) => match bound_sense(b, p, vars, vals, e.kind->Slice_hi, nv, w4) {
                    Value::Is(h, w5) => value_of(b, slice_row(ty), seq![xv, l, h, nv], w5),
                    other => other,
                },
                other => other,
            };
            lands(b, cs, g, code_at(p, vars, g, e), s, u, fuel, end)
        }),
    decreases e, 0int,
{
    parts_of_slice(p, vars, g, e);
    let (x, lo, hi) = (*e.kind->Slice_seq, e.kind->Slice_lo, e.kind->Slice_hi);
    let last = code_at(p, vars, g, e);
    let ty = type_at(p, vars, x);
    let (g1, o) = code_at(p, vars, g, x);
    let g2 = null_at(g1, o);
    let (g3, len) = placed_row(g2, length_row(ty), seq![o]);
    let (g4, l) = bound_at(p, vars, g3, lo, OpndV::Int(0));
    let (g5, h) = bound_at(p, vars, g4, hi, len);
    lemma_bound_shape(p, vars, g3, lo, OpndV::Int(0));
    lemma_known(len, g3, g4);
    lemma_known(o, g3, g4);
    lemma_bound_shape(p, vars, g4, hi, len);
    lemma_known(l, g4, g5);
    lemma_known(len, g4, g5);
    lemma_known(o, g4, g5);
    assert(all_known(seq![o, l, h, len], g5));
    lemma_placed_row(g5, slice_row(ty), seq![o, l, h, len]);
    lemma_extends(g4, g5, last.0);
    lemma_extends(g, g3, g4);
    lemma_extends(g, g4, g5);
    lemma_less(vars, vals, cs, g3, g4, last.0, t);
    let zero = (b.konst)(OpndV::Int(0));
    let t1 = lemma_bound(b, p, vars, vals, cs, g3, lo, OpndV::Int(0), zero, t, fuel);
    match bound_sense(b, p, vars, vals, lo, zero, t.w) {
        Value::Is(lv, w4) => {
            lemma_moves(b, cs, g, g3, g4, s, t, t1, fuel);
            lemma_val_kept(b, t, t1, g3, o);
            lemma_val_kept(b, t, t1, g3, len);
            lemma_on(vars, vals, cs, g3, g4, last.0, t, t1);
            lemma_less(vars, vals, cs, g4, g5, last.0, t1);
            let t2 = lemma_bound(b, p, vars, vals, cs, g4, hi, len, nv, t1, fuel);
            match bound_sense(b, p, vars, vals, hi, nv, w4) {
                Value::Is(hv, w5) => {
                    lemma_moves(b, cs, g, g4, g5, s, t1, t2, fuel);
                    lemma_val_kept(b, t1, t2, g4, o);
                    lemma_val_kept(b, t1, t2, g4, len);
                    lemma_val_kept(b, t1, t2, g4, l);
                    let os = seq![o, l, h, len];
                    let vs = seq![xv, lv, hv, nv];
                    assert(are(b, t2, os, vs));
                    let z = lemma_value(b, cs, g5, slice_row(ty), os, vs, t2, fuel);
                    let end = value_of(b, slice_row(ty), vs, w5);
                    lemma_then(b, cs, g, g5, last, s, t2, z, fuel, end);
                    z
                },
                _ => t2,
            }
        },
        _ => t1,
    }
}

/// The run does what `v` says, and has its values in operands.
pub open spec fn lands_all<V, W>(
    b: Base<V, W>,
    cs: Seq<CodeV>,
    g: Gen,
    r: (Gen, Seq<OpndV>),
    s: State<V, W>,
    t: State<V, W>,
    fuel: nat,
    v: Values<V, W>,
) -> bool {
    match v {
        Values::Are(vs, w) => moves(b, cs, g, r.0, s, t, fuel) && t.w == w && are(b, t, r.1, vs),
        Values::Halt(msg, w) => halts(b, cs, g, s, t, fuel, msg, w),
        Values::Stop(w) => stops(b, cs, g, s, t, fuel, w),
    }
}

proof fn lemma_list<V, W>(
    b: Base<V, W>,
    p: ProgramV,
    vars: Seq<VarV>,
    vals: Seq<V>,
    cs: Seq<CodeV>,
    g: Gen,
    es: Seq<ExprV>,
    i: int,
    acc: Seq<OpndV>,
    avs: Seq<V>,
    s: State<V, W>,
    fuel: nat,
) -> (t: State<V, W>)
    requires
        0 <= i <= es.len(),
        acc.len() == i,
        all_known(acc, g),
        are(b, s, acc, avs),
        all_typed(p, vars, es),
        ready(vars, vals, cs, g, list_at(p, vars, g, es, i, acc).0, s),
    ensures
        lands_all(
            b,
            cs,
            g,
            list_at(p, vars, g, es, i, acc),
            s,
            t,
            fuel,
            list_sense(b, p, vars, vals, es, i, avs, s.w),
        ),
    decreases es, es.len() - i,
{
    parts_of_list(p, vars, g, es, i, acc);
    sense_of_list(b, p, vars, vals, es, i, avs, s.w);
    lemma_self_moves(b, cs, g, s, fuel);
    if i == es.len() {
        s
    } else {
        let last = list_at(p, vars, g, es, i, acc);
        let (h, v) = code_at(p, vars, g, es[i]);
        lemma_shape(p, vars, g, es[i]);
        lemma_push_known(acc, v, g, h);
        lemma_list_shape(p, vars, h, es, i + 1, acc.push(v));
        lemma_less(vars, vals, cs, g, h, last.0, s);
        let t = lemma_expr(b, p, vars, vals, cs, g, es[i], s, fuel);
        match sense(b, p, vars, vals, es[i], s.w) {
            Value::Is(x, w1) => {
                lemma_on(vars, vals, cs, g, h, last.0, s, t);
                lemma_are_kept(b, g, s, t, acc, avs);
                assert(are(b, t, acc.push(v), avs.push(x))) by {
                    assert forall|k: int| 0 <= k < acc.push(v).len() implies opnd_val(
                        b,
                        t,
                        #[trigger] acc.push(v)[k],
                    ) == avs.push(x)[k] by {
                        if k < acc.len() {
                            assert(opnd_val(b, t, acc[k]) == avs[k]);
                        }
                    }
                }
                let u = lemma_list(
                    b,
                    p,
                    vars,
                    vals,
                    cs,
                    h,
                    es,
                    i + 1,
                    acc.push(v),
                    avs.push(x),
                    t,
                    fuel,
                );
                if list_sense(b, p, vars, vals, es, i + 1, avs.push(x), w1) is Are {
                    lemma_moves(b, cs, g, h, last.0, s, t, u, fuel);
                }
                u
            },
            _ => t,
        }
    }
}

/// A call of a function whose first argument is checked before the second is evaluated.
proof fn lemma_checked<V, W>(
    b: Base<V, W>,
    p: ProgramV,
    vars: Seq<VarV>,
    vals: Seq<V>,
    cs: Seq<CodeV>,
    g: Gen,
    name: Seq<char>,
    args: Seq<ExprV>,
    f: Builtin,
    s: State<V, W>,
    fuel: nat,
) -> (t: State<V, W>)
    requires
        args.len() == 2,
        checks_first(f),
        builtin_named(name) == Some(f),
        all_typed(p, vars, args),
        ready(vars, vals, cs, g, call_at(p, vars, g, name, args).0, s),
    ensures
        lands(
            b,
            cs,
            g,
            call_at(p, vars, g, name, args),
            s,
            t,
            fuel,
            call_sense(b, p, vars, vals, name, args, s.w),
        ),
    decreases args, args.len(),
{
    parts_of_checked(p, vars, g, name, args, f);
    sense_of_checked(b, p, vars, vals, name, args, f, s.w);
    let last = call_at(p, vars, g, name, args);
    let (g1, x) = code_at(p, vars, g, args[0]);
    let g2 = null_at(g1, x);
    let (g3, y) = code_at(p, vars, g2, args[1]);
    lemma_shape(p, vars, g, args[0]);
    lemma_placed(g1, null_row().parts, seq![x]);
    lemma_shape(p, vars, g2, args[1]);
    lemma_extends(g1, g2, g3);
    lemma_known(x, g1, g2);
    lemma_known(x, g1, g3);
    assert(all_known(seq![x, y], g3));
    if f == Builtin::Push {
        lemma_push_parts(g3, x, y);
    } else {
        lemma_placed_row(g3, second_row(f), seq![x, y]);
    }
    lemma_extends(g2, g3, last.0);
    lemma_extends(g1, g2, last.0);
    lemma_extends(g, g1, g2);
    lemma_extends(g, g2, g3);
    lemma_less(vars, vals, cs, g, g1, last.0, s);
    lemma_less(vars, vals, cs, g, g2, last.0, s);
    let t = lemma_expr(b, p, vars, vals, cs, g, args[0], s, fuel);
    match sense(b, p, vars, vals, args[0], s.w) {
        Value::Is(xv, w1) => {
            let u = lemma_null(b, cs, g1, x, xv, t, fuel);
            match value_of(b, null_row(), seq![xv], w1) {
                Value::Is(_, w2) => {
                    lemma_moves(b, cs, g, g1, g2, s, t, u, fuel);
                    lemma_on(vars, vals, cs, g, g2, last.0, s, u);
                    lemma_less(vars, vals, cs, g2, g3, last.0, u);
                    let u1 = lemma_expr(b, p, vars, vals, cs, g2, args[1], u, fuel);
                    match sense(b, p, vars, vals, args[1], w2) {
                        Value::Is(yv, w3) => {
                            lemma_moves(b, cs, g, g2, g3, s, u, u1, fuel);
                            lemma_val_kept(b, u, u1, g2, x);
                            if f == Builtin::Push {
                                let z = lemma_pushed(b, cs, g3, x, xv, y, yv, u1, fuel);
                                let end = pushed(b, xv, yv, w3);
                                lemma_then(b, cs, g, g3, last, s, u1, z, fuel, end);
                                z
                            } else {
                                let os = seq![x, y];
                                let vs = seq![xv, yv];
                                lemma_two(b, u1, x, xv, y, yv, g3);
                                let z = lemma_value(b, cs, g3, second_row(f), os, vs, u1, fuel);
                                let end = value_of(b, second_row(f), vs, w3);
                                lemma_then(b, cs, g, g3, last, s, u1, z, fuel, end);
                                z
                            }
                        },
                        _ => u1,
                    }
                },
                _ => u,
            }
        },
        _ => t,
    }
}

/// A call of a function whose arguments are evaluated one after the other.
proof fn lemma_plain<V, W>(
    b: Base<V, W>,
    p: ProgramV,
    vars: Seq<VarV>,
    vals: Seq<V>,
    cs: Seq<CodeV>,
    g: Gen,
    name: Seq<char>,
    args: Seq<ExprV>,
    f: Builtin,
    s: State<V, W>,
    fuel: nat,
) -> (t: State<V, W>)
    requires
        !checks_first(f),
        builtin_named(name) == Some(f),
        call_typed(p, vars, name, args),
        ready(vars, vals, cs, g, call_at(p, vars, g, name, args).0, s),
    ensures
        lands(
            b,
            cs,
            g,
            call_at(p, vars, g, name, args),
            s,
            t,
            fuel,
            call_sense(b, p, vars, vals, name, args, s.w),
        ),
    decreases args, args.len() + 1,
{
    call_is_typed(p, vars, name, args);
    lemma_list_shape(p, vars, g, args, 0, Seq::empty());
    parts_of_plain(p, vars, g, name, args, f);
    sense_of_plain(b, p, vars, vals, name, args, f, s.w);
    let last = call_at(p, vars, g, name, args);
    let (g1, os) = list_at(p, vars, g, args, 0, Seq::empty());
    let ty = first_type(p, vars, args);
    if f == Builtin::ReadLine {
        lemma_line_parts(g1);
    } else {
        lemma_placed_row(g1, builtin_row(f, ty), os);
    }
    lemma_less(vars, vals, cs, g, g1, last.0, s);
    let none = Seq::<V>::empty();
    let t = lemma_list(b, p, vars, vals, cs, g, args, 0, Seq::empty(), none, s, fuel);
    match list_sense(b, p, vars, vals, args, 0, none, s.w) {
        Values::Are(vs, w1) => {
            if f == Builtin::ReadLine {
                let u = lemma_line(b, cs, g1, t, fuel);
                lemma_then(b, cs, g, g1, last, s, t, u, fuel, line(b, w1));
                u
            } else {
                let u = lemma_value(b, cs, g1, builtin_row(f, ty), os, vs, t, fuel);
                let end = value_of(b, builtin_row(f, ty), vs, w1);
                lemma_then(b, cs, g, g1, last, s, t, u, fuel, end);
                u
            }
        },
        _ => t,
    }
}

proof fn lemma_call<V, W>(
    b: Base<V, W>,
    p: ProgramV,
    vars: Seq<VarV>,
    vals: Seq<V>,
    cs: Seq<CodeV>,
    g: Gen,
    name: Seq<char>,
    args: Seq<ExprV>,
    s: State<V, W>,
    fuel: nat,
) -> (t: State<V, W>)
    requires
        call_typed(p, vars, name, args),
        ready(vars, vals, cs, g, call_at(p, vars, g, name, args).0, s),
    ensures
        lands(
            b,
            cs,
            g,
            call_at(p, vars, g, name, args),
            s,
            t,
            fuel,
            call_sense(b, p, vars, vals, name, args, s.w),
        ),
    decreases args, args.len() + 2,
{
    let last = call_at(p, vars, g, name, args);
    call_is_typed(p, vars, name, args);
    match builtin_named(name) {
        Some(f) => {
            if checks_first(f) {
                lemma_checked(b, p, vars, vals, cs, g, name, args, f, s, fuel)
            } else {
                lemma_plain(b, p, vars, vals, cs, g, name, args, f, s, fuel)
            }
        },
        None => {
            lemma_list_shape(p, vars, g, args, 0, Seq::empty());
            parts_of_own(p, vars, g, name, args);
            sense_of_own(b, p, vars, vals, name, args, s.w);
            let (g1, os) = list_at(p, vars, g, args, 0, Seq::empty());
            let i = func_index(p, name, 0);
            let ty = basic_ty(resolve(p, p.funcs[i].ret));
            if variant_named(p, name) is Some {
                lemma_variant_shape(p, g1, name, os);
            } else {
                lemma_func_shape(g1, i as nat, ty, os);
            }
            lemma_less(vars, vals, cs, g, g1, last.0, s);
            let none = Seq::<V>::empty();
            let t = lemma_list(b, p, vars, vals, cs, g, args, 0, Seq::empty(), none, s, fuel);
            match list_sense(b, p, vars, vals, args, 0, none, s.w) {
                Values::Are(vs, w1) => {
                    if variant_named(p, name) is Some {
                        let u = lemma_variant(b, p, cs, g1, name, os, vs, t, fuel);
                        lemma_then(b, cs, g, g1, last, s, t, u, fuel, variant(b, p, name, vs, w1));
                        u
                    } else {
                        let u = lemma_own(b, cs, g1, i as nat, ty, os, vs, t, fuel);
                        let end = match (b.call)(i as nat, vs, w1) {
                            Done::Go(v, w2) => Value::Is(v, w2),
                            Done::Stop(w2) => Value::Stop(w2),
                        };
                        lemma_then(b, cs, g, g1, last, s, t, u, fuel, end);
                        u
                    }
                },
                _ => t,
            }
        },
    }
}

/// A call of a function of the program.
proof fn lemma_own<V, W>(
    b: Base<V, W>,
    cs: Seq<CodeV>,
    g: Gen,
    f: nat,
    ty: IrTy,
    os: Seq<OpndV>,
    vs: Seq<V>,
    s: State<V, W>,
    fuel: nat,
) -> (t: State<V, W>)
    requires
        are(b, s, os, vs),
        begins(cs, call_func(g, f, ty, os).0),
    ensures
        lands(
            b,
            cs,
            g,
            call_func(g, f, ty, os),
            s,
            t,
            fuel,
            match (b.call)(f, vs, s.w) {
                Done::Go(v, w) => Value::Is(v, w),
                Done::Stop(w) => Value::Stop(w),
            },
        ),
{
    reveal(go);
    reveal(begins);
    reveal(keeps);
    let h = call_func(g, f, ty, os).0;
    lemma_last(cs, h);
    assert(cs[g.code.len() as int] == h.code.last());
    assert(opnd_vals(b, s, os) =~= vs);
    match (b.call)(f, vs, s.w) {
        Done::Go(v, w) => State { regs: s.regs.insert(g.regs.len(), v), vars: s.vars, w },
        Done::Stop(w) => State { regs: s.regs, vars: s.vars, w },
    }
}

} // verus!
