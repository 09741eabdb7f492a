//! Why `break` and `continue` leave no more than a loop.
use vstd::prelude::*;
#[allow(unused_imports)]
use crate::ast::{EnumDefV, FunctionV, MatchArmV, ProgramV, StmtKindV, StmtV};
#[allow(unused_imports)]
use crate::faithful::anatomy::{sense, type_at};
#[allow(unused_imports)]
use crate::faithful::arm_anatomy::{
    arm_fields, arm_is_ok, arm_sense, arm_start, arms_sense, lemma_arms, match_def, parts_of_match,
    payload_sense, sense_of_arm, sense_of_match,
};
#[allow(unused_imports)]
use crate::faithful::program::{func_place, lemma_params};
#[allow(unused_imports)]
use crate::faithful::stmt_anatomy::{
    arms_ok, below_row, each_next, is_loop, item_ty, items_sense, keys_row, loop_body, loop_ok,
    next_row, opt_at, opt_ok, opt_sense, parts_of_if, parts_of_loop, parts_of_opt, parts_of_stmts,
    sense_of_assign, sense_of_each, sense_of_if, sense_of_items, sense_of_let, sense_of_loop,
    sense_of_opt, sense_of_print, sense_of_small, sense_of_stmts, sense_of_turns, sole, stmt_at,
    stmt_ok, stmt_sense, stmts_ok, stmts_sense, turned, turns_sense, with_var,
};
#[allow(unused_imports)]
use crate::flow::tag_index;
#[allow(unused_imports)]
use crate::ir::{basic_ty, IrTy, OpndV};
#[allow(unused_imports)]
use crate::lowering::{param_vars, Gen, VarV};
#[allow(unused_imports)]
use crate::meaning::{
    arm_tags, cut, item_row, length_row, load_row, null_row, param_names, stmts, value_of,
    variant_arms, wildcard_arm, After, Base, Value, Values,
};
#[allow(unused_imports)]
use crate::types::Ty;
#[allow(unused_imports)]
use crate::typing::{func_ok, Place};

verus! {

/// A loop is left, or its next turn begun.
pub open spec fn leaves<V, W>(a: Option<After<V, W>>) -> bool {
    match a {
        Some(After::Brk(_, _)) => true,
        Some(After::Cont(_, _)) => true,
        _ => false,
    }
}

proof fn lemma_in_loop(cx: Place, vars: Seq<VarV>, x: StmtV)
    requires
        stmt_ok(cx, vars, x),
        x.kind is Break || x.kind is Continue,
    ensures
        cx.in_loop,
{
    reveal(stmt_ok);
}

proof fn lemma_stmt_confined<V, W>(
    b: Base<V, W>,
    cx: Place,
    vars: Seq<VarV>,
    vals: Seq<V>,
    g: Gen,
    x: StmtV,
    w: W,
    fuel: nat,
)
    requires
        stmt_ok(cx, vars, x),
        !cx.in_loop,
    ensures
        !leaves(stmt_sense(b, cx.prog, vars, vals, x, w, fuel)),
    decreases fuel, x, 4int,
{
    let p = cx.prog;
    match x.kind {
        StmtKindV::Let { .. } => sense_of_let(b, p, vars, vals, x, w, fuel),
        StmtKindV::Assign { .. } => sense_of_assign(b, p, vars, vals, x, w, fuel),
        StmtKindV::Print(..) => sense_of_print(b, p, vars, vals, x, w, fuel),
        StmtKindV::If { .. } => {
            parts_of_if(cx, vars, g, x);
            sense_of_if(b, p, vars, vals, x, w, fuel);
            if let Value::Is(c, w1) = sense(b, p, vars, vals, sole(x), w) {
                if (b.truth)(c) {
                    lemma_stmts_confined(b, cx, vars, vals, g, x.kind->If_then_body, 0, w1, fuel);
                } else {
                    lemma_stmts_confined(b, cx, vars, vals, g, x.kind->If_else_body, 0, w1, fuel);
                }
            }
        },
        StmtKindV::While { .. } => {
            parts_of_loop(cx, vars, g, x);
            sense_of_loop(b, cx, vars, vals, g, x, w, fuel);
            lemma_turns_confined(b, cx, vars, vals, g, x, w, fuel);
        },
        StmtKindV::For { init, .. } => {
            parts_of_loop(cx, vars, g, x);
            sense_of_loop(b, cx, vars, vals, g, x, w, fuel);
            lemma_opt_confined(b, cx, vars, vals, g, init, w, fuel);
            let (g1, inside) = opt_at(p, vars, g, init);
            if let Some(After::Next(vals1, w1)) = opt_sense(b, p, vars, vals, init, w, fuel) {
                lemma_turns_confined(b, cx, inside, vals1, g1, x, w1, fuel);
            }
        },
        StmtKindV::ForIn { .. } => lemma_each_confined(b, p, vars, vals, x, w, fuel),
        StmtKindV::Match { .. } => {
            parts_of_match(cx, vars, g, x);
            sense_of_match(b, p, vars, vals, x, w, fuel);
            let arms = x.kind->Match_arms;
            let def = match_def(p, vars, x);
            if let Value::Is(v, w1) = sense(b, p, vars, vals, sole(x), w) {
                if let Value::Is(_, w2) = value_of(b, null_row(), seq![v], w1) {
                    if let Value::Is(tag, w3) = value_of(b, length_row(Ty::Null), seq![v], w2) {
                        lemma_arms_confined(
                            b,
                            cx,
                            vars,
                            vals,
                            g,
                            def,
                            arms,
                            v,
                            (b.number)(tag),
                            w3,
                            fuel,
                        );
                    }
                }
            }
        },
        StmtKindV::Break => lemma_in_loop(cx, vars, x),
        StmtKindV::Continue => lemma_in_loop(cx, vars, x),
        _ => sense_of_small(b, p, vars, vals, x, w, fuel),
    }
}

proof fn lemma_opt_confined<V, W>(
    b: Base<V, W>,
    cx: Place,
    vars: Seq<VarV>,
    vals: Seq<V>,
    g: Gen,
    x: Option<Box<StmtV>>,
    w: W,
    fuel: nat,
)
    requires
        opt_ok(cx, vars, x),
        !cx.in_loop,
    ensures
        !leaves(opt_sense(b, cx.prog, vars, vals, x, w, fuel)),
    decreases fuel, x, 0int,
{
    parts_of_opt(cx, vars, g, x);
    sense_of_opt(b, cx.prog, vars, vals, x, w, fuel);
    if let Some(y) = x {
        lemma_stmt_confined(b, cx, vars, vals, g, *y, w, fuel);
    }
}

proof fn lemma_stmts_confined<V, W>(
    b: Base<V, W>,
    cx: Place,
    vars: Seq<VarV>,
    vals: Seq<V>,
    g: Gen,
    ss: Seq<StmtV>,
    i: int,
    w: W,
    fuel: nat,
)
    requires
        stmts_ok(cx, vars, ss, i),
        0 <= i <= ss.len(),
        !cx.in_loop,
    ensures
        !leaves(stmts_sense(b, cx.prog, vars, vals, ss, i, w, fuel)),
    decreases fuel, ss, ss.len() - i,
{
    parts_of_stmts(cx, vars, g, ss, i);
    sense_of_stmts(b, cx, vars, vals, g, ss, i, w, fuel);
    if i < ss.len() {
        let (g1, after) = stmt_at(cx.prog, vars, g, ss[i]);
        lemma_stmt_confined(b, cx, vars, vals, g, ss[i], w, fuel);
        if let Some(After::Next(vals1, w1)) = stmt_sense(b, cx.prog, vars, vals, ss[i], w, fuel) {
            lemma_stmts_confined(b, cx, after, vals1, g1, ss, i + 1, w1, fuel);
        }
    }
}

proof fn lemma_turns_confined<V, W>(
    b: Base<V, W>,
    cx: Place,
    vars: Seq<VarV>,
    vals: Seq<V>,
    g: Gen,
    x: StmtV,
    w: W,
    fuel: nat,
)
    requires
        is_loop(x),
        loop_ok(cx, vars, x),
        !cx.in_loop,
    ensures
        !leaves(turns_sense(b, cx.prog, vars, vals, x, w, fuel)),
    decreases fuel, x, 3int,
{
    let p = cx.prog;
    let n = vals.len();
    sense_of_turns(b, p, vars, vals, x, w, fuel);
    if fuel > 0 {
        if let Value::Is(c, w1) = sense(b, p, vars, vals, sole(x), w) {
            let body = cut(stmts_sense(b, p, vars, vals, loop_body(x), 0, w1, fuel), n);
            match body {
                Some(After::Next(vals2, w2)) => {
                    lemma_turned_confined(b, cx, vars, vals2, n, g, x, w2, fuel);
                },
                Some(After::Cont(vals2, w2)) => {
                    lemma_turned_confined(b, cx, vars, vals2, n, g, x, w2, fuel);
                },
                _ => {},
            }
        }
    }
}

proof fn lemma_turned_confined<V, W>(
    b: Base<V, W>,
    cx: Place,
    vars: Seq<VarV>,
    vals: Seq<V>,
    n: nat,
    g: Gen,
    x: StmtV,
    w: W,
    fuel: nat,
)
    requires
        fuel > 0,
        is_loop(x),
        loop_ok(cx, vars, x),
        !cx.in_loop,
    ensures
        !leaves(turned(b, cx.prog, vars, vals, n, x, w, fuel)),
    decreases fuel, x, 2int,
{
    let p = cx.prog;
    let less = (fuel - 1) as nat;
    reveal(turned);
    if x.kind is While {
        lemma_turns_confined(b, cx, vars, vals, g, x, w, less);
    } else {
        let step = x.kind->For_step;
        lemma_opt_confined(b, cx, vars, vals, g, step, w, fuel);
        if let Some(After::Next(vals3, w3)) = cut(opt_sense(b, p, vars, vals, step, w, fuel), n) {
            lemma_turns_confined(b, cx, vars, vals3, g, x, w3, less);
        }
    }
}

proof fn lemma_each_confined<V, W>(
    b: Base<V, W>,
    p: ProgramV,
    vars: Seq<VarV>,
    vals: Seq<V>,
    x: StmtV,
    w: W,
    fuel: nat,
)
    requires
        x.kind is ForIn,
    ensures
        !leaves(stmt_sense(b, p, vars, vals, x, w, fuel)),
{
    sense_of_each(b, p, vars, vals, x, w, fuel);
    let keys = keys_row(type_at(p, vars, sole(x)));
    let zero = (b.konst)(OpndV::Int(0));
    if let Value::Is(it, w1) = sense(b, p, vars, vals, sole(x), w) {
        if let Value::Is(_, w2) = value_of(b, null_row(), seq![it], w1) {
            if let Value::Is(arr, w3) = value_of(b, keys, seq![it], w2) {
                if let Value::Is(len, w4) = value_of(b, length_row(Ty::Null), seq![arr], w3) {
                    lemma_items_confined(b, p, vars, vals, x, len, arr, zero, w4, fuel);
                }
            }
        }
    }
}

proof fn lemma_items_confined<V, W>(
    b: Base<V, W>,
    p: ProgramV,
    vars: Seq<VarV>,
    vals: Seq<V>,
    x: StmtV,
    len: V,
    arr: V,
    i: V,
    w: W,
    fuel: nat,
)
    requires
        x.kind is ForIn,
    ensures
        !leaves(items_sense(b, p, vars, vals, x, len, arr, i, w, fuel)),
    decreases fuel,
{
    sense_of_items(b, p, vars, vals, 0, x, len, arr, i, w, fuel);
    if fuel > 0 {
        let t = item_ty(p, vars, sole(x));
        let inside = with_var(vars, x.kind->ForIn_var, 0, t);
        if let Value::Is(c, w1) = value_of(b, below_row(), seq![i, len], w) {
            if let Value::Is(y, w2) = value_of(b, item_row(basic_ty(t)), seq![arr, i], w1) {
                let body = cut(
                    stmts_sense(b, p, inside, vals.push(y), loop_body(x), 0, w2, fuel),
                    vals.len(),
                );
                reveal(each_next);
                match body {
                    Some(After::Next(vals3, w3)) => {
                        if let Value::Is(j, w4) = value_of(b, next_row(), seq![i], w3) {
                            let less = (fuel - 1) as nat;
                            lemma_items_confined(b, p, vars, vals3, x, len, arr, j, w4, less);
                        }
                    },
                    Some(After::Cont(vals3, w3)) => {
                        if let Value::Is(j, w4) = value_of(b, next_row(), seq![i], w3) {
                            let less = (fuel - 1) as nat;
                            lemma_items_confined(b, p, vars, vals3, x, len, arr, j, w4, less);
                        }
                    },
                    _ => {},
                }
            }
        }
    }
}

proof fn lemma_arms_confined<V, W>(
    b: Base<V, W>,
    cx: Place,
    vars: Seq<VarV>,
    vals: Seq<V>,
    g: Gen,
    def: EnumDefV,
    arms: Seq<MatchArmV>,
    v: V,
    tag: int,
    w: W,
    fuel: nat,
)
    requires
        arms_ok(cx, vars, def, arms),
        !cx.in_loop,
    ensures
        !leaves(arms_sense(b, cx.prog, vars, vals, def, arms, v, tag, w, fuel)),
    decreases fuel, arms, 1int,
{
    lemma_arms(cx.prog, vars, g, OpndV::Null, def, arms, arms.len());
    let which = variant_arms(arms, arms.len());
    let j = tag_index(arm_tags(def, arms, which), tag, 0);
    if 0 <= j < which.len() {
        assert(0 <= which[j] < arms.len());
        lemma_arm_confined(b, cx, vars, vals, g, def, arms, which[j], v, w, fuel);
    } else if let Some(k) = wildcard_arm(arms, arms.len()) {
        lemma_arm_confined(b, cx, vars, vals, g, def, arms, k, v, w, fuel);
    }
}

proof fn lemma_arm_confined<V, W>(
    b: Base<V, W>,
    cx: Place,
    vars: Seq<VarV>,
    vals: Seq<V>,
    g: Gen,
    def: EnumDefV,
    arms: Seq<MatchArmV>,
    k: int,
    v: V,
    w: W,
    fuel: nat,
)
    requires
        arms_ok(cx, vars, def, arms),
        0 <= k < arms.len(),
        !cx.in_loop,
    ensures
        !leaves(arm_sense(b, cx.prog, vars, vals, def, arms[k], v, w, fuel)),
    decreases fuel, arms, 0int,
{
    let p = cx.prog;
    let a = arms[k];
    arm_is_ok(cx, vars, g, OpndV::Null, def, arms, k);
    sense_of_arm(b, p, vars, vals, g, OpndV::Null, def, a, v, w, fuel);
    let (b1, inside) = arm_start(p, vars, g, OpndV::Null, def, a);
    if a.wildcard {
        lemma_stmts_confined(b, cx, vars, vals, g, a.body, 0, w, fuel);
    } else if let Values::Are(vals1, w1) = payload_sense(
        b,
        p,
        vals,
        v,
        a.bindings,
        arm_fields(def, a),
        0,
        w,
    ) {
        lemma_stmts_confined(b, cx, inside, vals1, g, a.body, 0, w1, fuel);
    }
}

/// No accepted function leaves a loop that it is not in: its statements come to their end,
/// return a value, or end the program.
pub proof fn functions_leave_no_loop<V, W>(
    b: Base<V, W>,
    p: ProgramV,
    f: FunctionV,
    args: Seq<V>,
    w: W,
    fuel: nat,
)
    requires
        func_ok(p, f) is Ok,
    ensures
        !leaves(stmts(b, p, param_names(p, f.params), args, f.body, 0, w, fuel)),
{
    let g = Gen { code: Seq::empty(), regs: Seq::empty(), slots: Seq::empty() };
    let vars = param_vars(p, f.params);
    lemma_params(p, f);
    lemma_stmts_confined(b, func_place(p, f), vars, args, g, f.body, 0, w, fuel);
    reveal(stmts_sense);
}

} // verus!
