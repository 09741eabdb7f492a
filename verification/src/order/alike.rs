//! Programs in which every name means the same.
use vstd::prelude::*;
#[allow(unused_imports)]
use crate::ast::{
    EnumDefV, EnumVariantV, ExprKindV, ExprV, FieldInitV, FunctionV, MatchArmV, ParamV, ProgramV,
    StmtKindV, StmtV, StructDefV,
};
#[allow(unused_imports)]
use crate::builtins::builtin_named;
#[allow(unused_imports)]
use crate::span::Span;
#[allow(unused_imports)]
use crate::types::Ty;
#[allow(unused_imports)]
use crate::typing::{
    all_fit, args_fit, arm_env, assign_ok, bound_ok, call_type, check_arms, check_opt, check_stmt,
    check_stmts, enum_named, field_type, fixed_sig, func_named, func_ok, inits_fit, item_type,
    let_type, looped, pairs_fit, param_env, param_index, param_types, params_valid, resolve,
    resolve_all, scrut_enum, struct_named, type_of, types_valid, unknown_name, valid_type,
    variant_index, variant_named, variants_valid, Place,
};

verus! {

/// Every name means the same in both programs.
#[verifier::opaque]
pub open spec fn alike(p: ProgramV, q: ProgramV) -> bool {
    &&& forall|n: Seq<char>| #[trigger] struct_named(p, n) == struct_named(q, n)
    &&& forall|n: Seq<char>| #[trigger] enum_named(p, n) == enum_named(q, n)
    &&& forall|n: Seq<char>| #[trigger] variant_named(p, n) == variant_named(q, n)
    &&& forall|n: Seq<char>| #[trigger] func_named(p, n) == func_named(q, n)
}

/// What a name means in both programs.
proof fn lemma_named(p: ProgramV, q: ProgramV, n: Seq<char>)
    requires
        alike(p, q),
    ensures
        struct_named(p, n) == struct_named(q, n),
        enum_named(p, n) == enum_named(q, n),
        variant_named(p, n) == variant_named(q, n),
        func_named(p, n) == func_named(q, n),
{
    reveal(alike);
}

pub proof fn lemma_resolve(p: ProgramV, q: ProgramV, t: Ty)
    requires
        alike(p, q),
    ensures
        resolve(p, t) == resolve(q, t),
        unknown_name(p, t) == unknown_name(q, t),
    decreases t,
{
    match t {
        Ty::Struct(n) => lemma_named(p, q, n),
        Ty::Enum(n) => lemma_named(p, q, n),
        Ty::Array(e) => lemma_resolve(p, q, *e),
        Ty::MapOf(v) => lemma_resolve(p, q, *v),
        _ => {},
    }
}

pub proof fn lemma_valid(p: ProgramV, q: ProgramV, t: Ty, span: Span)
    requires
        alike(p, q),
    ensures
        valid_type(p, t, span) == valid_type(q, t, span),
{
    lemma_resolve(p, q, t);
}

pub proof fn lemma_params_valid(p: ProgramV, q: ProgramV, ps: Seq<ParamV>, i: int)
    requires
        alike(p, q),
    ensures
        params_valid(p, ps, i) == params_valid(q, ps, i),
    decreases ps.len() - i,
{
    if 0 <= i < ps.len() {
        lemma_valid(p, q, ps[i].ty, ps[i].span);
        lemma_params_valid(p, q, ps, i + 1);
    }
}

proof fn lemma_types_valid(p: ProgramV, q: ProgramV, ts: Seq<Ty>, span: Span, i: int)
    requires
        alike(p, q),
    ensures
        types_valid(p, ts, span, i) == types_valid(q, ts, span, i),
    decreases ts.len() - i,
{
    if 0 <= i < ts.len() {
        lemma_valid(p, q, ts[i], span);
        lemma_types_valid(p, q, ts, span, i + 1);
    }
}

pub proof fn lemma_variants_valid(p: ProgramV, q: ProgramV, vs: Seq<EnumVariantV>, j: int)
    requires
        alike(p, q),
    ensures
        variants_valid(p, vs, j) == variants_valid(q, vs, j),
    decreases vs.len() - j,
{
    if 0 <= j < vs.len() {
        lemma_types_valid(p, q, vs[j].fields, vs[j].span, 0);
        lemma_variants_valid(p, q, vs, j + 1);
    }
}

pub proof fn lemma_param_types(p: ProgramV, q: ProgramV, ps: Seq<ParamV>)
    requires
        alike(p, q),
    ensures
        param_types(p, ps) == param_types(q, ps),
        param_env(p, ps) == param_env(q, ps),
{
    assert forall|i: int| 0 <= i < ps.len() implies #[trigger] resolve(p, ps[i].ty) == resolve(
        q,
        ps[i].ty,
    ) by {
        lemma_resolve(p, q, ps[i].ty);
    }
    assert(param_types(p, ps) =~= param_types(q, ps));
    assert(param_env(p, ps) =~= param_env(q, ps));
}

proof fn lemma_resolve_all(p: ProgramV, q: ProgramV, ts: Seq<Ty>)
    requires
        alike(p, q),
    ensures
        resolve_all(p, ts) == resolve_all(q, ts),
{
    assert forall|i: int| 0 <= i < ts.len() implies #[trigger] resolve(p, ts[i]) == resolve(
        q,
        ts[i],
    ) by {
        lemma_resolve(p, q, ts[i]);
    }
    assert(resolve_all(p, ts) =~= resolve_all(q, ts));
}

// Expressions.

/// An expression has the same type in both programs, or the same error.
pub proof fn lemma_type(p: ProgramV, q: ProgramV, env: Seq<(Seq<char>, Ty)>, e: ExprV)
    requires
        alike(p, q),
    ensures
        type_of(p, env, e) == type_of(q, env, e),
    decreases e, 0int,
{
    match e.kind {
        ExprKindV::Var(name) => lemma_named(p, q, name),
        ExprKindV::Unary { op, expr } => lemma_type(p, q, env, *expr),
        ExprKindV::Binary { op, lhs, rhs } => {
            lemma_type(p, q, env, *lhs);
            lemma_type(p, q, env, *rhs);
        },
        ExprKindV::Call { name, args } => lemma_call(p, q, env, name, args, e.span),
        ExprKindV::Array(elems) => {
            if elems.len() > 0 {
                lemma_type(p, q, env, elems[0]);
                if let Ok(t) = type_of(p, env, elems[0]) {
                    lemma_all(p, q, env, t, elems, 1);
                }
            }
        },
        ExprKindV::Index { array, index } => {
            lemma_type(p, q, env, *array);
            lemma_type(p, q, env, *index);
        },
        ExprKindV::Slice { seq, lo, hi } => {
            lemma_type(p, q, env, *seq);
            lemma_bound(p, q, env, lo);
            lemma_bound(p, q, env, hi);
        },
        ExprKindV::StructLit { name, fields } => {
            lemma_named(p, q, name);
            if let Some(def) = struct_named(p, name) {
                lemma_inits(p, q, env, def, fields, 0);
            }
        },
        ExprKindV::MapLit(pairs) => {
            if pairs.len() > 0 {
                lemma_type(p, q, env, pairs[0].0);
                lemma_type(p, q, env, pairs[0].1);
                if let Ok(t) = type_of(p, env, pairs[0].1) {
                    lemma_pairs(p, q, env, t, pairs, 1);
                }
            }
        },
        ExprKindV::Field { obj, field } => {
            lemma_type(p, q, env, *obj);
            if let Ok(t) = type_of(p, env, *obj) {
                lemma_field(p, q, t, field, e.span, obj.span);
            }
        },
        _ => {},
    }
}

proof fn lemma_field(p: ProgramV, q: ProgramV, t: Ty, field: Seq<char>, span: Span, obj: Span)
    requires
        alike(p, q),
    ensures
        field_type(p, t, field, span, obj) == field_type(q, t, field, span, obj),
{
    if let Ty::Struct(name) = t {
        lemma_named(p, q, name);
        if let Some(def) = struct_named(p, name) {
            lemma_resolve(p, q, def.fields[param_index(def.fields, field, 0)].ty);
        }
    }
}

proof fn lemma_bound(
    p: ProgramV,
    q: ProgramV,
    env: Seq<(Seq<char>, Ty)>,
    b: Option<Box<ExprV>>,
)
    requires
        alike(p, q),
    ensures
        bound_ok(p, env, b) == bound_ok(q, env, b),
    decreases b, 0int,
{
    if let Some(e) = b {
        lemma_type(p, q, env, *e);
    }
}

proof fn lemma_all(
    p: ProgramV,
    q: ProgramV,
    env: Seq<(Seq<char>, Ty)>,
    t: Ty,
    es: Seq<ExprV>,
    i: int,
)
    requires
        alike(p, q),
    ensures
        all_fit(p, env, t, es, i) == all_fit(q, env, t, es, i),
    decreases es, es.len() - i,
{
    if 0 <= i < es.len() {
        lemma_type(p, q, env, es[i]);
        lemma_all(p, q, env, t, es, i + 1);
    }
}

proof fn lemma_args(
    p: ProgramV,
    q: ProgramV,
    env: Seq<(Seq<char>, Ty)>,
    ts: Seq<Ty>,
    es: Seq<ExprV>,
    i: int,
)
    requires
        alike(p, q),
    ensures
        args_fit(p, env, ts, es, i) == args_fit(q, env, ts, es, i),
    decreases es, es.len() - i,
{
    if 0 <= i < es.len() {
        lemma_type(p, q, env, es[i]);
        lemma_args(p, q, env, ts, es, i + 1);
    }
}

proof fn lemma_pairs(
    p: ProgramV,
    q: ProgramV,
    env: Seq<(Seq<char>, Ty)>,
    t: Ty,
    es: Seq<(ExprV, ExprV)>,
    i: int,
)
    requires
        alike(p, q),
    ensures
        pairs_fit(p, env, t, es, i) == pairs_fit(q, env, t, es, i),
    decreases es, es.len() - i,
{
    if 0 <= i < es.len() {
        lemma_type(p, q, env, es[i].0);
        lemma_type(p, q, env, es[i].1);
        lemma_pairs(p, q, env, t, es, i + 1);
    }
}

proof fn lemma_inits(
    p: ProgramV,
    q: ProgramV,
    env: Seq<(Seq<char>, Ty)>,
    def: StructDefV,
    inits: Seq<FieldInitV>,
    i: int,
)
    requires
        alike(p, q),
    ensures
        inits_fit(p, env, def, inits, i) == inits_fit(q, env, def, inits, i),
    decreases inits, inits.len() - i,
{
    if 0 <= i < inits.len() {
        lemma_type(p, q, env, inits[i].value);
        lemma_resolve(p, q, def.fields[param_index(def.fields, inits[i].name, 0)].ty);
        lemma_inits(p, q, env, def, inits, i + 1);
    }
}

proof fn lemma_call(
    p: ProgramV,
    q: ProgramV,
    env: Seq<(Seq<char>, Ty)>,
    name: Seq<char>,
    args: Seq<ExprV>,
    span: Span,
)
    requires
        alike(p, q),
    ensures
        call_type(p, env, name, args, span) == call_type(q, env, name, args, span),
    decreases args, args.len() + 1,
{
    lemma_named(p, q, name);
    match builtin_named(name) {
        Some(b) => match fixed_sig(b) {
            Some((params, _)) => lemma_args(p, q, env, params, args, 0),
            None => {
                if args.len() > 0 {
                    lemma_type(p, q, env, args[0]);
                }
                if args.len() > 1 {
                    lemma_type(p, q, env, args[1]);
                }
            },
        },
        None => match variant_named(p, name) {
            Some((_, payload)) => {
                lemma_resolve_all(p, q, payload);
                lemma_args(p, q, env, resolve_all(p, payload), args, 0);
            },
            None => {
                if let Some(f) = func_named(p, name) {
                    lemma_param_types(p, q, f.params);
                    lemma_resolve(p, q, f.ret);
                    lemma_args(p, q, env, param_types(p, f.params), args, 0);
                }
            },
        },
    }
}

// Statements.

/// The same place in another program.
pub open spec fn moved(cx: Place, q: ProgramV) -> Place {
    Place { prog: q, ret: cx.ret, in_loop: cx.in_loop }
}

proof fn lemma_let(
    p: ProgramV,
    q: ProgramV,
    env: Seq<(Seq<char>, Ty)>,
    ty: Option<Ty>,
    value: ExprV,
    span: Span,
)
    requires
        alike(p, q),
    ensures
        let_type(p, env, ty, value, span) == let_type(q, env, ty, value, span),
{
    lemma_type(p, q, env, value);
    if let Some(a) = ty {
        lemma_resolve(p, q, a);
        lemma_valid(p, q, a, span);
    }
}

proof fn lemma_assign(
    p: ProgramV,
    q: ProgramV,
    env: Seq<(Seq<char>, Ty)>,
    target: ExprV,
    value: ExprV,
    span: Span,
)
    requires
        alike(p, q),
    ensures
        assign_ok(p, env, target, value, span) == assign_ok(q, env, target, value, span),
{
    lemma_type(p, q, env, target);
    lemma_type(p, q, env, value);
    match target.kind {
        ExprKindV::Index { array, .. } => lemma_type(p, q, env, *array),
        ExprKindV::Var(name) => lemma_named(p, q, name),
        _ => {},
    }
}

proof fn lemma_scrut(p: ProgramV, q: ProgramV, env: Seq<(Seq<char>, Ty)>, e: ExprV)
    requires
        alike(p, q),
    ensures
        scrut_enum(p, env, e) == scrut_enum(q, env, e),
{
    lemma_type(p, q, env, e);
    if let Ok(Ty::Enum(n)) = type_of(p, env, e) {
        lemma_named(p, q, n);
    }
}

/// A statement is accepted in both programs, or has the same error in both.
proof fn lemma_stmt(cx: Place, q: ProgramV, env: Seq<(Seq<char>, Ty)>, s: StmtV)
    requires
        alike(cx.prog, q),
    ensures
        check_stmt(cx, env, s) == check_stmt(moved(cx, q), env, s),
    decreases s, 0int,
{
    let p = cx.prog;
    match s.kind {
        StmtKindV::Let { name, ty, value } => lemma_let(p, q, env, ty, value, s.span),
        StmtKindV::Assign { target, value } => lemma_assign(p, q, env, target, value, s.span),
        StmtKindV::Print(e) => lemma_type(p, q, env, e),
        StmtKindV::Return(e) => lemma_type(p, q, env, e),
        StmtKindV::ExprStmt(e) => lemma_type(p, q, env, e),
        StmtKindV::If { cond, then_body, else_body } => {
            lemma_type(p, q, env, cond);
            lemma_stmts(cx, q, env, then_body, 0);
            lemma_stmts(cx, q, env, else_body, 0);
        },
        StmtKindV::While { cond, body } => {
            lemma_type(p, q, env, cond);
            lemma_stmts(looped(cx), q, env, body, 0);
        },
        StmtKindV::For { init, cond, step, body } => {
            lemma_opt(cx, q, env, init);
            if let Ok(inner) = check_opt(cx, env, init) {
                lemma_type(p, q, inner, cond);
                lemma_stmts(looped(cx), q, inner, body, 0);
                lemma_opt(cx, q, inner, step);
            }
        },
        StmtKindV::ForIn { var, iter, body } => {
            lemma_type(p, q, env, iter);
            if let Ok(t) = item_type(p, env, iter) {
                lemma_stmts(looped(cx), q, env.push((var, t)), body, 0);
            }
        },
        StmtKindV::Match { scrut, arms } => {
            lemma_scrut(p, q, env, scrut);
            if let Ok(def) = scrut_enum(p, env, scrut) {
                lemma_arms(cx, q, env, def, arms, 0);
            }
        },
        _ => {},
    }
}

proof fn lemma_opt(
    cx: Place,
    q: ProgramV,
    env: Seq<(Seq<char>, Ty)>,
    s: Option<Box<StmtV>>,
)
    requires
        alike(cx.prog, q),
    ensures
        check_opt(cx, env, s) == check_opt(moved(cx, q), env, s),
    decreases s, 0int,
{
    if let Some(x) = s {
        lemma_stmt(cx, q, env, *x);
    }
}

/// Statements are accepted in both programs, or have the same error in both.
pub proof fn lemma_stmts(
    cx: Place,
    q: ProgramV,
    env: Seq<(Seq<char>, Ty)>,
    ss: Seq<StmtV>,
    i: int,
)
    requires
        alike(cx.prog, q),
    ensures
        check_stmts(cx, env, ss, i) == check_stmts(moved(cx, q), env, ss, i),
    decreases ss, ss.len() - i,
{
    if 0 <= i < ss.len() {
        lemma_stmt(cx, q, env, ss[i]);
        if let Ok(next) = check_stmt(cx, env, ss[i]) {
            lemma_stmts(cx, q, next, ss, i + 1);
        }
    }
}

proof fn lemma_arms(
    cx: Place,
    q: ProgramV,
    env: Seq<(Seq<char>, Ty)>,
    def: EnumDefV,
    arms: Seq<MatchArmV>,
    i: int,
)
    requires
        alike(cx.prog, q),
    ensures
        check_arms(cx, env, def, arms, i) == check_arms(moved(cx, q), env, def, arms, i),
    decreases arms, arms.len() - i,
{
    if 0 <= i < arms.len() {
        lemma_arm_env(cx.prog, q, env, def, arms[i]);
        lemma_stmts(cx, q, arm_env(cx.prog, env, def, arms[i]), arms[i].body, 0);
        lemma_arms(cx, q, env, def, arms, i + 1);
    }
}

proof fn lemma_arm_env(
    p: ProgramV,
    q: ProgramV,
    env: Seq<(Seq<char>, Ty)>,
    def: EnumDefV,
    arm: MatchArmV,
)
    requires
        alike(p, q),
    ensures
        arm_env(p, env, def, arm) == arm_env(q, env, def, arm),
{
    let fields = def.variants[variant_index(def.variants, arm.variant, 0)].fields;
    assert forall|j: int| 0 <= j < arm.bindings.len() implies #[trigger] resolve(p, fields[j])
        == resolve(q, fields[j]) by {
        lemma_resolve(p, q, fields[j]);
    }
    assert(arm_env(p, env, def, arm) =~= arm_env(q, env, def, arm));
}

/// The body of a function is accepted in both programs, or has the same error in both.
pub proof fn lemma_func(p: ProgramV, q: ProgramV, f: FunctionV)
    requires
        alike(p, q),
    ensures
        func_ok(p, f) == func_ok(q, f),
{
    lemma_param_types(p, q, f.params);
    lemma_resolve(p, q, f.ret);
    let cx = Place { prog: p, ret: resolve(p, f.ret), in_loop: false };
    lemma_stmts(cx, q, param_env(p, f.params), f.body, 0);
}

} // verus!
