//! The places of the errors of the type checker.
use vstd::prelude::*;
#[allow(unused_imports)]
use crate::ast::{
    BinOp, EnumDefV, EnumVariantV, ExprKindV, ExprV, FieldInitV, MatchArmV, ParamV, ProgramV,
    StmtKindV, StmtV, StructDefV, UnOp,
};
#[allow(unused_imports)]
use crate::builtins::{builtin_named, Builtin};
#[allow(unused_imports)]
use crate::diagnostics::DiagV;
#[allow(unused_imports)]
use crate::places::tree::{
    arm_in, arms_in, diag_in, enum_in, expr_in, exprs_in, func_in, inits_in, lemma_expr_in,
    lemma_kind_in, opt_in, opt_stmt_in, pairs_in, params_in, program_in, stmt_in, stmts_in,
    struct_in, variants_in,
};
#[allow(unused_imports)]
use crate::span::Span;
#[allow(unused_imports)]
use crate::types::Ty;
#[allow(unused_imports)]
use crate::typing::{
    all_fit, args_fit, arm_env, binary_type, bodies_ok, both, both_numeric, bound_ok, call_type,
    check_arms, check_opt, check_stmt, check_stmts, checked, enums_ok, equality_type, expect,
    field_type, fields_distinct, fields_valid, fixed_sig, func_named, funcs_ok, generic_arity,
    generic_rule, index_type, inits_fit, item_type, looped, order_type, pairs_fit, param_env,
    param_index, param_types, params_distinct, params_valid, pattern_ok, payloads_valid, resolve,
    resolve_all, scrut_enum, struct_named, structs_ok, target_type, type_of, types_valid,
    unary_type, variant_named, variants_ok, variants_valid, wanted, Place,
};

verus! {

/// The error, if the answer is one, has no place or such a one.
pub open spec fn err_in<T>(ok: spec_fn(Span) -> bool, r: Result<T, DiagV>) -> bool {
    r matches Err(d) ==> diag_in(ok, d)
}

proof fn lemma_expect(ok: spec_fn(Span) -> bool, want: Ty, got: Ty, span: Span)
    requires
        ok(span),
    ensures
        err_in(ok, expect(want, got, span)),
{
}

proof fn lemma_wanted(ok: spec_fn(Span) -> bool, r: Result<Ty, DiagV>, want: Ty, span: Span)
    requires
        ok(span),
        err_in(ok, r),
    ensures
        err_in(ok, wanted(r, want, span)),
{
    if let Ok(t) = r {
        lemma_expect(ok, want, t, span);
    }
}

proof fn lemma_binary_type(
    ok: spec_fn(Span) -> bool,
    op: BinOp,
    lt: Ty,
    rt: Ty,
    ls: Span,
    rs: Span,
    span: Span,
)
    requires
        ok(ls),
        ok(rs),
        ok(span),
    ensures
        err_in(ok, binary_type(op, lt, rt, ls, rs, span)),
{
    assert(err_in(ok, both_numeric(lt, rt, ls, rs)));
    assert(err_in(ok, both(Ty::Int, lt, rt, ls, rs)));
    assert(err_in(ok, both(Ty::Bool, lt, rt, ls, rs)));
    assert(err_in(ok, order_type(lt, rt, ls, rs)));
    assert(err_in(ok, equality_type(lt, rt, ls, rs, span)));
}

proof fn lemma_unary_type(ok: spec_fn(Span) -> bool, op: UnOp, t: Ty, span: Span)
    requires
        ok(span),
    ensures
        err_in(ok, unary_type(op, t, span)),
{
}

proof fn lemma_generic_rule(
    ok: spec_fn(Span) -> bool,
    b: Builtin,
    name: Seq<char>,
    t: Ty,
    span: Span,
)
    requires
        ok(span),
    ensures
        err_in(ok, generic_rule(b, name, t, span)),
{
}

proof fn lemma_field_type(
    ok: spec_fn(Span) -> bool,
    p: ProgramV,
    t: Ty,
    field: Seq<char>,
    span: Span,
    obj_span: Span,
)
    requires
        ok(span),
        ok(obj_span),
    ensures
        err_in(ok, field_type(p, t, field, span, obj_span)),
{
}

proof fn lemma_index_type(
    ok: spec_fn(Span) -> bool,
    at: Ty,
    it: Ty,
    array_span: Span,
    index_span: Span,
)
    requires
        ok(array_span),
        ok(index_span),
    ensures
        err_in(ok, index_type(at, it, array_span, index_span)),
{
}

/// An expression points at what is wrong with its type.
proof fn lemma_type(
    ok: spec_fn(Span) -> bool,
    p: ProgramV,
    env: Seq<(Seq<char>, Ty)>,
    e: ExprV,
)
    requires
        expr_in(ok, e),
    ensures
        ok(e.span),
        err_in(ok, type_of(p, env, e)),
    decreases e, 0int,
{
    lemma_expr_in(ok, e);
    match e.kind {
        ExprKindV::Unary { op, expr } => {
            lemma_type(ok, p, env, *expr);
            if let Ok(t) = type_of(p, env, *expr) {
                lemma_unary_type(ok, op, t, expr.span);
            }
        },
        ExprKindV::Binary { op, lhs, rhs } => {
            lemma_type(ok, p, env, *lhs);
            lemma_type(ok, p, env, *rhs);
            if let Ok(lt) = type_of(p, env, *lhs) {
                if let Ok(rt) = type_of(p, env, *rhs) {
                    lemma_binary_type(ok, op, lt, rt, lhs.span, rhs.span, e.span);
                }
            }
        },
        ExprKindV::Call { name, args } => lemma_call(ok, p, env, name, args, e.span),
        ExprKindV::Array(elems) => if elems.len() > 0 {
            lemma_type(ok, p, env, elems[0]);
            if let Ok(t) = type_of(p, env, elems[0]) {
                lemma_all(ok, p, env, t, elems, 1);
            }
        },
        ExprKindV::Index { array, index } => {
            lemma_type(ok, p, env, *array);
            lemma_type(ok, p, env, *index);
            if let Ok(at) = type_of(p, env, *array) {
                if let Ok(it) = type_of(p, env, *index) {
                    lemma_index_type(ok, at, it, array.span, index.span);
                }
            }
        },
        ExprKindV::Slice { seq, lo, hi } => {
            lemma_type(ok, p, env, *seq);
            lemma_bound(ok, p, env, lo);
            lemma_bound(ok, p, env, hi);
        },
        ExprKindV::StructLit { name, fields } => if let Some(def) = struct_named(p, name) {
            lemma_inits(ok, p, env, def, fields, 0);
        },
        ExprKindV::MapLit(pairs) => if pairs.len() > 0 {
            lemma_type(ok, p, env, pairs[0].0);
            lemma_type(ok, p, env, pairs[0].1);
            lemma_wanted(ok, type_of(p, env, pairs[0].0), Ty::Str, pairs[0].0.span);
            if let Ok(t) = type_of(p, env, pairs[0].1) {
                lemma_pairs(ok, p, env, t, pairs, 1);
            }
        },
        ExprKindV::Field { obj, field } => {
            lemma_type(ok, p, env, *obj);
            if let Ok(t) = type_of(p, env, *obj) {
                lemma_field_type(ok, p, t, field, e.span, obj.span);
            }
        },
        _ => {},
    }
}

proof fn lemma_bound(
    ok: spec_fn(Span) -> bool,
    p: ProgramV,
    env: Seq<(Seq<char>, Ty)>,
    b: Option<Box<ExprV>>,
)
    requires
        opt_in(ok, b),
    ensures
        err_in(ok, bound_ok(p, env, b)),
    decreases b, 0int,
{
    if let Some(e) = b {
        lemma_type(ok, p, env, *e);
        lemma_wanted(ok, type_of(p, env, *e), Ty::Int, e.span);
    }
}

proof fn lemma_all(
    ok: spec_fn(Span) -> bool,
    p: ProgramV,
    env: Seq<(Seq<char>, Ty)>,
    t: Ty,
    es: Seq<ExprV>,
    i: int,
)
    requires
        exprs_in(ok, es),
    ensures
        err_in(ok, all_fit(p, env, t, es, i)),
    decreases es, es.len() - i,
{
    if 0 <= i < es.len() {
        lemma_type(ok, p, env, es[i]);
        lemma_wanted(ok, type_of(p, env, es[i]), t, es[i].span);
        lemma_all(ok, p, env, t, es, i + 1);
    }
}

proof fn lemma_args(
    ok: spec_fn(Span) -> bool,
    p: ProgramV,
    env: Seq<(Seq<char>, Ty)>,
    ts: Seq<Ty>,
    es: Seq<ExprV>,
    i: int,
)
    requires
        exprs_in(ok, es),
    ensures
        err_in(ok, args_fit(p, env, ts, es, i)),
    decreases es, es.len() - i,
{
    if 0 <= i < es.len() {
        lemma_type(ok, p, env, es[i]);
        lemma_wanted(ok, type_of(p, env, es[i]), ts[i], es[i].span);
        lemma_args(ok, p, env, ts, es, i + 1);
    }
}

proof fn lemma_pairs(
    ok: spec_fn(Span) -> bool,
    p: ProgramV,
    env: Seq<(Seq<char>, Ty)>,
    t: Ty,
    es: Seq<(ExprV, ExprV)>,
    i: int,
)
    requires
        pairs_in(ok, es),
    ensures
        err_in(ok, pairs_fit(p, env, t, es, i)),
    decreases es, es.len() - i,
{
    if 0 <= i < es.len() {
        lemma_type(ok, p, env, es[i].0);
        lemma_type(ok, p, env, es[i].1);
        lemma_wanted(ok, type_of(p, env, es[i].0), Ty::Str, es[i].0.span);
        lemma_wanted(ok, type_of(p, env, es[i].1), t, es[i].1.span);
        lemma_pairs(ok, p, env, t, es, i + 1);
    }
}

proof fn lemma_inits(
    ok: spec_fn(Span) -> bool,
    p: ProgramV,
    env: Seq<(Seq<char>, Ty)>,
    def: StructDefV,
    inits: Seq<FieldInitV>,
    i: int,
)
    requires
        inits_in(ok, inits),
    ensures
        err_in(ok, inits_fit(p, env, def, inits, i)),
    decreases inits, inits.len() - i,
{
    if 0 <= i < inits.len() {
        let f = inits[i];
        let k = param_index(def.fields, f.name, 0);
        lemma_type(ok, p, env, f.value);
        lemma_wanted(
            ok,
            type_of(p, env, f.value),
            resolve(p, def.fields[k].ty),
            f.value.span,
        );
        lemma_inits(ok, p, env, def, inits, i + 1);
    }
}

proof fn lemma_call(
    ok: spec_fn(Span) -> bool,
    p: ProgramV,
    env: Seq<(Seq<char>, Ty)>,
    name: Seq<char>,
    args: Seq<ExprV>,
    span: Span,
)
    requires
        exprs_in(ok, args),
        ok(span),
    ensures
        err_in(ok, call_type(p, env, name, args, span)),
    decreases args, args.len() + 1,
{
    match builtin_named(name) {
        Some(b) => match fixed_sig(b) {
            Some((params, _)) => lemma_args(ok, p, env, params, args, 0),
            None => if generic_arity(b) == args.len() {
                lemma_type(ok, p, env, args[0]);
                if let Ok(t) = type_of(p, env, args[0]) {
                    lemma_generic_rule(ok, b, name, t, args[0].span);
                    if let Ok(s) = generic_rule(b, name, t, args[0].span) {
                        if args.len() > 1 {
                            lemma_type(ok, p, env, args[1]);
                            lemma_wanted(
                                ok,
                                type_of(p, env, args[1]),
                                s.second,
                                args[1].span,
                            );
                        }
                    }
                }
            },
        },
        None => match variant_named(p, name) {
            Some((_, payload)) => lemma_args(ok, p, env, resolve_all(p, payload), args, 0),
            None => if let Some(f) = func_named(p, name) {
                lemma_args(ok, p, env, param_types(p, f.params), args, 0);
            },
        },
    }
}

proof fn lemma_target(
    ok: spec_fn(Span) -> bool,
    p: ProgramV,
    env: Seq<(Seq<char>, Ty)>,
    target: ExprV,
)
    requires
        expr_in(ok, target),
    ensures
        err_in(ok, target_type(p, env, target)),
{
    lemma_expr_in(ok, target);
    lemma_type(ok, p, env, target);
    if let ExprKindV::Index { array, .. } = target.kind {
        lemma_type(ok, p, env, *array);
    }
}

proof fn lemma_pattern(ok: spec_fn(Span) -> bool, def: EnumDefV, arms: Seq<MatchArmV>, i: int)
    requires
        ok(arms[i].span),
    ensures
        err_in(ok, pattern_ok(def, arms, i)),
{
}

/// A statement points at what is wrong with it.
proof fn lemma_stmt(ok: spec_fn(Span) -> bool, cx: Place, env: Seq<(Seq<char>, Ty)>, s: StmtV)
    requires
        stmt_in(ok, s),
    ensures
        err_in(ok, check_stmt(cx, env, s)),
    decreases s, 0int,
{
    let p = cx.prog;
    lemma_kind_in(ok, s.kind);
    match s.kind {
        StmtKindV::Let { name, ty, value } => lemma_type(ok, p, env, value),
        StmtKindV::Assign { target, value } => {
            lemma_target(ok, p, env, target);
            lemma_type(ok, p, env, value);
        },
        StmtKindV::Print(e) => lemma_type(ok, p, env, e),
        StmtKindV::Return(e) => lemma_type(ok, p, env, e),
        StmtKindV::ExprStmt(e) => lemma_type(ok, p, env, e),
        StmtKindV::If { cond, then_body, else_body } => {
            lemma_type(ok, p, env, cond);
            lemma_stmts(ok, cx, env, then_body, 0);
            lemma_stmts(ok, cx, env, else_body, 0);
        },
        StmtKindV::While { cond, body } => {
            lemma_type(ok, p, env, cond);
            lemma_stmts(ok, looped(cx), env, body, 0);
        },
        StmtKindV::For { init, cond, step, body } => {
            lemma_opt(ok, cx, env, init);
            if let Ok(inner) = check_opt(cx, env, init) {
                lemma_type(ok, p, inner, cond);
                lemma_stmts(ok, looped(cx), inner, body, 0);
                lemma_opt(ok, cx, inner, step);
            }
        },
        StmtKindV::ForIn { var, iter, body } => {
            lemma_type(ok, p, env, iter);
            if let Ok(t) = item_type(p, env, iter) {
                lemma_stmts(ok, looped(cx), env.push((var, t)), body, 0);
            }
        },
        StmtKindV::Match { scrut, arms } => {
            lemma_type(ok, p, env, scrut);
            if let Ok(def) = scrut_enum(p, env, scrut) {
                lemma_arms(ok, cx, env, def, arms, 0);
            }
        },
        _ => {},
    }
}

proof fn lemma_opt(
    ok: spec_fn(Span) -> bool,
    cx: Place,
    env: Seq<(Seq<char>, Ty)>,
    s: Option<Box<StmtV>>,
)
    requires
        opt_stmt_in(ok, s),
    ensures
        err_in(ok, check_opt(cx, env, s)),
    decreases s, 0int,
{
    if let Some(x) = s {
        lemma_stmt(ok, cx, env, *x);
    }
}

proof fn lemma_stmts(
    ok: spec_fn(Span) -> bool,
    cx: Place,
    env: Seq<(Seq<char>, Ty)>,
    ss: Seq<StmtV>,
    i: int,
)
    requires
        stmts_in(ok, ss),
    ensures
        err_in(ok, check_stmts(cx, env, ss, i)),
    decreases ss, ss.len() - i,
{
    if 0 <= i < ss.len() {
        lemma_stmt(ok, cx, env, ss[i]);
        if let Ok(next) = check_stmt(cx, env, ss[i]) {
            lemma_stmts(ok, cx, next, ss, i + 1);
        }
    }
}

proof fn lemma_arms(
    ok: spec_fn(Span) -> bool,
    cx: Place,
    env: Seq<(Seq<char>, Ty)>,
    def: EnumDefV,
    arms: Seq<MatchArmV>,
    i: int,
)
    requires
        arms_in(ok, arms),
    ensures
        err_in(ok, check_arms(cx, env, def, arms, i)),
    decreases arms, arms.len() - i,
{
    if 0 <= i < arms.len() {
        assert(arm_in(ok, arms[i]));
        lemma_pattern(ok, def, arms, i);
        lemma_stmts(ok, cx, arm_env(cx.prog, env, def, arms[i]), arms[i].body, 0);
        lemma_arms(ok, cx, env, def, arms, i + 1);
    }
}

proof fn lemma_fields_distinct(ok: spec_fn(Span) -> bool, fields: Seq<ParamV>, i: int)
    requires
        params_in(ok, fields),
    ensures
        err_in(ok, fields_distinct(fields, i)),
    decreases fields.len() - i,
{
    if 0 <= i < fields.len() {
        lemma_fields_distinct(ok, fields, i + 1);
    }
}

proof fn lemma_structs(ok: spec_fn(Span) -> bool, p: ProgramV, i: int)
    requires
        program_in(ok, p),
    ensures
        err_in(ok, structs_ok(p, i)),
    decreases p.structs.len() - i,
{
    if 0 <= i < p.structs.len() {
        assert(struct_in(ok, p.structs[i]));
        lemma_fields_distinct(ok, p.structs[i].fields, 0);
        lemma_structs(ok, p, i + 1);
    }
}

proof fn lemma_variants(ok: spec_fn(Span) -> bool, p: ProgramV, i: int, j: int)
    requires
        program_in(ok, p),
        0 <= i < p.enums.len(),
    ensures
        err_in(ok, variants_ok(p, i, j)),
    decreases p.enums[i].variants.len() - j,
{
    assert(enum_in(ok, p.enums[i]));
    if 0 <= j < p.enums[i].variants.len() {
        lemma_variants(ok, p, i, j + 1);
    }
}

proof fn lemma_enums(ok: spec_fn(Span) -> bool, p: ProgramV, i: int)
    requires
        program_in(ok, p),
    ensures
        err_in(ok, enums_ok(p, i)),
    decreases p.enums.len() - i,
{
    if 0 <= i < p.enums.len() {
        assert(enum_in(ok, p.enums[i]));
        lemma_variants(ok, p, i, 0);
        lemma_enums(ok, p, i + 1);
    }
}

proof fn lemma_params_valid(ok: spec_fn(Span) -> bool, p: ProgramV, ps: Seq<ParamV>, i: int)
    requires
        params_in(ok, ps),
    ensures
        err_in(ok, params_valid(p, ps, i)),
    decreases ps.len() - i,
{
    if 0 <= i < ps.len() {
        lemma_params_valid(ok, p, ps, i + 1);
    }
}

proof fn lemma_fields_valid(ok: spec_fn(Span) -> bool, p: ProgramV, i: int)
    requires
        program_in(ok, p),
    ensures
        err_in(ok, fields_valid(p, i)),
    decreases p.structs.len() - i,
{
    if 0 <= i < p.structs.len() {
        assert(struct_in(ok, p.structs[i]));
        lemma_params_valid(ok, p, p.structs[i].fields, 0);
        lemma_fields_valid(ok, p, i + 1);
    }
}

proof fn lemma_types_valid(
    ok: spec_fn(Span) -> bool,
    p: ProgramV,
    ts: Seq<Ty>,
    span: Span,
    i: int,
)
    requires
        ok(span),
    ensures
        err_in(ok, types_valid(p, ts, span, i)),
    decreases ts.len() - i,
{
    if 0 <= i < ts.len() {
        lemma_types_valid(ok, p, ts, span, i + 1);
    }
}

proof fn lemma_variants_valid(
    ok: spec_fn(Span) -> bool,
    p: ProgramV,
    vs: Seq<EnumVariantV>,
    j: int,
)
    requires
        variants_in(ok, vs),
    ensures
        err_in(ok, variants_valid(p, vs, j)),
    decreases vs.len() - j,
{
    if 0 <= j < vs.len() {
        lemma_types_valid(ok, p, vs[j].fields, vs[j].span, 0);
        lemma_variants_valid(ok, p, vs, j + 1);
    }
}

proof fn lemma_payloads(ok: spec_fn(Span) -> bool, p: ProgramV, i: int)
    requires
        program_in(ok, p),
    ensures
        err_in(ok, payloads_valid(p, i)),
    decreases p.enums.len() - i,
{
    if 0 <= i < p.enums.len() {
        assert(enum_in(ok, p.enums[i]));
        lemma_variants_valid(ok, p, p.enums[i].variants, 0);
        lemma_payloads(ok, p, i + 1);
    }
}

proof fn lemma_funcs(ok: spec_fn(Span) -> bool, p: ProgramV, i: int)
    requires
        program_in(ok, p),
    ensures
        err_in(ok, funcs_ok(p, i)),
    decreases p.funcs.len() - i,
{
    if 0 <= i < p.funcs.len() {
        assert(func_in(ok, p.funcs[i]));
        lemma_params_valid(ok, p, p.funcs[i].params, 0);
        lemma_funcs(ok, p, i + 1);
    }
}

proof fn lemma_params_distinct(ok: spec_fn(Span) -> bool, ps: Seq<ParamV>, i: int)
    requires
        params_in(ok, ps),
    ensures
        err_in(ok, params_distinct(ps, i)),
    decreases ps.len() - i,
{
    if 0 <= i < ps.len() {
        lemma_params_distinct(ok, ps, i + 1);
    }
}

proof fn lemma_bodies(ok: spec_fn(Span) -> bool, p: ProgramV, i: int)
    requires
        program_in(ok, p),
    ensures
        err_in(ok, bodies_ok(p, i)),
    decreases p.funcs.len() - i,
{
    if 0 <= i < p.funcs.len() {
        let f = p.funcs[i];
        assert(func_in(ok, f));
        lemma_params_distinct(ok, f.params, 0);
        lemma_stmts(
            ok,
            Place { prog: p, ret: resolve(p, f.ret), in_loop: false },
            param_env(p, f.params),
            f.body,
            0,
        );
        lemma_bodies(ok, p, i + 1);
    }
}

/// An error of the type checker has no place, or a span of the program: what holds of
/// every span of a program holds of the place of its error.
pub proof fn type_errors_stand_in_the_program(ok: spec_fn(Span) -> bool, p: ProgramV)
    requires
        program_in(ok, p),
    ensures
        checked(p) matches Err(d) ==> diag_in(ok, d),
{
    lemma_structs(ok, p, 0);
    lemma_enums(ok, p, 0);
    lemma_fields_valid(ok, p, 0);
    lemma_payloads(ok, p, 0);
    lemma_funcs(ok, p, 0);
    lemma_bodies(ok, p, 0);
}

} // verus!
