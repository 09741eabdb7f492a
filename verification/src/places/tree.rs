//! Properties of all the spans of a tree.
use vstd::prelude::*;
#[allow(unused_imports)]
use crate::ast::{
    EnumDefV, EnumVariantV, ExprKindV, ExprV, FieldInitV, FunctionV, ImportDeclV, MatchArmV, ParamV,
    ProgramV, StmtKindV, StmtV, StructDefV,
};
#[allow(unused_imports)]
use crate::diagnostics::DiagV;
#[allow(unused_imports)]
use crate::span::Span;

verus! {

/// All the spans of an expression are such.
#[verifier::opaque]
pub open spec fn expr_in(ok: spec_fn(Span) -> bool, e: ExprV) -> bool
    decreases e,
{
    ok(e.span) && match e.kind {
        ExprKindV::Unary { expr, .. } => expr_in(ok, *expr),
        ExprKindV::Binary { lhs, rhs, .. } => expr_in(ok, *lhs) && expr_in(ok, *rhs),
        ExprKindV::Call { args, .. } => forall|k: int|
            0 <= k < args.len() ==> expr_in(ok, #[trigger] args[k]),
        ExprKindV::Array(es) => forall|k: int|
            0 <= k < es.len() ==> expr_in(ok, #[trigger] es[k]),
        ExprKindV::Index { array, index } => expr_in(ok, *array) && expr_in(ok, *index),
        ExprKindV::Slice { seq, lo, hi } => {
            &&& expr_in(ok, *seq)
            &&& lo is Some ==> expr_in(ok, *lo->0)
            &&& hi is Some ==> expr_in(ok, *hi->0)
        },
        ExprKindV::StructLit { fields, .. } => forall|k: int|
            0 <= k < fields.len() ==> ok((#[trigger] fields[k]).span) && expr_in(
                ok,
                fields[k].value,
            ),
        ExprKindV::MapLit(es) => forall|k: int|
            0 <= k < es.len() ==> expr_in(ok, (#[trigger] es[k]).0) && expr_in(ok, es[k].1),
        ExprKindV::Field { obj, .. } => expr_in(ok, *obj),
        _ => true,
    }
}

pub open spec fn exprs_in(ok: spec_fn(Span) -> bool, es: Seq<ExprV>) -> bool {
    forall|k: int| 0 <= k < es.len() ==> expr_in(ok, #[trigger] es[k])
}

pub open spec fn opt_in(ok: spec_fn(Span) -> bool, e: Option<Box<ExprV>>) -> bool {
    e is Some ==> expr_in(ok, *e->0)
}

pub open spec fn inits_in(ok: spec_fn(Span) -> bool, fs: Seq<FieldInitV>) -> bool {
    forall|k: int|
        0 <= k < fs.len() ==> ok((#[trigger] fs[k]).span) && expr_in(ok, fs[k].value)
}

pub open spec fn pairs_in(ok: spec_fn(Span) -> bool, es: Seq<(ExprV, ExprV)>) -> bool {
    forall|k: int|
        0 <= k < es.len() ==> expr_in(ok, (#[trigger] es[k]).0) && expr_in(ok, es[k].1)
}

/// One step of what it is for all the spans of an expression to be such.
pub open spec fn parts_in(ok: spec_fn(Span) -> bool, e: ExprV) -> bool {
    ok(e.span) && match e.kind {
        ExprKindV::Unary { expr, .. } => expr_in(ok, *expr),
        ExprKindV::Binary { lhs, rhs, .. } => expr_in(ok, *lhs) && expr_in(ok, *rhs),
        ExprKindV::Call { args, .. } => exprs_in(ok, args),
        ExprKindV::Array(es) => exprs_in(ok, es),
        ExprKindV::Index { array, index } => expr_in(ok, *array) && expr_in(ok, *index),
        ExprKindV::Slice { seq, lo, hi } => expr_in(ok, *seq) && opt_in(ok, lo) && opt_in(ok, hi),
        ExprKindV::StructLit { fields, .. } => inits_in(ok, fields),
        ExprKindV::MapLit(es) => pairs_in(ok, es),
        ExprKindV::Field { obj, .. } => expr_in(ok, *obj),
        _ => true,
    }
}

pub proof fn lemma_expr_in(ok: spec_fn(Span) -> bool, e: ExprV)
    ensures
        expr_in(ok, e) == parts_in(ok, e),
{
    reveal(expr_in);
}

/// All the spans of a statement are such.
pub open spec fn stmt_in(ok: spec_fn(Span) -> bool, s: StmtV) -> bool {
    ok(s.span) && kind_in(ok, s.kind)
}

/// All the spans of a statement but its own are such.
#[verifier::opaque]
pub open spec fn kind_in(ok: spec_fn(Span) -> bool, kind: StmtKindV) -> bool
    decreases kind,
{
    match kind {
        StmtKindV::Let { value, .. } => expr_in(ok, value),
        StmtKindV::Assign { target, value } => expr_in(ok, target) && expr_in(ok, value),
        StmtKindV::Print(e) => expr_in(ok, e),
        StmtKindV::Return(e) => expr_in(ok, e),
        StmtKindV::ExprStmt(e) => expr_in(ok, e),
        StmtKindV::If { cond, then_body, else_body } => {
            &&& expr_in(ok, cond)
            &&& forall|k: int|
                0 <= k < then_body.len() ==> ok((#[trigger] then_body[k]).span) && kind_in(
                    ok,
                    then_body[k].kind,
                )
            &&& forall|k: int|
                0 <= k < else_body.len() ==> ok((#[trigger] else_body[k]).span) && kind_in(
                    ok,
                    else_body[k].kind,
                )
        },
        StmtKindV::While { cond, body } => {
            &&& expr_in(ok, cond)
            &&& forall|k: int|
                0 <= k < body.len() ==> ok((#[trigger] body[k]).span) && kind_in(ok, body[k].kind)
        },
        StmtKindV::For { init, cond, step, body } => {
            &&& init is Some ==> ok(init->0.span) && kind_in(ok, init->0.kind)
            &&& expr_in(ok, cond)
            &&& step is Some ==> ok(step->0.span) && kind_in(ok, step->0.kind)
            &&& forall|k: int|
                0 <= k < body.len() ==> ok((#[trigger] body[k]).span) && kind_in(ok, body[k].kind)
        },
        StmtKindV::ForIn { iter, body, .. } => {
            &&& expr_in(ok, iter)
            &&& forall|k: int|
                0 <= k < body.len() ==> ok((#[trigger] body[k]).span) && kind_in(ok, body[k].kind)
        },
        StmtKindV::Match { scrut, arms } => {
            &&& expr_in(ok, scrut)
            &&& forall|k: int, m: int|
                0 <= k < arms.len() && 0 <= m < arms[k].body.len() ==> ok(
                    (#[trigger] arms[k].body[m]).span,
                ) && kind_in(ok, arms[k].body[m].kind)
            &&& forall|k: int| 0 <= k < arms.len() ==> ok((#[trigger] arms[k]).span)
        },
        _ => true,
    }
}

pub open spec fn stmts_in(ok: spec_fn(Span) -> bool, ss: Seq<StmtV>) -> bool {
    forall|k: int| 0 <= k < ss.len() ==> stmt_in(ok, #[trigger] ss[k])
}

pub open spec fn opt_stmt_in(ok: spec_fn(Span) -> bool, s: Option<Box<StmtV>>) -> bool {
    s is Some ==> stmt_in(ok, *s->0)
}

pub open spec fn arm_in(ok: spec_fn(Span) -> bool, arm: MatchArmV) -> bool {
    ok(arm.span) && stmts_in(ok, arm.body)
}

pub open spec fn arms_in(ok: spec_fn(Span) -> bool, arms: Seq<MatchArmV>) -> bool {
    forall|k: int| 0 <= k < arms.len() ==> arm_in(ok, #[trigger] arms[k])
}

/// One step of what it is for the spans in a statement to be such.
pub open spec fn pieces_in(ok: spec_fn(Span) -> bool, kind: StmtKindV) -> bool {
    match kind {
        StmtKindV::Let { value, .. } => expr_in(ok, value),
        StmtKindV::Assign { target, value } => expr_in(ok, target) && expr_in(ok, value),
        StmtKindV::Print(e) => expr_in(ok, e),
        StmtKindV::Return(e) => expr_in(ok, e),
        StmtKindV::ExprStmt(e) => expr_in(ok, e),
        StmtKindV::If { cond, then_body, else_body } => expr_in(ok, cond) && stmts_in(
            ok,
            then_body,
        ) && stmts_in(ok, else_body),
        StmtKindV::While { cond, body } => expr_in(ok, cond) && stmts_in(ok, body),
        StmtKindV::For { init, cond, step, body } => opt_stmt_in(ok, init) && expr_in(ok, cond)
            && opt_stmt_in(ok, step) && stmts_in(ok, body),
        StmtKindV::ForIn { iter, body, .. } => expr_in(ok, iter) && stmts_in(ok, body),
        StmtKindV::Match { scrut, arms } => expr_in(ok, scrut) && arms_in(ok, arms),
        _ => true,
    }
}

pub proof fn lemma_kind_in(ok: spec_fn(Span) -> bool, kind: StmtKindV)
    ensures
        kind_in(ok, kind) == pieces_in(ok, kind),
{
    reveal(kind_in);
    if let StmtKindV::Match { scrut, arms } = kind {
        if kind_in(ok, kind) {
            assert forall|k: int| 0 <= k < arms.len() implies arm_in(ok, #[trigger] arms[k]) by {
                assert forall|m: int| 0 <= m < arms[k].body.len() implies stmt_in(
                    ok,
                    #[trigger] arms[k].body[m],
                ) by {}
            }
        }
        if pieces_in(ok, kind) {
            assert forall|k: int, m: int|
                0 <= k < arms.len() && 0 <= m < arms[k].body.len() implies ok(
                (#[trigger] arms[k].body[m]).span,
            ) && kind_in(ok, arms[k].body[m].kind) by {
                assert(arm_in(ok, arms[k]));
                assert(stmt_in(ok, arms[k].body[m]));
            }
        }
    }
}

pub open spec fn params_in(ok: spec_fn(Span) -> bool, ps: Seq<ParamV>) -> bool {
    forall|k: int| 0 <= k < ps.len() ==> ok((#[trigger] ps[k]).span)
}

pub open spec fn variants_in(ok: spec_fn(Span) -> bool, vs: Seq<EnumVariantV>) -> bool {
    forall|k: int| 0 <= k < vs.len() ==> ok((#[trigger] vs[k]).span)
}

pub open spec fn imports_in(ok: spec_fn(Span) -> bool, is: Seq<ImportDeclV>) -> bool {
    forall|k: int| 0 <= k < is.len() ==> ok((#[trigger] is[k]).span)
}

pub open spec fn struct_in(ok: spec_fn(Span) -> bool, d: StructDefV) -> bool {
    ok(d.span) && params_in(ok, d.fields)
}

pub open spec fn enum_in(ok: spec_fn(Span) -> bool, d: EnumDefV) -> bool {
    ok(d.span) && variants_in(ok, d.variants)
}

pub open spec fn func_in(ok: spec_fn(Span) -> bool, f: FunctionV) -> bool {
    ok(f.span) && params_in(ok, f.params) && stmts_in(ok, f.body)
}

/// All the spans of a program are such.
pub open spec fn program_in(ok: spec_fn(Span) -> bool, p: ProgramV) -> bool {
    &&& imports_in(ok, p.imports)
    &&& forall|k: int| 0 <= k < p.structs.len() ==> struct_in(ok, #[trigger] p.structs[k])
    &&& forall|k: int| 0 <= k < p.enums.len() ==> enum_in(ok, #[trigger] p.enums[k])
    &&& forall|k: int| 0 <= k < p.funcs.len() ==> func_in(ok, #[trigger] p.funcs[k])
}

/// The error has no place, or such a one.
pub open spec fn diag_in(ok: spec_fn(Span) -> bool, d: DiagV) -> bool {
    d.span matches Some(s) ==> ok(s)
}

/// What is such is such.
pub open spec fn implies_in(a: spec_fn(Span) -> bool, b: spec_fn(Span) -> bool) -> bool {
    forall|s: Span| #[trigger] a(s) ==> b(s)
}

proof fn lemma_expr_more(a: spec_fn(Span) -> bool, b: spec_fn(Span) -> bool, e: ExprV)
    requires
        implies_in(a, b),
        expr_in(a, e),
    ensures
        expr_in(b, e),
    decreases e,
{
    lemma_expr_in(a, e);
    match e.kind {
        ExprKindV::Unary { expr, .. } => lemma_expr_more(a, b, *expr),
        ExprKindV::Binary { lhs, rhs, .. } => {
            lemma_expr_more(a, b, *lhs);
            lemma_expr_more(a, b, *rhs);
        },
        ExprKindV::Call { args, .. } => {
            assert forall|k: int| 0 <= k < args.len() implies expr_in(b, #[trigger] args[k]) by {
                lemma_expr_more(a, b, args[k]);
            }
        },
        ExprKindV::Array(es) => {
            assert forall|k: int| 0 <= k < es.len() implies expr_in(b, #[trigger] es[k]) by {
                lemma_expr_more(a, b, es[k]);
            }
        },
        ExprKindV::Index { array, index } => {
            lemma_expr_more(a, b, *array);
            lemma_expr_more(a, b, *index);
        },
        ExprKindV::Slice { seq, lo, hi } => {
            lemma_expr_more(a, b, *seq);
            if lo is Some {
                lemma_expr_more(a, b, *lo->0);
            }
            if hi is Some {
                lemma_expr_more(a, b, *hi->0);
            }
        },
        ExprKindV::StructLit { fields, .. } => {
            assert forall|k: int| 0 <= k < fields.len() implies b((#[trigger] fields[k]).span)
                && expr_in(b, fields[k].value) by {
                lemma_expr_more(a, b, fields[k].value);
            }
        },
        ExprKindV::MapLit(es) => {
            assert forall|k: int| 0 <= k < es.len() implies expr_in(b, (#[trigger] es[k]).0)
                && expr_in(b, es[k].1) by {
                lemma_expr_more(a, b, es[k].0);
                lemma_expr_more(a, b, es[k].1);
            }
        },
        ExprKindV::Field { obj, .. } => lemma_expr_more(a, b, *obj),
        _ => {},
    }
    lemma_expr_in(b, e);
}

proof fn lemma_stmts_more(a: spec_fn(Span) -> bool, b: spec_fn(Span) -> bool, ss: Seq<StmtV>)
    requires
        implies_in(a, b),
        stmts_in(a, ss),
    ensures
        stmts_in(b, ss),
    decreases ss, 0int,
{
    assert forall|k: int| 0 <= k < ss.len() implies stmt_in(b, #[trigger] ss[k]) by {
        assert(stmt_in(a, ss[k]));
        lemma_kind_more(a, b, ss[k]);
    }
}

proof fn lemma_kind_more(a: spec_fn(Span) -> bool, b: spec_fn(Span) -> bool, s: StmtV)
    requires
        implies_in(a, b),
        kind_in(a, s.kind),
    ensures
        kind_in(b, s.kind),
    decreases s, 0int,
{
    lemma_kind_in(a, s.kind);
    match s.kind {
        StmtKindV::Let { value, .. } => lemma_expr_more(a, b, value),
        StmtKindV::Assign { target, value } => {
            lemma_expr_more(a, b, target);
            lemma_expr_more(a, b, value);
        },
        StmtKindV::Print(e) => lemma_expr_more(a, b, e),
        StmtKindV::Return(e) => lemma_expr_more(a, b, e),
        StmtKindV::ExprStmt(e) => lemma_expr_more(a, b, e),
        StmtKindV::If { cond, then_body, else_body } => {
            lemma_expr_more(a, b, cond);
            lemma_stmts_more(a, b, then_body);
            lemma_stmts_more(a, b, else_body);
        },
        StmtKindV::While { cond, body } => {
            lemma_expr_more(a, b, cond);
            lemma_stmts_more(a, b, body);
        },
        StmtKindV::For { init, cond, step, body } => {
            lemma_expr_more(a, b, cond);
            lemma_stmts_more(a, b, body);
            if init is Some {
                lemma_kind_more(a, b, *s.kind->For_init->0);
            }
            if step is Some {
                lemma_kind_more(a, b, *s.kind->For_step->0);
            }
        },
        StmtKindV::ForIn { iter, body, .. } => {
            lemma_expr_more(a, b, iter);
            lemma_stmts_more(a, b, body);
        },
        StmtKindV::Match { scrut, arms } => {
            lemma_expr_more(a, b, scrut);
            assert forall|k: int| 0 <= k < arms.len() implies arm_in(b, #[trigger] arms[k]) by {
                assert(arm_in(a, arms[k]));
                lemma_stmts_more(a, b, arms[k].body);
            }
        },
        _ => {},
    }
    lemma_kind_in(b, s.kind);
}

/// What holds of every span of a program holds of it still where less is asked.
pub proof fn lemma_program_more(
    a: spec_fn(Span) -> bool,
    b: spec_fn(Span) -> bool,
    p: ProgramV,
)
    requires
        implies_in(a, b),
        program_in(a, p),
    ensures
        program_in(b, p),
{
    assert forall|k: int| 0 <= k < p.structs.len() implies struct_in(
        b,
        #[trigger] p.structs[k],
    ) by {
        assert(struct_in(a, p.structs[k]));
    }
    assert forall|k: int| 0 <= k < p.enums.len() implies enum_in(b, #[trigger] p.enums[k]) by {
        assert(enum_in(a, p.enums[k]));
    }
    assert forall|k: int| 0 <= k < p.funcs.len() implies func_in(b, #[trigger] p.funcs[k]) by {
        assert(func_in(a, p.funcs[k]));
        lemma_stmts_more(a, b, p.funcs[k].body);
    }
}

} // verus!
