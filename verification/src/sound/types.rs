//! The types of the parts of expressions.
use vstd::prelude::*;
#[allow(unused_imports)]
use crate::ast::{ExprV, FieldInitV, ProgramV, StructDefV};
#[allow(unused_imports)]
use crate::builtins::{builtin_named, Builtin};
#[allow(unused_imports)]
use crate::diagnostics::DiagV;
#[allow(unused_imports)]
use crate::faithful::anatomy::{bound_typed, type_at, typed};
#[allow(unused_imports)]
use crate::ir::{basic_ty, IrTy};
#[allow(unused_imports)]
use crate::lower::is_empty;
#[allow(unused_imports)]
use crate::lowering::{tenv, ty_of, VarV};
#[allow(unused_imports)]
use crate::span::Span;
#[allow(unused_imports)]
use crate::types::Ty;
#[allow(unused_imports)]
use crate::typing::{
    all_fit, args_fit, binary_type, bound_ok, call_type, fixed_sig, func_named, generic_arity,
    generic_rule, index_type, inits_fit, lookup, pairs_fit, param_types, resolve, resolve_all,
    struct_named, type_of, unary_type, variant_named,
};
#[allow(unused_imports)]
use crate::typing;

verus! {

/// An expression that has a type.
#[verifier::opaque]
pub open spec fn accepted(p: ProgramV, vars: Seq<VarV>, e: ExprV) -> bool {
    type_of(p, tenv(vars), e) is Ok
}

pub open spec fn all_accepted(p: ProgramV, vars: Seq<VarV>, es: Seq<ExprV>) -> bool {
    forall|k: int| 0 <= k < es.len() ==> accepted(p, vars, #[trigger] es[k])
}

/// Expressions that have types which these fit.
pub open spec fn suit(p: ProgramV, vars: Seq<VarV>, es: Seq<ExprV>, ts: Seq<Ty>) -> bool {
    &&& es.len() == ts.len()
    &&& forall|k: int|
        0 <= k < es.len() ==> accepted(p, vars, #[trigger] es[k]) && typing::fits(
            ts[k],
            type_at(p, vars, es[k]),
        )
}

/// What an expression is held as.
#[verifier::opaque]
pub open spec fn held_as(p: ProgramV, vars: Seq<VarV>, e: ExprV) -> IrTy {
    if is_empty(e) {
        IrTy::Ptr
    } else {
        basic_ty(ty_of(p, vars, e))
    }
}

/// An expression with a type is no empty literal.
pub proof fn lemma_accepted(p: ProgramV, vars: Seq<VarV>, e: ExprV)
    requires
        accepted(p, vars, e),
    ensures
        typed(p, vars, e),
        held_as(p, vars, e) == basic_ty(type_at(p, vars, e)),
{
    reveal(accepted);
    reveal(typed);
    reveal(type_at);
    reveal(held_as);
}

pub proof fn types_of_unary(p: ProgramV, vars: Seq<VarV>, e: ExprV)
    requires
        accepted(p, vars, e),
        e.kind is Unary,
    ensures
        ({
            let (op, x) = (e.kind->Unary_op, *e.kind->Unary_expr);
            &&& accepted(p, vars, x)
            &&& unary_type(op, type_at(p, vars, x), x.span) == Ok::<Ty, DiagV>(
                type_at(p, vars, e),
            )
        }),
{
    reveal(accepted);
    reveal(type_at);
}

pub proof fn types_of_binary(p: ProgramV, vars: Seq<VarV>, e: ExprV)
    requires
        accepted(p, vars, e),
        e.kind is Binary,
    ensures
        ({
            let (op, x, y) = (e.kind->Binary_op, *e.kind->Binary_lhs, *e.kind->Binary_rhs);
            &&& accepted(p, vars, x)
            &&& accepted(p, vars, y)
            &&& binary_type(
                op,
                type_at(p, vars, x),
                type_at(p, vars, y),
                x.span,
                y.span,
                e.span,
            ) == Ok::<Ty, DiagV>(type_at(p, vars, e))
        }),
{
    reveal(accepted);
    reveal(type_at);
}

proof fn lemma_all_fit(p: ProgramV, vars: Seq<VarV>, t: Ty, es: Seq<ExprV>, i: int)
    requires
        0 <= i <= es.len(),
        all_fit(p, tenv(vars), t, es, i) is Ok,
    ensures
        forall|k: int| i <= k < es.len() ==> accepted(p, vars, #[trigger] es[k]),
    decreases es.len() - i,
{
    if i < es.len() {
        reveal(accepted);
        lemma_all_fit(p, vars, t, es, i + 1);
    }
}

pub proof fn types_of_array(p: ProgramV, vars: Seq<VarV>, e: ExprV)
    requires
        accepted(p, vars, e),
        e.kind is Array,
    ensures
        all_accepted(p, vars, e.kind->Array_0),
        basic_ty(type_at(p, vars, e)) == IrTy::Ptr,
{
    reveal(accepted);
    reveal(type_at);
    let es = e.kind->Array_0;
    lemma_all_fit(p, vars, type_of(p, tenv(vars), es[0])->Ok_0, es, 1);
}

pub proof fn types_of_index(p: ProgramV, vars: Seq<VarV>, e: ExprV)
    requires
        accepted(p, vars, e),
        e.kind is Index,
    ensures
        ({
            let (x, y) = (*e.kind->Index_array, *e.kind->Index_index);
            &&& accepted(p, vars, x)
            &&& accepted(p, vars, y)
            &&& index_type(
                type_at(p, vars, x),
                type_at(p, vars, y),
                x.span,
                y.span,
            ) == Ok::<Ty, DiagV>(type_at(p, vars, e))
        }),
{
    reveal(accepted);
    reveal(type_at);
}

/// A bound of a slice is an integer.
pub open spec fn bound_int(p: ProgramV, vars: Seq<VarV>, b: Option<Box<ExprV>>) -> bool {
    b matches Some(x) ==> accepted(p, vars, *x) && type_at(p, vars, *x) is Int
}

proof fn types_of_bound(p: ProgramV, vars: Seq<VarV>, b: Option<Box<ExprV>>)
    requires
        bound_ok(p, tenv(vars), b) is Ok,
    ensures
        bound_int(p, vars, b),
        bound_typed(p, vars, b),
{
    reveal(accepted);
    reveal(type_at);
    reveal(bound_typed);
}

pub proof fn types_of_slice(p: ProgramV, vars: Seq<VarV>, e: ExprV)
    requires
        accepted(p, vars, e),
        e.kind is Slice,
    ensures
        ({
            let (x, lo, hi) = (*e.kind->Slice_seq, e.kind->Slice_lo, e.kind->Slice_hi);
            &&& accepted(p, vars, x)
            &&& bound_int(p, vars, lo)
            &&& bound_int(p, vars, hi)
            &&& basic_ty(type_at(p, vars, x)) == IrTy::Ptr
            &&& basic_ty(type_at(p, vars, e)) == IrTy::Ptr
        }),
{
    assert({
        let (x, lo, hi) = (*e.kind->Slice_seq, e.kind->Slice_lo, e.kind->Slice_hi);
        &&& accepted(p, vars, x)
        &&& bound_ok(p, tenv(vars), lo) is Ok
        &&& bound_ok(p, tenv(vars), hi) is Ok
        &&& basic_ty(type_at(p, vars, x)) == IrTy::Ptr
        &&& basic_ty(type_at(p, vars, e)) == IrTy::Ptr
    }) by {
        reveal(accepted);
        reveal(type_at);
    }
    types_of_bound(p, vars, e.kind->Slice_lo);
    types_of_bound(p, vars, e.kind->Slice_hi);
}

pub open spec fn inits_accepted(p: ProgramV, vars: Seq<VarV>, fs: Seq<FieldInitV>) -> bool {
    forall|k: int| 0 <= k < fs.len() ==> accepted(p, vars, (#[trigger] fs[k]).value)
}

proof fn lemma_inits_fit(
    p: ProgramV,
    vars: Seq<VarV>,
    def: StructDefV,
    fs: Seq<FieldInitV>,
    i: int,
)
    requires
        0 <= i <= fs.len(),
        inits_fit(p, tenv(vars), def, fs, i) is Ok,
    ensures
        forall|k: int| i <= k < fs.len() ==> accepted(p, vars, (#[trigger] fs[k]).value),
    decreases fs.len() - i,
{
    if i < fs.len() {
        reveal(accepted);
        lemma_inits_fit(p, vars, def, fs, i + 1);
    }
}

pub proof fn types_of_struct(p: ProgramV, vars: Seq<VarV>, e: ExprV)
    requires
        accepted(p, vars, e),
        e.kind is StructLit,
    ensures
        inits_accepted(p, vars, e.kind->StructLit_fields),
        basic_ty(type_at(p, vars, e)) == IrTy::Ptr,
{
    reveal(accepted);
    reveal(type_at);
    let fs = e.kind->StructLit_fields;
    lemma_inits_fit(p, vars, struct_named(p, e.kind->StructLit_name)->0, fs, 0);
}

/// The keys of a map literal are strings, and its values have types.
pub open spec fn pairs_accepted(p: ProgramV, vars: Seq<VarV>, es: Seq<(ExprV, ExprV)>) -> bool {
    forall|k: int|
        0 <= k < es.len() ==> {
            &&& accepted(p, vars, (#[trigger] es[k]).0)
            &&& basic_ty(type_at(p, vars, es[k].0)) == IrTy::Ptr
            &&& accepted(p, vars, es[k].1)
        }
}

proof fn lemma_pairs_fit(
    p: ProgramV,
    vars: Seq<VarV>,
    t: Ty,
    es: Seq<(ExprV, ExprV)>,
    i: int,
)
    requires
        0 <= i <= es.len(),
        pairs_fit(p, tenv(vars), t, es, i) is Ok,
    ensures
        forall|k: int|
            i <= k < es.len() ==> {
                &&& accepted(p, vars, (#[trigger] es[k]).0)
                &&& basic_ty(type_at(p, vars, es[k].0)) == IrTy::Ptr
                &&& accepted(p, vars, es[k].1)
            },
    decreases es.len() - i,
{
    if i < es.len() {
        reveal(accepted);
        reveal(type_at);
        lemma_pairs_fit(p, vars, t, es, i + 1);
    }
}

pub proof fn types_of_map(p: ProgramV, vars: Seq<VarV>, e: ExprV)
    requires
        accepted(p, vars, e),
        e.kind is MapLit,
    ensures
        pairs_accepted(p, vars, e.kind->MapLit_0),
        basic_ty(type_at(p, vars, e)) == IrTy::Ptr,
{
    reveal(accepted);
    reveal(type_at);
    let es = e.kind->MapLit_0;
    lemma_pairs_fit(p, vars, type_of(p, tenv(vars), es[0].1)->Ok_0, es, 1);
}

pub proof fn types_of_field(p: ProgramV, vars: Seq<VarV>, e: ExprV)
    requires
        accepted(p, vars, e),
        e.kind is Field,
    ensures
        ({
            let x = *e.kind->Field_obj;
            &&& accepted(p, vars, x)
            &&& basic_ty(type_at(p, vars, x)) == IrTy::Ptr
        }),
{
    reveal(accepted);
    reveal(type_at);
}

proof fn lemma_args_fit(
    p: ProgramV,
    vars: Seq<VarV>,
    ts: Seq<Ty>,
    es: Seq<ExprV>,
    i: int,
)
    requires
        0 <= i <= es.len(),
        args_fit(p, tenv(vars), ts, es, i) is Ok,
    ensures
        forall|k: int|
            i <= k < es.len() ==> accepted(p, vars, #[trigger] es[k]) && typing::fits(
                ts[k],
                type_at(p, vars, es[k]),
            ),
    decreases es.len() - i,
{
    if i < es.len() {
        reveal(accepted);
        reveal(type_at);
        lemma_args_fit(p, vars, ts, es, i + 1);
    }
}

/// What a call of a built-in function of one type is given.
pub proof fn types_of_fixed(
    p: ProgramV,
    vars: Seq<VarV>,
    name: Seq<char>,
    args: Seq<ExprV>,
    span: Span,
    f: Builtin,
)
    requires
        call_type(p, tenv(vars), name, args, span) is Ok,
        builtin_named(name) == Some(f),
        fixed_sig(f) is Some,
    ensures
        fixed_sig(f) matches Some((params, ret)) && suit(p, vars, args, params) && call_type(
            p,
            tenv(vars),
            name,
            args,
            span,
        ) == Ok::<Ty, DiagV>(ret),
{
    if let Some((params, ret)) = fixed_sig(f) {
        lemma_args_fit(p, vars, params, args, 0);
    }
}

/// What a call of a built-in function of several types is given.
pub proof fn types_of_generic(
    p: ProgramV,
    vars: Seq<VarV>,
    name: Seq<char>,
    args: Seq<ExprV>,
    span: Span,
    f: Builtin,
)
    requires
        call_type(p, tenv(vars), name, args, span) is Ok,
        builtin_named(name) == Some(f),
        fixed_sig(f) is None,
    ensures
        args.len() == generic_arity(f),
        accepted(p, vars, args[0]),
        generic_rule(f, name, type_at(p, vars, args[0]), args[0].span) matches Ok(st) && call_type(
            p,
            tenv(vars),
            name,
            args,
            span,
        ) == Ok::<Ty, DiagV>(st.result) && (args.len() == 2 ==> accepted(p, vars, args[1])
            && typing::fits(st.second, type_at(p, vars, args[1]))),
{
    reveal(accepted);
    reveal(type_at);
}

/// What a call of a variant or of a function of the program is given.
pub proof fn types_of_own(
    p: ProgramV,
    vars: Seq<VarV>,
    name: Seq<char>,
    args: Seq<ExprV>,
    span: Span,
)
    requires
        call_type(p, tenv(vars), name, args, span) is Ok,
        builtin_named(name) is None,
    ensures
        variant_named(p, name) is Some ==> {
            &&& all_accepted(p, vars, args)
            &&& basic_ty(call_type(p, tenv(vars), name, args, span)->Ok_0) == IrTy::Ptr
        },
        variant_named(p, name) is None ==> (func_named(p, name) matches Some(f) && suit(
            p,
            vars,
            args,
            param_types(p, f.params),
        ) && call_type(p, tenv(vars), name, args, span) == Ok::<Ty, DiagV>(resolve(p, f.ret))),
{
    match variant_named(p, name) {
        Some((owner, payload)) => {
            lemma_args_fit(p, vars, resolve_all(p, payload), args, 0);
        },
        None => if let Some(f) = func_named(p, name) {
            lemma_args_fit(p, vars, param_types(p, f.params), args, 0);
        },
    }
}

pub proof fn types_of_call(p: ProgramV, vars: Seq<VarV>, e: ExprV)
    requires
        accepted(p, vars, e),
        e.kind is Call,
    ensures
        call_type(p, tenv(vars), e.kind->Call_name, e.kind->Call_args, e.span) == Ok::<Ty, DiagV>(
            type_at(p, vars, e),
        ),
{
    reveal(accepted);
    reveal(type_at);
}

/// The type of a variable is that of the innermost of its name.
pub proof fn types_of_var(p: ProgramV, vars: Seq<VarV>, e: ExprV)
    requires
        accepted(p, vars, e),
        e.kind is Var,
    ensures
        variant_named(p, e.kind->Var_0) is Some ==> basic_ty(type_at(p, vars, e)) == IrTy::Ptr,
        variant_named(p, e.kind->Var_0) is None ==> lookup(tenv(vars), e.kind->Var_0) == Some(
            type_at(p, vars, e),
        ),
{
    reveal(accepted);
    reveal(type_at);
}

/// The type of a literal.
pub proof fn types_of_literal(p: ProgramV, vars: Seq<VarV>, e: ExprV)
    requires
        accepted(p, vars, e),
    ensures
        e.kind is Int ==> type_at(p, vars, e) is Int,
        e.kind is Float ==> type_at(p, vars, e) is Float,
        e.kind is Bool ==> type_at(p, vars, e) is Bool,
        e.kind is Str ==> type_at(p, vars, e) is Str,
        e.kind is Null ==> type_at(p, vars, e) is Null,
{
    reveal(accepted);
    reveal(type_at);
}

} // verus!
