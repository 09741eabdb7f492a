//! Which operands operators take.
use crate::ast::{BinOp, UnOp};
use crate::span::Span;
use vstd::prelude::*;
#[allow(unused_imports)]
use crate::ast::{ExprKindV, ExprV, ProgramV};
#[allow(unused_imports)]
use crate::diagnostics::DiagV;
#[allow(unused_imports)]
use crate::types::Ty;
#[allow(unused_imports)]
use crate::typing::type_of;

verus! {

/// `l op r`.
pub open spec fn infix(op: BinOp, l: ExprV, r: ExprV, span: Span) -> ExprV {
    ExprV { kind: ExprKindV::Binary { op, lhs: Box::new(l), rhs: Box::new(r) }, span }
}

/// `op e`.
pub open spec fn prefix(op: UnOp, e: ExprV, span: Span) -> ExprV {
    ExprV { kind: ExprKindV::Unary { op, expr: Box::new(e) }, span }
}

pub open spec fn is_number(t: Ty) -> bool {
    t is Int || t is Float
}

/// A type whose values can be `null`.
pub open spec fn is_nullable(t: Ty) -> bool {
    t is Str || t is Array || t is MapOf || t is Struct || t is Enum || t is Null
}

/// What kind of operator it is: `+ - * /`, those on the bits of integers and `%`, those that
/// order, those that tell equals apart, and those on truth values.
pub ghost enum OpKind {
    Arithmetic,
    Whole,
    Order,
    Equality,
    Logic,
}

pub open spec fn kind_of(op: BinOp) -> OpKind {
    match op {
        BinOp::Add | BinOp::Sub | BinOp::Mul | BinOp::Div => OpKind::Arithmetic,
        BinOp::Mod | BinOp::BitAnd | BinOp::BitOr | BinOp::BitXor | BinOp::Shl | BinOp::Shr =>
            OpKind::Whole,
        BinOp::Lt | BinOp::Le | BinOp::Gt | BinOp::Ge => OpKind::Order,
        BinOp::Eq | BinOp::Ne => OpKind::Equality,
        BinOp::And | BinOp::Or => OpKind::Logic,
    }
}

/// `+`, `-`, `*` and `/` take two integers or two fractions, and give a number of that type;
/// of these only `+` takes anything else, which is strings.
pub proof fn arithmetic_takes_numbers_of_one_type(
    p: ProgramV,
    env: Seq<(Seq<char>, Ty)>,
    op: BinOp,
    l: ExprV,
    r: ExprV,
    span: Span,
    lt: Ty,
    rt: Ty,
)
    requires
        kind_of(op) is Arithmetic,
        type_of(p, env, l) == Ok::<Ty, DiagV>(lt),
        type_of(p, env, r) == Ok::<Ty, DiagV>(rt),
    ensures
        lt == rt && is_number(lt) ==> type_of(p, env, infix(op, l, r, span)) == Ok::<Ty, DiagV>(lt),
        op == BinOp::Add && lt is Str && rt is Str ==> type_of(p, env, infix(op, l, r, span))
            == Ok::<Ty, DiagV>(Ty::Str),
        type_of(p, env, infix(op, l, r, span)) is Ok && !(op == BinOp::Add && lt is Str) ==> lt
            == rt && is_number(lt),
        type_of(p, env, infix(op, l, r, span)) is Ok && lt is Str ==> op == BinOp::Add && (rt is Str
            || rt is Null),
{
}

/// `%`, the operators on bits and the shifts take integers, and give one.
pub proof fn whole_numbers_only(
    p: ProgramV,
    env: Seq<(Seq<char>, Ty)>,
    op: BinOp,
    l: ExprV,
    r: ExprV,
    span: Span,
    lt: Ty,
    rt: Ty,
)
    requires
        kind_of(op) is Whole,
        type_of(p, env, l) == Ok::<Ty, DiagV>(lt),
        type_of(p, env, r) == Ok::<Ty, DiagV>(rt),
    ensures
        type_of(p, env, infix(op, l, r, span)) is Ok <==> lt is Int && rt is Int,
        type_of(p, env, infix(op, l, r, span)) matches Ok(t) ==> t is Int,
{
}

/// `<`, `<=`, `>` and `>=` take two numbers of one type or two strings, and give a truth value.
pub proof fn orders_are_of_one_type(
    p: ProgramV,
    env: Seq<(Seq<char>, Ty)>,
    op: BinOp,
    l: ExprV,
    r: ExprV,
    span: Span,
    lt: Ty,
    rt: Ty,
)
    requires
        kind_of(op) is Order,
        type_of(p, env, l) == Ok::<Ty, DiagV>(lt),
        type_of(p, env, r) == Ok::<Ty, DiagV>(rt),
    ensures
        type_of(p, env, infix(op, l, r, span)) is Ok <==> (lt == rt && is_number(lt)) || (lt is Str
            && (rt is Str || rt is Null)),
        type_of(p, env, infix(op, l, r, span)) matches Ok(t) ==> t is Bool,
{
}

/// `==` and `!=` take what `<` takes, and `null` with what can be `null`.
pub proof fn equals_are_of_one_type(
    p: ProgramV,
    env: Seq<(Seq<char>, Ty)>,
    op: BinOp,
    l: ExprV,
    r: ExprV,
    span: Span,
    lt: Ty,
    rt: Ty,
)
    requires
        kind_of(op) is Equality,
        type_of(p, env, l) == Ok::<Ty, DiagV>(lt),
        type_of(p, env, r) == Ok::<Ty, DiagV>(rt),
    ensures
        type_of(p, env, infix(op, l, r, span)) is Ok <==> (lt == rt && (is_number(lt) || lt is Str))
            || (lt is Null && is_nullable(rt)) || (rt is Null && is_nullable(lt)),
        type_of(p, env, infix(op, l, r, span)) matches Ok(t) ==> t is Bool,
        type_of(p, env, infix(op, l, r, span)) is Ok <==> type_of(
            p,
            env,
            infix(op, r, l, span),
        ) is Ok,
{
}

/// `&&` and `||` take truth values, and give one.
pub proof fn logic_is_of_truth_values(
    p: ProgramV,
    env: Seq<(Seq<char>, Ty)>,
    op: BinOp,
    l: ExprV,
    r: ExprV,
    span: Span,
    lt: Ty,
    rt: Ty,
)
    requires
        kind_of(op) is Logic,
        type_of(p, env, l) == Ok::<Ty, DiagV>(lt),
        type_of(p, env, r) == Ok::<Ty, DiagV>(rt),
    ensures
        type_of(p, env, infix(op, l, r, span)) is Ok <==> lt is Bool && rt is Bool,
        type_of(p, env, infix(op, l, r, span)) matches Ok(t) ==> t is Bool,
{
}

/// Operators of one kind have one typing, down to the error; `+` has that of its kind where
/// its left operand is no string.
pub proof fn operators_of_a_kind_are_typed_alike(
    p: ProgramV,
    env: Seq<(Seq<char>, Ty)>,
    a: BinOp,
    b: BinOp,
    l: ExprV,
    r: ExprV,
    span: Span,
)
    requires
        kind_of(a) == kind_of(b),
        a == BinOp::Add || b == BinOp::Add ==> a == b || !(type_of(p, env, l) matches Ok(t) && t
            is Str),
    ensures
        type_of(p, env, infix(a, l, r, span)) == type_of(p, env, infix(b, l, r, span)),
{
}

/// An operator on operands of which one has no type has none: the error is that of the first.
pub proof fn errors_of_operands_come_first(
    p: ProgramV,
    env: Seq<(Seq<char>, Ty)>,
    op: BinOp,
    l: ExprV,
    r: ExprV,
    span: Span,
)
    ensures
        type_of(p, env, l) is Err ==> type_of(p, env, infix(op, l, r, span)) == type_of(p, env, l),
        type_of(p, env, l) is Ok && type_of(p, env, r) is Err ==> type_of(
            p,
            env,
            infix(op, l, r, span),
        ) == type_of(p, env, r),
{
}

/// `-e` has a type where `e - e` has one, and the same; so it is with `!e` and `e && e`, and
/// with `~e` and `e ^ e`.
pub proof fn prefixes_are_typed_like_infixes(
    p: ProgramV,
    env: Seq<(Seq<char>, Ty)>,
    e: ExprV,
    span: Span,
)
    ensures
        type_of(p, env, prefix(UnOp::Neg, e, span)) == type_of(
            p,
            env,
            infix(BinOp::Sub, e, e, span),
        ),
        type_of(p, env, prefix(UnOp::Not, e, span)) == type_of(
            p,
            env,
            infix(BinOp::And, e, e, span),
        ),
        type_of(p, env, prefix(UnOp::BitNot, e, span)) == type_of(
            p,
            env,
            infix(BinOp::BitXor, e, e, span),
        ),
{
}

} // verus!
