//! Which expressions and statements are accepted.
use vstd::prelude::*;
#[allow(unused_imports)]
use crate::ast::{EnumVariantV, ExprKindV, ExprV, MatchArmV, ProgramV, StmtKindV, StmtV};
#[allow(unused_imports)]
use crate::builtins::builtin_named;
#[allow(unused_imports)]
use crate::typing::{
    all_fit, args_fit, bound_ok, call_type, caught, check_opt, check_stmt, check_stmts, covered,
    enum_named, exhaustive, missing_variants, scrut_enum, func_named, lookup, param_types, resolve,
    type_of, variant_named, Place,
};
#[allow(unused_imports)]
use crate::types::Ty;

verus! {

/// The variables and their types.
pub type Vars = Seq<(Seq<char>, Ty)>;

/// Types whose values can be missing: all but numbers and truth values.
pub open spec fn can_be_null(t: Ty) -> bool {
    t is Str || t is Array || t is Struct || t is Enum || t is MapOf
}

/// An expression can stand where a value of type `t` is wanted: it has that type, or it is
/// `null` and the type allows for that.
pub open spec fn suits(p: ProgramV, env: Vars, e: ExprV, t: Ty) -> bool {
    type_of(p, env, e) matches Ok(g) && (g == t || (g is Null && can_be_null(t)))
}

proof fn lemma_all_fit(p: ProgramV, env: Vars, t: Ty, es: Seq<ExprV>, i: int)
    requires
        0 <= i <= es.len(),
    ensures
        all_fit(p, env, t, es, i) is Ok <==> forall|k: int|
            i <= k < es.len() ==> suits(p, env, #[trigger] es[k], t),
    decreases es.len() - i,
{
    if i < es.len() {
        lemma_all_fit(p, env, t, es, i + 1);
        if all_fit(p, env, t, es, i) is Ok {
            assert forall|k: int| i <= k < es.len() implies suits(p, env, #[trigger] es[k], t) by {
                if k == i {
                } else {
                    assert(i + 1 <= k);
                }
            }
        } else if forall|k: int| i <= k < es.len() ==> suits(p, env, #[trigger] es[k], t) {
            assert(suits(p, env, es[i], t));
        }
    }
}

proof fn lemma_args_fit(p: ProgramV, env: Vars, ts: Seq<Ty>, es: Seq<ExprV>, i: int)
    requires
        0 <= i <= es.len(),
    ensures
        args_fit(p, env, ts, es, i) is Ok <==> forall|k: int|
            i <= k < es.len() ==> suits(p, env, #[trigger] es[k], ts[k]),
    decreases es.len() - i,
{
    if i < es.len() {
        lemma_args_fit(p, env, ts, es, i + 1);
        if args_fit(p, env, ts, es, i) is Ok {
            assert forall|k: int| i <= k < es.len() implies suits(
                p,
                env,
                #[trigger] es[k],
                ts[k],
            ) by {
                if k == i {
                } else {
                    assert(i + 1 <= k);
                }
            }
        } else if forall|k: int| i <= k < es.len() ==> suits(p, env, #[trigger] es[k], ts[k]) {
            assert(suits(p, env, es[i], ts[i]));
        }
    }
}

/// An array is of the type of its first element, and every other element suits that.
pub proof fn arrays_are_of_one_type(p: ProgramV, env: Vars, e: ExprV, es: Seq<ExprV>, t: Ty)
    requires
        e.kind == ExprKindV::Array(es),
    ensures
        type_of(p, env, e) == Ok::<Ty, crate::diagnostics::DiagV>(Ty::Array(Box::new(t))) <==> {
            &&& es.len() > 0
            &&& !(t is Null)
            &&& type_of(p, env, es[0]) == Ok::<Ty, crate::diagnostics::DiagV>(t)
            &&& forall|k: int| 0 <= k < es.len() ==> suits(p, env, #[trigger] es[k], t)
        },
{
    if es.len() > 0 {
        lemma_all_fit(p, env, t, es, 1);
        if type_of(p, env, es[0]) == Ok::<Ty, crate::diagnostics::DiagV>(t) {
            assert(suits(p, env, es[0], t));
        }
    }
}

/// What an index gives: an element of an array by a number, a byte of a text by a number, a
/// value of a map by a text; and nothing else can be indexed.
pub proof fn indexing_gives_elements(
    p: ProgramV,
    env: Vars,
    e: ExprV,
    a: Box<ExprV>,
    i: Box<ExprV>,
    t: Ty,
)
    requires
        e.kind == (ExprKindV::Index { array: a, index: i }),
    ensures
        type_of(p, env, e) == Ok::<Ty, crate::diagnostics::DiagV>(t) <==> {
            ||| type_of(p, env, *a) == Ok::<Ty, crate::diagnostics::DiagV>(Ty::Array(Box::new(t)))
                && suits(p, env, *i, Ty::Int)
            ||| type_of(p, env, *a) == Ok::<Ty, crate::diagnostics::DiagV>(Ty::Str) && t is Int
                && suits(p, env, *i, Ty::Int)
            ||| type_of(p, env, *a) == Ok::<Ty, crate::diagnostics::DiagV>(Ty::MapOf(Box::new(t)))
                && suits(p, env, *i, Ty::Str)
        },
{
}

/// A part of an array or of a text is of the same type, and its bounds are numbers.
pub proof fn slices_keep_their_type(
    p: ProgramV,
    env: Vars,
    e: ExprV,
    s: Box<ExprV>,
    lo: Option<Box<ExprV>>,
    hi: Option<Box<ExprV>>,
    t: Ty,
)
    requires
        e.kind == (ExprKindV::Slice { seq: s, lo, hi }),
    ensures
        type_of(p, env, e) == Ok::<Ty, crate::diagnostics::DiagV>(t) <==> {
            &&& type_of(p, env, *s) == Ok::<Ty, crate::diagnostics::DiagV>(t)
            &&& t is Array || t is Str
            &&& lo matches Some(x) ==> suits(p, env, *x, Ty::Int)
            &&& hi matches Some(x) ==> suits(p, env, *x, Ty::Int)
        },
{
    assert(bound_ok(p, env, lo) is Ok <==> (lo matches Some(x) ==> suits(p, env, *x, Ty::Int)));
    assert(bound_ok(p, env, hi) is Ok <==> (hi matches Some(x) ==> suits(p, env, *x, Ty::Int)));
}

/// A name that no variant has is of the type that it was last declared with.
pub proof fn variables_have_their_last_type(
    p: ProgramV,
    env: Vars,
    e: ExprV,
    name: Seq<char>,
    i: int,
)
    requires
        e.kind == ExprKindV::Var(name),
        variant_named(p, name) is None,
        0 <= i < env.len(),
        env[i].0 == name,
        forall|k: int| i < k < env.len() ==> (#[trigger] env[k]).0 != name,
    ensures
        type_of(p, env, e) == Ok::<Ty, crate::diagnostics::DiagV>(env[i].1),
{
    lemma_lookup(env, name, i);
}

proof fn lemma_lookup(env: Vars, name: Seq<char>, i: int)
    requires
        0 <= i < env.len(),
        env[i].0 == name,
        forall|k: int| i < k < env.len() ==> (#[trigger] env[k]).0 != name,
    ensures
        lookup(env, name) == Some(env[i].1),
    decreases env.len(),
{
    if i < env.len() - 1 {
        let front = env.drop_last();
        assert(env[env.len() - 1].0 != name);
        assert forall|k: int| i < k < front.len() implies (#[trigger] front[k]).0 != name by {
            assert(front[k] == env[k]);
        }
        lemma_lookup(front, name, i);
    }
}

/// A call of a function of the program has the type of what the function returns, where there
/// are as many arguments as parameters and each suits its parameter; and it is refused
/// otherwise.
pub proof fn calls_suit_their_functions(
    p: ProgramV,
    env: Vars,
    e: ExprV,
    name: Seq<char>,
    args: Seq<ExprV>,
    f: crate::ast::FunctionV,
)
    requires
        e.kind == (ExprKindV::Call { name, args }),
        builtin_named(name) is None,
        variant_named(p, name) is None,
        func_named(p, name) == Some(f),
    ensures
        type_of(p, env, e) is Ok <==> {
            &&& args.len() == f.params.len()
            &&& forall|k: int|
                0 <= k < args.len() ==> suits(
                    p,
                    env,
                    #[trigger] args[k],
                    resolve(p, f.params[k].ty),
                )
        },
        type_of(p, env, e) matches Ok(t) ==> t == resolve(p, f.ret),
{
    let ts = param_types(p, f.params);
    assert(type_of(p, env, e) == call_type(p, env, name, args, e.span));
    if args.len() == f.params.len() {
        lemma_args_fit(p, env, ts, args, 0);
        assert forall|k: int| 0 <= k < args.len() implies #[trigger] ts[k] == resolve(
            p,
            f.params[k].ty,
        ) by {}
        if args_fit(p, env, ts, args, 0) is Ok {
            assert forall|k: int| 0 <= k < args.len() implies suits(
                p,
                env,
                #[trigger] args[k],
                resolve(p, f.params[k].ty),
            ) by {
                assert(ts[k] == resolve(p, f.params[k].ty));
            }
        } else if forall|k: int|
            0 <= k < args.len() ==> suits(p, env, #[trigger] args[k], resolve(p, f.params[k].ty)) {
            assert forall|k: int| 0 <= k < args.len() implies suits(
                p,
                env,
                #[trigger] args[k],
                ts[k],
            ) by {
                assert(ts[k] == resolve(p, f.params[k].ty));
            }
        }
    }
}

// Statements.

/// A declaration without a type declares the type of its value; a value that is always
/// missing has none.
pub proof fn declarations_take_the_type_of_their_value(
    cx: Place,
    env: Vars,
    s: StmtV,
    name: Seq<char>,
    value: ExprV,
)
    requires
        s.kind == (StmtKindV::Let { name, ty: None, value }),
    ensures
        check_stmt(cx, env, s) is Ok <==> (type_of(cx.prog, env, value) matches Ok(t) && !(t
            is Null)),
        check_stmt(cx, env, s) matches Ok(after) ==> after == env.push(
            (name, type_of(cx.prog, env, value)->Ok_0),
        ),
{
}

/// What can be printed: numbers, truth values and texts.
pub proof fn plain_values_are_printed(cx: Place, env: Vars, s: StmtV, e: ExprV)
    requires
        s.kind == StmtKindV::Print(e),
    ensures
        check_stmt(cx, env, s) is Ok <==> (type_of(cx.prog, env, e) matches Ok(t) && (t is Int || t
            is Float || t is Bool || t is Str)),
        check_stmt(cx, env, s) matches Ok(after) ==> after == env,
{
}

/// A function returns what suits its type.
pub proof fn returns_suit_the_function(cx: Place, env: Vars, s: StmtV, e: ExprV)
    requires
        s.kind == StmtKindV::Return(e),
    ensures
        check_stmt(cx, env, s) is Ok <==> suits(cx.prog, env, e, cx.ret),
        check_stmt(cx, env, s) matches Ok(after) ==> after == env,
{
}

/// A variable is assigned what suits its type; it is no variant.
pub proof fn assignments_suit_their_targets(
    cx: Place,
    env: Vars,
    s: StmtV,
    target: ExprV,
    value: ExprV,
)
    requires
        s.kind == (StmtKindV::Assign { target, value }),
        target.kind is Var || target.kind is Field || target.kind is Index,
    ensures
        check_stmt(cx, env, s) is Ok <==> {
            &&& type_of(cx.prog, env, target) matches Ok(t) && suits(cx.prog, env, value, t)
            &&& target.kind matches ExprKindV::Var(name) ==> variant_named(cx.prog, name) is None
            &&& target.kind matches ExprKindV::Index { array, index } ==> type_of(
                cx.prog,
                env,
                *array,
            ) != Ok::<Ty, crate::diagnostics::DiagV>(Ty::Str)
        },
        check_stmt(cx, env, s) matches Ok(after) ==> after == env,
{
}

/// A branch and a loop are accepted where their condition is a truth value and their bodies
/// are accepted, that of a loop as one in which it can be left; what they declare is gone
/// behind them.
pub proof fn conditions_are_truth_values(
    cx: Place,
    env: Vars,
    s: StmtV,
    cond: ExprV,
    a: Seq<StmtV>,
    b: Seq<StmtV>,
)
    ensures
        s.kind == (StmtKindV::If { cond, then_body: a, else_body: b }) ==> (check_stmt(cx, env, s)
            is Ok <==> type_of(cx.prog, env, cond) == Ok::<Ty, crate::diagnostics::DiagV>(Ty::Bool)
            && check_stmts(cx, env, a, 0) is Ok && check_stmts(cx, env, b, 0) is Ok),
        s.kind == (StmtKindV::While { cond, body: a }) ==> (check_stmt(cx, env, s) is Ok
            <==> type_of(cx.prog, env, cond) == Ok::<Ty, crate::diagnostics::DiagV>(Ty::Bool)
            && check_stmts(Place { in_loop: true, ..cx }, env, a, 0) is Ok),
        (s.kind is If || s.kind is While) && check_stmt(cx, env, s) is Ok ==> check_stmt(
            cx,
            env,
            s,
        )->Ok_0 == env,
{
}

/// A loop can be left, and started anew, only from inside one.
pub proof fn loops_are_left_from_inside(cx: Place, env: Vars, s: StmtV)
    requires
        s.kind is Break || s.kind is Continue,
    ensures
        check_stmt(cx, env, s) is Ok <==> cx.in_loop,
        check_stmt(cx, env, s) matches Ok(after) ==> after == env,
{
}

/// A loop over a collection declares its variable for its body: an element of an array, or a
/// key of a map.
pub proof fn loops_run_over_collections(
    cx: Place,
    env: Vars,
    s: StmtV,
    var: Seq<char>,
    iter: ExprV,
    body: Seq<StmtV>,
)
    requires
        s.kind == (StmtKindV::ForIn { var, iter, body }),
    ensures
        check_stmt(cx, env, s) is Ok <==> {
            let inside = Place { in_loop: true, ..cx };
            ||| exists|t: Ty|
                type_of(cx.prog, env, iter) == Ok::<Ty, crate::diagnostics::DiagV>(
                    Ty::Array(Box::new(t)),
                ) && #[trigger] check_stmts(inside, env.push((var, t)), body, 0) is Ok
            ||| (type_of(cx.prog, env, iter) matches Ok(Ty::MapOf(_))) && check_stmts(
                inside,
                env.push((var, Ty::Str)),
                body,
                0,
            ) is Ok
        },
        check_stmt(cx, env, s) matches Ok(after) ==> after == env,
{
    if let Ok(Ty::Array(t)) = type_of(cx.prog, env, iter) {
        let inside = Place { in_loop: true, ..cx };
        assert(Ty::Array(t) == Ty::Array(Box::new(*t)));
        let ghost_env = env.push((var, *t));
        if check_stmts(inside, ghost_env, body, 0) is Ok {
            assert(check_stmts(inside, env.push((var, *t)), body, 0) is Ok);
        }
    }
}

/// A counting loop: what its head declares is known in its condition, its body and its step.
pub proof fn counting_loops_declare_for_themselves(
    cx: Place,
    env: Vars,
    s: StmtV,
    init: Option<Box<StmtV>>,
    cond: ExprV,
    step: Option<Box<StmtV>>,
    body: Seq<StmtV>,
)
    requires
        s.kind == (StmtKindV::For { init, cond, step, body }),
    ensures
        check_stmt(cx, env, s) is Ok <==> {
            let inside = Place { in_loop: true, ..cx };
            &&& check_opt(cx, env, init) matches Ok(inner)
            &&& type_of(cx.prog, inner, cond) == Ok::<Ty, crate::diagnostics::DiagV>(Ty::Bool)
            &&& check_stmts(inside, inner, body, 0) is Ok
            &&& check_opt(cx, inner, step) is Ok
        },
        check_stmt(cx, env, s) matches Ok(after) ==> after == env,
{
}

proof fn lemma_missing(vs: Seq<EnumVariantV>, arms: Seq<MatchArmV>, n: int, i: int)
    requires
        0 <= i <= vs.len(),
    ensures
        missing_variants(vs, arms, n, i).len() == 0 <==> forall|k: int|
            i <= k < vs.len() ==> covered(arms, (#[trigger] vs[k]).name, n),
    decreases vs.len() - i,
{
    if i < vs.len() {
        lemma_missing(vs, arms, n, i + 1);
        if covered(arms, vs[i].name, n) {
            if missing_variants(vs, arms, n, i + 1).len() == 0 {
                assert forall|k: int| i <= k < vs.len() implies covered(
                    arms,
                    (#[trigger] vs[k]).name,
                    n,
                ) by {
                    if k > i {
                        assert(i + 1 <= k);
                    }
                }
            }
        }
    }
}

/// A value is taken apart in every case: where a `match` is accepted, what it takes apart is
/// of a sum type, and one of its arms holds of everything, or there is one for each variant.
pub proof fn matches_cover_every_variant(
    cx: Place,
    env: Vars,
    s: StmtV,
    scrut: ExprV,
    arms: Seq<MatchArmV>,
)
    requires
        s.kind == (StmtKindV::Match { scrut, arms }),
        check_stmt(cx, env, s) is Ok,
    ensures
        ({
            &&& type_of(cx.prog, env, scrut) matches Ok(Ty::Enum(name))
            &&& enum_named(cx.prog, name) matches Some(def)
            &&& (exists|j: int| 0 <= j < arms.len() && (#[trigger] arms[j]).wildcard) || (forall|
                k: int,
            |
                0 <= k < def.variants.len() ==> exists|j: int|
                    0 <= j < arms.len() && !(#[trigger] arms[j]).wildcard && arms[j].variant == (
                    #[trigger] def.variants[k]).name)
        }),
        check_stmt(cx, env, s) matches Ok(after) ==> after == env,
{
    let def = scrut_enum(cx.prog, env, scrut)->Ok_0;
    let n = arms.len() as int;
    lemma_missing(def.variants, arms, n, 0);
    assert(exhaustive(def, arms, s.span) is Ok);
    if !caught(arms, n) {
        assert forall|k: int| 0 <= k < def.variants.len() implies exists|j: int|
            0 <= j < arms.len() && !(#[trigger] arms[j]).wildcard && arms[j].variant == (
            #[trigger] def.variants[k]).name by {
            assert(covered(arms, def.variants[k].name, n));
        }
    }
}

} // verus!
