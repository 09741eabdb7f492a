//! What the code and the meaning of a `match` are made of.
use vstd::prelude::*;
#[allow(unused_imports)]
use crate::ast::{EnumDefV, MatchArmV, ProgramV, StmtV};
#[allow(unused_imports)]
use crate::faithful::anatomy::{code_at, null_at, sense, typed};
#[allow(unused_imports)]
use crate::faithful::machine::placed_row;
#[allow(unused_imports)]
use crate::faithful::rowcode::{code_length, code_load, code_null, row_ok};
#[allow(unused_imports)]
use crate::faithful::stmt_anatomy::{
    arms_ok, lemma_tenv_push, sole, stmt_at, stmt_ok, stmt_sense, stmts_at, stmts_ok, stmts_sense,
    with_var,
};
#[allow(unused_imports)]
use crate::flow::tag_index;
#[allow(unused_imports)]
use crate::ir::{basic_ty, CodeV, OpndV};
#[allow(unused_imports)]
use crate::lowering::{
    bind_payload, inner, lower_arms, new_slot, set_var, tenv, then_code, Arms, Gen, VarV,
};
#[allow(unused_imports)]
use crate::meaning::{
    arm, arm_tag, arm_tags, bound_names, cut, ended, expr, length_row, load_row, null_row, payload,
    stmts, value_of, variant_arms, wildcard_arm, After, Base, Names, Value, Values,
};
#[allow(unused_imports)]
use crate::types::Ty;
#[allow(unused_imports)]
use crate::typing::{arm_env, check_arms, check_stmts, resolve, scrut_enum, variant_index, Place};

verus! {

/// The sum type that a `match` takes apart.
#[verifier::opaque]
pub open spec fn match_def(p: ProgramV, vars: Seq<VarV>, s: StmtV) -> EnumDefV {
    scrut_enum(p, tenv(vars), sole(s))->Ok_0
}

/// The payload of the variant that an arm is for.
pub open spec fn arm_fields(def: EnumDefV, a: MatchArmV) -> Seq<Ty> {
    def.variants[variant_index(def.variants, a.variant, 0)].fields
}

#[verifier::opaque]
pub open spec fn bind_at(
    p: ProgramV,
    vars: Seq<VarV>,
    g: Gen,
    v: OpndV,
    names: Seq<Seq<char>>,
    fields: Seq<Ty>,
    i: int,
) -> (Gen, Seq<VarV>) {
    bind_payload(p, vars, g, v, names, fields, i)
}

#[verifier::opaque]
pub open spec fn payload_sense<V, W>(
    b: Base<V, W>,
    p: ProgramV,
    vals: Seq<V>,
    v: V,
    names: Seq<Seq<char>>,
    fields: Seq<Ty>,
    i: int,
    w: W,
) -> Values<V, W> {
    payload(b, p, vals, v, names, fields, i, w)
}

/// The type of a value of a payload.
#[verifier::opaque]
pub open spec fn payload_ty(p: ProgramV, fields: Seq<Ty>, i: int) -> Ty {
    resolve(p, fields[i])
}

pub proof fn parts_of_bind(
    p: ProgramV,
    vars: Seq<VarV>,
    g: Gen,
    v: OpndV,
    names: Seq<Seq<char>>,
    fields: Seq<Ty>,
    i: int,
)
    requires
        0 <= i <= names.len(),
    ensures
        i == names.len() ==> bind_at(p, vars, g, v, names, fields, i) == (g, vars),
        i < names.len() ==> {
            let t = payload_ty(p, fields, i);
            let r = load_row(basic_ty(t), (i + 1) as usize);
            let (g1, x) = placed_row(g, r, seq![v]);
            let slot = g1.slots.len() as usize;
            let g2 = set_var(new_slot(g1, basic_ty(t)), slot, x);
            &&& row_ok(r)
            &&& bind_at(p, vars, g, v, names, fields, i) == bind_at(
                p,
                with_var(vars, names[i], slot, t),
                g2,
                v,
                names,
                fields,
                i + 1,
            )
        },
{
    reveal(bind_at);
    reveal(payload_ty);
    if i < names.len() {
        code_load(g, basic_ty(resolve(p, fields[i])), v, (i + 1) as usize);
    }
}

pub proof fn sense_of_payload<V, W>(
    b: Base<V, W>,
    p: ProgramV,
    vals: Seq<V>,
    v: V,
    names: Seq<Seq<char>>,
    fields: Seq<Ty>,
    i: int,
    w: W,
)
    requires
        0 <= i <= names.len(),
    ensures
        i == names.len() ==> payload_sense(b, p, vals, v, names, fields, i, w) == Values::Are(
            vals,
            w,
        ),
        i < names.len() ==> {
            let r = load_row(basic_ty(payload_ty(p, fields, i)), (i + 1) as usize);
            payload_sense(b, p, vals, v, names, fields, i, w) == match value_of(b, r, seq![v], w) {
                Value::Is(x, w1) => payload_sense(
                    b,
                    p,
                    vals.push(x),
                    v,
                    names,
                    fields,
                    i + 1,
                    w1,
                ),
                Value::Halt(msg, w1) => Values::Halt(msg, w1),
                Value::Stop(w1) => Values::Stop(w1),
            }
        },
{
    reveal(payload_sense);
    reveal(payload_ty);
}

/// The variables of an arm are the ones that the type checker has.
pub proof fn bind_is_named(
    p: ProgramV,
    vars: Seq<VarV>,
    g: Gen,
    v: OpndV,
    names: Seq<Seq<char>>,
    fields: Seq<Ty>,
    i: int,
)
    requires
        0 <= i <= names.len(),
    ensures
        tenv(bind_at(p, vars, g, v, names, fields, i).1) == bound_names(
            p,
            tenv(vars),
            names,
            fields,
            i,
        ),
        tenv(bind_at(p, vars, g, v, names, fields, i).1) == tenv(vars) + Seq::new(
            (names.len() - i) as nat,
            |j: int| (names[i + j], resolve(p, fields[i + j])),
        ),
    decreases names.len() - i,
{
    parts_of_bind(p, vars, g, v, names, fields, i);
    if i < names.len() {
        let t = payload_ty(p, fields, i);
        let (g1, x) = placed_row(g, load_row(basic_ty(t), (i + 1) as usize), seq![v]);
        let slot = g1.slots.len() as usize;
        let g2 = set_var(new_slot(g1, basic_ty(t)), slot, x);
        let more = with_var(vars, names[i], slot, t);
        lemma_tenv_push(vars, names[i], slot, t);
        bind_is_named(p, more, g2, v, names, fields, i + 1);
        reveal(payload_ty);
        let all = Seq::new(
            (names.len() - i) as nat,
            |j: int| (names[i + j], resolve(p, fields[i + j])),
        );
        let rest = Seq::new(
            (names.len() - (i + 1)) as nat,
            |j: int| (names[i + 1 + j], resolve(p, fields[i + 1 + j])),
        );
        assert(tenv(vars) + all =~= tenv(more) + rest);
    } else {
        assert(tenv(vars) =~= tenv(vars) + Seq::new(
            (names.len() - i) as nat,
            |j: int| (names[i + j], resolve(p, fields[i + j])),
        ));
    }
}

/// The code of an arm, after code that ends with `last`.
pub open spec fn arm_gen(
    p: ProgramV,
    vars: Seq<VarV>,
    last: Gen,
    v: OpndV,
    def: EnumDefV,
    a: MatchArmV,
) -> Gen {
    let (b1, inside) = arm_start(p, vars, last, v, def, a);
    stmts_at(p, inside, b1, a.body, 0)
}

/// The code of an arm before its statements, and its variables.
pub open spec fn arm_start(
    p: ProgramV,
    vars: Seq<VarV>,
    last: Gen,
    v: OpndV,
    def: EnumDefV,
    a: MatchArmV,
) -> (Gen, Seq<VarV>) {
    if a.wildcard {
        (inner(last), vars)
    } else {
        bind_at(p, vars, inner(last), v, a.bindings, arm_fields(def, a), 0)
    }
}

/// The first `k` arms.
pub open spec fn arms_upto(
    p: ProgramV,
    vars: Seq<VarV>,
    g: Gen,
    v: OpndV,
    def: EnumDefV,
    arms: Seq<MatchArmV>,
    k: nat,
) -> Arms
    decreases k,
{
    if k == 0 {
        Arms { tags: Seq::empty(), cases: Seq::empty(), default: Seq::empty(), last: inner(g) }
    } else {
        let out = arms_upto(p, vars, g, v, def, arms, (k - 1) as nat);
        let a = arms[k - 1];
        let h = arm_gen(p, vars, out.last, v, def, a);
        if a.wildcard {
            Arms { tags: out.tags, cases: out.cases, default: h.code, last: h }
        } else {
            Arms {
                tags: out.tags.push(arm_tag(def, a)),
                cases: out.cases.push(h.code),
                default: out.default,
                last: h,
            }
        }
    }
}

/// The code of arm `k`.
pub open spec fn arm_code(
    p: ProgramV,
    vars: Seq<VarV>,
    g: Gen,
    v: OpndV,
    def: EnumDefV,
    arms: Seq<MatchArmV>,
    k: int,
) -> Gen {
    arm_gen(p, vars, arms_upto(p, vars, g, v, def, arms, k as nat).last, v, def, arms[k])
}

proof fn lemma_upto(
    p: ProgramV,
    vars: Seq<VarV>,
    g: Gen,
    v: OpndV,
    def: EnumDefV,
    arms: Seq<MatchArmV>,
    k: nat,
)
    requires
        k <= arms.len(),
    ensures
        lower_arms(p, vars, arms_upto(p, vars, g, v, def, arms, k), v, def, arms, k as int)
            == arms_upto(p, vars, g, v, def, arms, arms.len()),
    decreases arms.len() - k,
{
    if k < arms.len() {
        lemma_upto(p, vars, g, v, def, arms, k + 1);
        reveal(stmts_at);
        reveal(bind_at);
        assert(arms_upto(p, vars, g, v, def, arms, k + 1).last == arm_code(
            p,
            vars,
            g,
            v,
            def,
            arms,
            k as int,
        ));
    }
}

/// What the first `k` arms are lowered to.
pub proof fn lemma_arms(
    p: ProgramV,
    vars: Seq<VarV>,
    g: Gen,
    v: OpndV,
    def: EnumDefV,
    arms: Seq<MatchArmV>,
    k: nat,
)
    requires
        k <= arms.len(),
    ensures
        ({
            let out = arms_upto(p, vars, g, v, def, arms, k);
            let which = variant_arms(arms, k);
            &&& out.tags == arm_tags(def, arms, which)
            &&& out.cases.len() == which.len()
            &&& forall|j: int|
                0 <= j < which.len() ==> 0 <= #[trigger] which[j] < k && !arms[which[j]].wildcard
                    && out.cases[j] == arm_code(p, vars, g, v, def, arms, which[j]).code
            &&& match wildcard_arm(arms, k) {
                Some(j) => 0 <= j < k && arms[j].wildcard && out.default == arm_code(
                    p,
                    vars,
                    g,
                    v,
                    def,
                    arms,
                    j,
                ).code,
                None => out.default == Seq::<CodeV>::empty(),
            }
        }),
    decreases k,
{
    if k > 0 {
        lemma_arms(p, vars, g, v, def, arms, (k - 1) as nat);
        let before = arms_upto(p, vars, g, v, def, arms, (k - 1) as nat);
        let out = arms_upto(p, vars, g, v, def, arms, k);
        let which = variant_arms(arms, k);
        let rest = variant_arms(arms, (k - 1) as nat);
        assert(out.last == arm_code(p, vars, g, v, def, arms, k - 1));
        if !arms[k - 1].wildcard {
            assert(out.tags =~= arm_tags(def, arms, which));
            assert forall|j: int| 0 <= j < which.len() implies 0 <= #[trigger] which[j] < k
                && !arms[which[j]].wildcard && out.cases[j] == arm_code(
                p,
                vars,
                g,
                v,
                def,
                arms,
                which[j],
            ).code by {
                if j < rest.len() {
                    assert(which[j] == rest[j]);
                }
            }
        }
    } else {
        assert(arm_tags(def, arms, Seq::empty()) =~= Seq::empty());
    }
}

pub proof fn parts_of_match(cx: Place, vars: Seq<VarV>, g: Gen, s: StmtV)
    requires
        stmt_ok(cx, vars, s),
        s.kind is Match,
    ensures
        ({
            let p = cx.prog;
            let arms = s.kind->Match_arms;
            let def = match_def(p, vars, s);
            let (g1, v) = code_at(p, vars, g, sole(s));
            let (g3, tag) = placed_row(null_at(g1, v), length_row(Ty::Null), seq![v]);
            let out = arms_upto(p, vars, g3, v, def, arms, arms.len());
            &&& typed(p, vars, sole(s))
            &&& arms_ok(cx, vars, def, arms)
            &&& row_ok(length_row(Ty::Null))
            &&& stmt_at(p, vars, g, s) == (
                then_code(
                    g3,
                    CodeV::Switch {
                        on: tag,
                        tags: out.tags,
                        cases: out.cases,
                        default: out.default,
                    },
                    out.last,
                ),
                vars,
            )
        }),
{
    let p = cx.prog;
    let arms = s.kind->Match_arms;
    let def = match_def(p, vars, s);
    let (g1, v) = code_at(p, vars, g, sole(s));
    code_null(g1, v);
    code_length(null_at(g1, v), v, Ty::Null);
    let (g3, tag) = placed_row(null_at(g1, v), length_row(Ty::Null), seq![v]);
    lemma_upto(p, vars, g3, v, def, arms, 0);
    reveal(match_def);
    reveal(stmt_ok);
    reveal(arms_ok);
    reveal(typed);
    reveal(code_at);
    reveal(stmt_at);
}

/// What the chosen arm of a `match` on `v` means.
#[verifier::opaque]
pub open spec fn arm_sense<V, W>(
    b: Base<V, W>,
    p: ProgramV,
    vars: Seq<VarV>,
    vals: Seq<V>,
    def: EnumDefV,
    a: MatchArmV,
    v: V,
    w: W,
    fuel: nat,
) -> Option<After<V, W>> {
    if a.wildcard {
        stmts(b, p, tenv(vars), vals, a.body, 0, w, fuel)
    } else {
        let fields = arm_fields(def, a);
        match payload(b, p, vals, v, a.bindings, fields, 0, w) {
            Values::Are(vals1, w1) => stmts(
                b,
                p,
                bound_names(p, tenv(vars), a.bindings, fields, 0),
                vals1,
                a.body,
                0,
                w1,
                fuel,
            ),
            Values::Halt(msg, w1) => Some(After::Halt(msg, w1)),
            Values::Stop(w1) => Some(After::Stop(w1)),
        }
    }
}

pub proof fn sense_of_arm<V, W>(
    b: Base<V, W>,
    p: ProgramV,
    vars: Seq<VarV>,
    vals: Seq<V>,
    last: Gen,
    o: OpndV,
    def: EnumDefV,
    a: MatchArmV,
    v: V,
    w: W,
    fuel: nat,
)
    ensures
        ({
            let inside = arm_start(p, vars, last, o, def, a).1;
            arm_sense(b, p, vars, vals, def, a, v, w, fuel) == if a.wildcard {
                stmts_sense(b, p, vars, vals, a.body, 0, w, fuel)
            } else {
                match payload_sense(b, p, vals, v, a.bindings, arm_fields(def, a), 0, w) {
                    Values::Are(vals1, w1) => stmts_sense(
                        b,
                        p,
                        inside,
                        vals1,
                        a.body,
                        0,
                        w1,
                        fuel,
                    ),
                    Values::Halt(msg, w1) => Some(After::Halt(msg, w1)),
                    Values::Stop(w1) => Some(After::Stop(w1)),
                }
            }
        }),
{
    if !a.wildcard {
        bind_is_named(p, vars, inner(last), o, a.bindings, arm_fields(def, a), 0);
    }
    reveal(arm_sense);
    reveal(stmts_sense);
    reveal(payload_sense);
}

/// What comes of a `match` on `v`, which is of the variant with this index.
pub open spec fn arms_sense<V, W>(
    b: Base<V, W>,
    p: ProgramV,
    vars: Seq<VarV>,
    vals: Seq<V>,
    def: EnumDefV,
    arms: Seq<MatchArmV>,
    v: V,
    tag: int,
    w: W,
    fuel: nat,
) -> Option<After<V, W>> {
    let which = variant_arms(arms, arms.len());
    let j = tag_index(arm_tags(def, arms, which), tag, 0);
    if 0 <= j < which.len() {
        arm_sense(b, p, vars, vals, def, arms[which[j]], v, w, fuel)
    } else {
        match wildcard_arm(arms, arms.len()) {
            Some(k) => arm_sense(b, p, vars, vals, def, arms[k], v, w, fuel),
            None => Some(After::Next(vals, w)),
        }
    }
}

proof fn lemma_arms_sense<V, W>(
    b: Base<V, W>,
    p: ProgramV,
    vars: Seq<VarV>,
    vals: Seq<V>,
    def: EnumDefV,
    arms: Seq<MatchArmV>,
    v: V,
    tag: int,
    w: W,
    fuel: nat,
)
    ensures
        arm(b, p, tenv(vars), vals, def, arms, v, tag, w, fuel) == arms_sense(
            b,
            p,
            vars,
            vals,
            def,
            arms,
            v,
            tag,
            w,
            fuel,
        ),
{
    let g = Gen { code: Seq::empty(), regs: Seq::empty(), slots: Seq::empty() };
    lemma_arms(p, vars, g, OpndV::Null, def, arms, arms.len());
    let which = variant_arms(arms, arms.len());
    let j = tag_index(arm_tags(def, arms, which), tag, 0);
    if 0 <= j < which.len() {
        assert(0 <= which[j] < arms.len());
    }
    reveal(arm_sense);
}

pub proof fn sense_of_match<V, W>(
    b: Base<V, W>,
    p: ProgramV,
    vars: Seq<VarV>,
    vals: Seq<V>,
    s: StmtV,
    w: W,
    fuel: nat,
)
    requires
        s.kind is Match,
    ensures
        stmt_sense(b, p, vars, vals, s, w, fuel) == match sense(b, p, vars, vals, sole(s), w) {
            Value::Is(v, w1) => match value_of(b, null_row(), seq![v], w1) {
                Value::Is(_, w2) => match value_of(b, length_row(Ty::Null), seq![v], w2) {
                    Value::Is(tag, w3) => cut(
                        arms_sense(
                            b,
                            p,
                            vars,
                            vals,
                            match_def(p, vars, s),
                            s.kind->Match_arms,
                            v,
                            (b.number)(tag),
                            w3,
                            fuel,
                        ),
                        vals.len(),
                    ),
                    other => ended(other),
                },
                other => ended(other),
            },
            other => ended(other),
        },
{
    let def = match_def(p, vars, s);
    if let Value::Is(v, w1) = expr(b, p, tenv(vars), vals, sole(s), w) {
        if let Value::Is(_, w2) = value_of(b, null_row(), seq![v], w1) {
            if let Value::Is(tag, w3) = value_of(b, length_row(Ty::Null), seq![v], w2) {
                let arms = s.kind->Match_arms;
                lemma_arms_sense(b, p, vars, vals, def, arms, v, (b.number)(tag), w3, fuel);
            }
        }
    }
    reveal(stmt_sense);
    reveal(sense);
    reveal(match_def);
}

proof fn lemma_arms_ok(cx: Place, env: Names, def: EnumDefV, arms: Seq<MatchArmV>, i: int, k: int)
    requires
        0 <= i <= k < arms.len(),
        check_arms(cx, env, def, arms, i) is Ok,
    ensures
        check_stmts(cx, arm_env(cx.prog, env, def, arms[k]), arms[k].body, 0) is Ok,
    decreases k - i,
{
    if i < k {
        lemma_arms_ok(cx, env, def, arms, i + 1, k);
    }
}

/// The statements of an arm are accepted with its variables.
pub proof fn arm_is_ok(
    cx: Place,
    vars: Seq<VarV>,
    last: Gen,
    v: OpndV,
    def: EnumDefV,
    arms: Seq<MatchArmV>,
    k: int,
)
    requires
        arms_ok(cx, vars, def, arms),
        0 <= k < arms.len(),
    ensures
        stmts_ok(cx, arm_start(cx.prog, vars, last, v, def, arms[k]).1, arms[k].body, 0),
{
    let a = arms[k];
    reveal(arms_ok);
    lemma_arms_ok(cx, tenv(vars), def, arms, 0, k);
    if !a.wildcard {
        let fields = arm_fields(def, a);
        bind_is_named(cx.prog, vars, inner(last), v, a.bindings, fields, 0);
        let inside = arm_start(cx.prog, vars, last, v, def, a).1;
        assert(tenv(inside) =~= arm_env(cx.prog, tenv(vars), def, a));
    }
    reveal(stmts_ok);
}

} // verus!
