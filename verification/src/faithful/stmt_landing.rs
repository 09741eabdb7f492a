//! What it takes that the code of statements does what the statements mean.
use vstd::prelude::*;
#[allow(unused_imports)]
use crate::faithful::exprs::ready;
#[allow(unused_imports)]
use crate::faithful::landing::{env_ok, lands, lands_row, moves};
#[allow(unused_imports)]
use crate::faithful::machine::{
    begins, extends, go, keeps, lemma_begins, lemma_last, machine, opnd_val, State,
};
#[allow(unused_imports)]
use crate::faithful::shapes::lemma_grows;
#[allow(unused_imports)]
use crate::faithful::stmt_anatomy::with_var;
#[allow(unused_imports)]
use crate::faithful::stmt_shapes::{grown, held, lemma_grown_self, lemma_held};
#[allow(unused_imports)]
use crate::flow::{run, run_case, run_loop, run_step, tag_index, Out};
#[allow(unused_imports)]
use crate::ir::{CodeV, OpndV};
#[allow(unused_imports)]
use crate::lowering::{set_var, then_code, Gen, VarV};
#[allow(unused_imports)]
use crate::meaning::{cut, effect, ended, After, Base, Done, RowEnd, Value};
#[allow(unused_imports)]
use crate::types::Ty;

verus! {

/// The variables have these values.
#[verifier::opaque]
pub open spec fn holds_vals<V, W>(vars: Seq<VarV>, s: State<V, W>, vals: Seq<V>) -> bool {
    &&& vals.len() == vars.len()
    &&& forall|i: int|
        0 <= i < vars.len() ==> s.vars[(#[trigger] vars[i]).slot as nat] == vals[i]
}

/// A slot that holds none of the variables.
pub open spec fn is_free(vars: Seq<VarV>, k: nat) -> bool {
    forall|i: int| 0 <= i < vars.len() ==> (#[trigger] vars[i]).slot != k
}

/// The registers of `g`, and the slots of `g` that hold none of the variables, are as they
/// were.
#[verifier::opaque]
pub open spec fn stays<V, W>(s: State<V, W>, t: State<V, W>, vars: Seq<VarV>, g: Gen) -> bool {
    &&& forall|r: nat| r < g.regs.len() ==> #[trigger] t.regs[r] == s.regs[r]
    &&& forall|k: nat|
        k < g.slots.len() && is_free(vars, k) ==> #[trigger] t.vars[k] == s.vars[k]
}

/// In the state `t`, the variables have the first of these values.
pub open spec fn has_come<V, W>(
    vars: Seq<VarV>,
    g: Gen,
    s: State<V, W>,
    t: State<V, W>,
    vs: Seq<V>,
    w: W,
) -> bool {
    &&& t.w == w
    &&& vars.len() <= vs.len()
    &&& holds_vals(vars, t, vs.take(vars.len() as int))
    &&& stays(s, t, vars, g)
}

/// What comes of code is what comes of statements.
pub open spec fn comes<V, W>(
    b: Base<V, W>,
    vars: Seq<VarV>,
    g: Gen,
    s: State<V, W>,
    out: Option<Out<State<V, W>>>,
    t: State<V, W>,
    a: Option<After<V, W>>,
) -> bool {
    match a {
        None => out is None,
        Some(After::Next(vs, w)) => out == Some(Out::End(t)) && has_come(vars, g, s, t, vs, w),
        Some(After::Brk(vs, w)) => out == Some(Out::Brk(t)) && has_come(vars, g, s, t, vs, w),
        Some(After::Cont(vs, w)) => out == Some(Out::Cont(t)) && has_come(vars, g, s, t, vs, w),
        Some(After::Ret(v, w)) => match out {
            Some(Out::Ret(t1, o)) => t1.w == w && opnd_val(b, t1, o) == v,
            _ => false,
        },
        Some(After::Halt(msg, w)) => match out {
            Some(Out::Halt(t1, m)) => t1.w == w && m == msg,
            _ => false,
        },
        Some(After::Stop(w)) => match out {
            Some(Out::Stop(t1)) => t1.w == w,
            _ => false,
        },
    }
}

/// From the end of `g`, the run does what statements do, and goes on at the end of `h`.
pub open spec fn block_ends<V, W>(
    b: Base<V, W>,
    cs: Seq<CodeV>,
    g: Gen,
    h: Gen,
    vars: Seq<VarV>,
    s: State<V, W>,
    t: State<V, W>,
    fuel: nat,
    a: Option<After<V, W>>,
) -> bool {
    match a {
        Some(After::Next(vs, w)) => {
            &&& go(b, cs, g.code.len(), s, fuel) == go(b, cs, h.code.len(), t, fuel)
            &&& has_come(vars, g, s, t, vs, w)
        },
        _ => comes(b, vars, g, s, go(b, cs, g.code.len(), s, fuel), t, a),
    }
}

/// From the end of `g`, the run does what a statement does, and goes on at the end of `h`
/// with the variables `after`.
pub open spec fn stmt_ends<V, W>(
    b: Base<V, W>,
    cs: Seq<CodeV>,
    g: Gen,
    h: Gen,
    vars: Seq<VarV>,
    after: Seq<VarV>,
    s: State<V, W>,
    t: State<V, W>,
    fuel: nat,
    a: Option<After<V, W>>,
) -> bool {
    match a {
        Some(After::Next(vs, w)) => {
            &&& go(b, cs, g.code.len(), s, fuel) == go(b, cs, h.code.len(), t, fuel)
            &&& t.w == w
            &&& holds_vals(after, t, vs)
            &&& stays(s, t, vars, g)
        },
        _ => comes(b, vars, g, s, go(b, cs, g.code.len(), s, fuel), t, a),
    }
}

/// The variables have these values in slots of `g`, and the code goes on with that of `last`.
pub open spec fn able<V, W>(
    vars: Seq<VarV>,
    vals: Seq<V>,
    cs: Seq<CodeV>,
    g: Gen,
    last: Gen,
    s: State<V, W>,
) -> bool {
    &&& held(vars, g)
    &&& holds_vals(vars, s, vals)
    &&& begins(cs, last)
    &&& last.slots.len() <= usize::MAX
}

pub proof fn lemma_ready<V, W>(
    vars: Seq<VarV>,
    vals: Seq<V>,
    cs: Seq<CodeV>,
    g: Gen,
    last: Gen,
    s: State<V, W>,
)
    requires
        able(vars, vals, cs, g, last, s),
    ensures
        ready(vars, vals, cs, g, last, s),
{
    reveal(held);
    reveal(holds_vals);
    reveal(env_ok);
}

pub proof fn lemma_able_less<V, W>(
    vars: Seq<VarV>,
    vals: Seq<V>,
    cs: Seq<CodeV>,
    g: Gen,
    h: Gen,
    last: Gen,
    s: State<V, W>,
)
    requires
        able(vars, vals, cs, g, last, s),
        extends(h, last),
    ensures
        able(vars, vals, cs, g, h, s),
{
    lemma_begins(cs, h, last);
    lemma_grows(h, last);
}

pub proof fn lemma_vals_kept<V, W>(
    vars: Seq<VarV>,
    vals: Seq<V>,
    g: Gen,
    s: State<V, W>,
    t: State<V, W>,
)
    requires
        held(vars, g),
        holds_vals(vars, s, vals),
        keeps(s, t, g),
    ensures
        holds_vals(vars, t, vals),
{
    reveal(held);
    reveal(holds_vals);
    reveal(keeps);
    assert forall|i: int| 0 <= i < vars.len() implies t.vars[(#[trigger] vars[i]).slot as nat]
        == vals[i] by {
        assert(s.vars[vars[i].slot as nat] == vals[i]);
    }
}

pub proof fn lemma_able_on<V, W>(
    vars: Seq<VarV>,
    vals: Seq<V>,
    cs: Seq<CodeV>,
    g: Gen,
    h: Gen,
    last: Gen,
    s: State<V, W>,
    t: State<V, W>,
)
    requires
        able(vars, vals, cs, g, last, s),
        keeps(s, t, g),
        extends(g, h),
    ensures
        able(vars, vals, cs, h, last, t),
{
    lemma_grows(g, h);
    lemma_held(vars, g, h);
    lemma_vals_kept(vars, vals, g, s, t);
}

pub proof fn lemma_stays_keeps<V, W>(s: State<V, W>, t: State<V, W>, vars: Seq<VarV>, g: Gen)
    requires
        keeps(s, t, g),
    ensures
        stays(s, t, vars, g),
{
    reveal(keeps);
    reveal(stays);
}

pub proof fn lemma_stays_self<V, W>(s: State<V, W>, vars: Seq<VarV>, g: Gen)
    ensures
        stays(s, s, vars, g),
{
    reveal(stays);
}

pub proof fn lemma_stays<V, W>(
    s: State<V, W>,
    t: State<V, W>,
    u: State<V, W>,
    vars: Seq<VarV>,
    g: Gen,
    h: Gen,
)
    requires
        stays(s, t, vars, g),
        stays(t, u, vars, h),
        g.regs.len() <= h.regs.len(),
        g.slots.len() <= h.slots.len(),
    ensures
        stays(s, u, vars, g),
{
    reveal(stays);
    assert forall|r: nat| r < g.regs.len() implies #[trigger] u.regs[r] == s.regs[r] by {
        assert(u.regs[r] == t.regs[r]);
        assert(t.regs[r] == s.regs[r]);
    }
    assert forall|k: nat| k < g.slots.len() && is_free(vars, k) implies #[trigger] u.vars[k]
        == s.vars[k] by {
        assert(u.vars[k] == t.vars[k]);
        assert(t.vars[k] == s.vars[k]);
    }
}

/// What stays with more variables stays with less.
pub proof fn lemma_stays_scope<V, W>(
    s: State<V, W>,
    t: State<V, W>,
    vars: Seq<VarV>,
    more: Seq<VarV>,
    g: Gen,
    h: Gen,
)
    requires
        stays(s, t, more, h),
        grown(vars, more, g),
        g.regs.len() <= h.regs.len(),
        g.slots.len() <= h.slots.len(),
    ensures
        stays(s, t, vars, g),
{
    reveal(stays);
    reveal(grown);
    assert forall|k: nat| k < g.slots.len() && is_free(vars, k) implies #[trigger] t.vars[k]
        == s.vars[k] by {
        assert(is_free(more, k)) by {
            assert forall|i: int| 0 <= i < more.len() implies (#[trigger] more[i]).slot != k by {
                if i < vars.len() {
                    assert(more.take(vars.len() as int)[i] == vars[i]);
                }
            }
        }
    }
}

/// The values of the first variables.
pub proof fn lemma_vals_scope<V, W>(
    vars: Seq<VarV>,
    more: Seq<VarV>,
    g: Gen,
    s: State<V, W>,
    vals: Seq<V>,
)
    requires
        grown(vars, more, g),
        holds_vals(more, s, vals),
    ensures
        vars.len() <= vals.len(),
        holds_vals(vars, s, vals.take(vars.len() as int)),
{
    reveal(holds_vals);
    reveal(grown);
    assert forall|i: int| 0 <= i < vars.len() implies s.vars[(#[trigger] vars[i]).slot as nat]
        == vals.take(vars.len() as int)[i] by {
        assert(more.take(vars.len() as int)[i] == more[i]);
        assert(s.vars[more[i].slot as nat] == vals[i]);
    }
}

pub proof fn lemma_vals_len<V, W>(vars: Seq<VarV>, s: State<V, W>, vals: Seq<V>)
    requires
        holds_vals(vars, s, vals),
    ensures
        vals.len() == vars.len(),
        vals.take(vars.len() as int) == vals,
{
    reveal(holds_vals);
    assert(vals.take(vars.len() as int) =~= vals);
}

pub proof fn lemma_has_come_scope<V, W>(
    vars: Seq<VarV>,
    more: Seq<VarV>,
    g: Gen,
    h: Gen,
    r: State<V, W>,
    s: State<V, W>,
    t: State<V, W>,
    vs: Seq<V>,
    w: W,
)
    requires
        has_come(more, h, s, t, vs, w),
        grown(vars, more, g),
        stays(r, s, vars, g),
        g.regs.len() <= h.regs.len(),
        g.slots.len() <= h.slots.len(),
    ensures
        has_come(vars, g, r, t, vs, w),
{
    lemma_vals_scope(vars, more, g, t, vs.take(more.len() as int));
    assert(vars.len() <= more.len()) by {
        reveal(grown);
    }
    assert(vs.take(more.len() as int).take(vars.len() as int) =~= vs.take(vars.len() as int));
    lemma_stays_scope(s, t, vars, more, g, h);
    lemma_stays(r, s, t, vars, g, g);
}

/// What came before, and fewer variables.
pub proof fn lemma_comes_scope<V, W>(
    b: Base<V, W>,
    vars: Seq<VarV>,
    more: Seq<VarV>,
    g: Gen,
    h: Gen,
    r: State<V, W>,
    s: State<V, W>,
    out: Option<Out<State<V, W>>>,
    t: State<V, W>,
    a: Option<After<V, W>>,
)
    requires
        comes(b, more, h, s, out, t, a),
        grown(vars, more, g),
        stays(r, s, vars, g),
        g.regs.len() <= h.regs.len(),
        g.slots.len() <= h.slots.len(),
    ensures
        comes(b, vars, g, r, out, t, a),
{
    match a {
        Some(After::Next(vs, w)) => lemma_has_come_scope(vars, more, g, h, r, s, t, vs, w),
        Some(After::Brk(vs, w)) => lemma_has_come_scope(vars, more, g, h, r, s, t, vs, w),
        Some(After::Cont(vs, w)) => lemma_has_come_scope(vars, more, g, h, r, s, t, vs, w),
        _ => {},
    }
}

/// The whole of a block.
pub proof fn lemma_whole<V, W>(
    b: Base<V, W>,
    g: Gen,
    h: Gen,
    vars: Seq<VarV>,
    s: State<V, W>,
    t: State<V, W>,
    fuel: nat,
    a: Option<After<V, W>>,
)
    requires
        block_ends(b, h.code, g, h, vars, s, t, fuel, a),
    ensures
        comes(b, vars, g, s, go(b, h.code, g.code.len(), s, fuel), t, a),
{
    reveal(go);
}

/// A statement is a block.
pub proof fn lemma_stmt_block<V, W>(
    b: Base<V, W>,
    cs: Seq<CodeV>,
    g: Gen,
    h: Gen,
    vars: Seq<VarV>,
    after: Seq<VarV>,
    s: State<V, W>,
    t: State<V, W>,
    fuel: nat,
    a: Option<After<V, W>>,
)
    requires
        stmt_ends(b, cs, g, h, vars, after, s, t, fuel, a),
        grown(vars, after, g),
    ensures
        block_ends(b, cs, g, h, vars, s, t, fuel, a),
{
    if let Some(After::Next(vs, w)) = a {
        lemma_vals_scope(vars, after, g, t, vs);
    }
}

/// What a statement does after a run that goes on.
pub proof fn lemma_chain<V, W>(
    b: Base<V, W>,
    cs: Seq<CodeV>,
    f: Gen,
    g: Gen,
    h: Gen,
    vars: Seq<VarV>,
    after: Seq<VarV>,
    r: State<V, W>,
    s: State<V, W>,
    t: State<V, W>,
    fuel: nat,
    a: Option<After<V, W>>,
)
    requires
        moves(b, cs, f, g, r, s, fuel),
        extends(f, g),
        stmt_ends(b, cs, g, h, vars, after, s, t, fuel, a),
    ensures
        stmt_ends(b, cs, f, h, vars, after, r, t, fuel, a),
{
    lemma_grows(f, g);
    lemma_stays_keeps(r, s, vars, f);
    match a {
        Some(After::Next(vs, w)) => lemma_stays(r, s, t, vars, f, g),
        _ => {
            lemma_grown_self(vars, f);
            lemma_comes_scope(
                b,
                vars,
                vars,
                f,
                g,
                r,
                s,
                go(b, cs, g.code.len(), s, fuel),
                t,
                a,
            );
        },
    }
}

/// An expression of a statement ends the program.
pub proof fn lemma_value_end<V, W>(
    b: Base<V, W>,
    cs: Seq<CodeV>,
    g: Gen,
    r: (Gen, OpndV),
    h: Gen,
    vars: Seq<VarV>,
    after: Seq<VarV>,
    s: State<V, W>,
    t: State<V, W>,
    fuel: nat,
    v: Value<V, W>,
)
    requires
        lands(b, cs, g, r, s, t, fuel, v),
        !(v is Is),
    ensures
        stmt_ends(b, cs, g, h, vars, after, s, t, fuel, ended(v)),
{
}

/// The end of a statement that is a row.
pub proof fn lemma_effect<V, W>(
    b: Base<V, W>,
    cs: Seq<CodeV>,
    g: Gen,
    h: Gen,
    vars: Seq<VarV>,
    vals: Seq<V>,
    s: State<V, W>,
    t: State<V, W>,
    fuel: nat,
    e: RowEnd<V, W>,
)
    requires
        lands_row(b, cs, g, h, s, t, fuel, e),
        held(vars, g),
        holds_vals(vars, s, vals),
    ensures
        stmt_ends(b, cs, g, h, vars, vars, s, t, fuel, effect(e, vals)),
{
    if e is Done {
        lemma_vals_kept(vars, vals, g, s, t);
        lemma_stays_keeps(s, t, vars, g);
    }
}

/// Sets a slot.
pub proof fn lemma_set<V, W>(
    b: Base<V, W>,
    cs: Seq<CodeV>,
    g: Gen,
    slot: usize,
    v: OpndV,
    s: State<V, W>,
    fuel: nat,
) -> (t: State<V, W>)
    requires
        begins(cs, set_var(g, slot, v)),
    ensures
        t == (State {
            regs: s.regs,
            vars: s.vars.insert(slot as nat, opnd_val(b, s, v)),
            w: s.w,
        }),
        go(b, cs, g.code.len(), s, fuel) == go(b, cs, set_var(g, slot, v).code.len(), t, fuel),
{
    reveal(go);
    reveal(begins);
    let h = set_var(g, slot, v);
    lemma_last(cs, h);
    assert(cs[g.code.len() as int] == h.code.last());
    State { regs: s.regs, vars: s.vars.insert(slot as nat, opnd_val(b, s, v)), w: s.w }
}

/// A new variable is given its value.
pub proof fn lemma_new_var<V, W>(
    vars: Seq<VarV>,
    vals: Seq<V>,
    name: Seq<char>,
    ty: Ty,
    x: V,
    g: Gen,
    s: State<V, W>,
    t: State<V, W>,
)
    requires
        held(vars, g),
        holds_vals(vars, s, vals),
        g.slots.len() <= usize::MAX,
        t == (State { regs: s.regs, vars: s.vars.insert(g.slots.len(), x), w: s.w }),
    ensures
        holds_vals(with_var(vars, name, g.slots.len() as usize, ty), t, vals.push(x)),
        stays(s, t, vars, g),
        keeps(s, t, g),
{
    reveal(held);
    reveal(holds_vals);
    reveal(stays);
    reveal(keeps);
    let more = with_var(vars, name, g.slots.len() as usize, ty);
    assert forall|i: int| 0 <= i < more.len() implies t.vars[(#[trigger] more[i]).slot as nat]
        == vals.push(x)[i] by {
        if i < vars.len() {
            assert(s.vars[vars[i].slot as nat] == vals[i]);
            assert(vars[i].slot < g.slots.len());
        }
    }
}

/// A variable is given another value.
pub proof fn lemma_old_var<V, W>(
    vars: Seq<VarV>,
    vals: Seq<V>,
    i: int,
    x: V,
    g: Gen,
    s: State<V, W>,
    t: State<V, W>,
)
    requires
        held(vars, g),
        holds_vals(vars, s, vals),
        0 <= i < vars.len(),
        t == (State { regs: s.regs, vars: s.vars.insert(vars[i].slot as nat, x), w: s.w }),
    ensures
        holds_vals(vars, t, vals.update(i, x)),
        stays(s, t, vars, g),
{
    reveal(held);
    reveal(holds_vals);
    reveal(stays);
    assert forall|j: int| 0 <= j < vars.len() implies t.vars[(#[trigger] vars[j]).slot as nat]
        == vals.update(i, x)[j] by {
        assert(s.vars[vars[j].slot as nat] == vals[j]);
        if j < i {
            assert(vars[j].slot != vars[i].slot);
        } else if i < j {
            assert(vars[i].slot != vars[j].slot);
        }
    }
    assert forall|k: nat| k < g.slots.len() && is_free(vars, k) implies #[trigger] t.vars[k]
        == s.vars[k] by {
        assert(vars[i].slot != k);
    }
}

/// Code inside code, and then what is behind it.
pub proof fn lemma_wrap<V, W>(
    b: Base<V, W>,
    cs: Seq<CodeV>,
    g: Gen,
    h: Gen,
    vars: Seq<VarV>,
    s: State<V, W>,
    out: Option<Out<State<V, W>>>,
    t: State<V, W>,
    fuel: nat,
    a: Option<After<V, W>>,
)
    requires
        comes(b, vars, g, s, out, t, a),
        go(b, cs, g.code.len(), s, fuel) == match out {
            Some(Out::End(u)) => go(b, cs, h.code.len(), u, fuel),
            other => other,
        },
    ensures
        stmt_ends(b, cs, g, h, vars, vars, s, t, fuel, cut(a, vars.len())),
{
    let n = vars.len() as int;
    match a {
        Some(After::Next(vs, w)) => {
            assert(vs.take(n).take(n) =~= vs.take(n));
        },
        Some(After::Brk(vs, w)) => {
            assert(vs.take(n).take(n) =~= vs.take(n));
        },
        Some(After::Cont(vs, w)) => {
            assert(vs.take(n).take(n) =~= vs.take(n));
        },
        _ => {},
    }
}

/// One piece of code with code inside.
pub proof fn lemma_if_run<V, W>(
    b: Base<V, W>,
    cs: Seq<CodeV>,
    g: Gen,
    cond: OpndV,
    yes: Seq<CodeV>,
    no: Seq<CodeV>,
    last: Gen,
    s: State<V, W>,
    fuel: nat,
)
    requires
        begins(cs, then_code(g, CodeV::If { cond, then: yes, els: no }, last)),
    ensures
        go(b, cs, g.code.len(), s, fuel) == match go(
            b,
            if (b.truth)(opnd_val(b, s, cond)) {
                yes
            } else {
                no
            },
            0,
            s,
            fuel,
        ) {
            Some(Out::End(u)) => go(b, cs, g.code.len() + 1, u, fuel),
            other => other,
        },
{
    reveal(go);
    reveal(begins);
    let h = then_code(g, CodeV::If { cond, then: yes, els: no }, last);
    lemma_last(cs, h);
    assert(cs[g.code.len() as int] == h.code.last());
}

/// What comes of a loop.
#[verifier::opaque]
pub open spec fn loop_out<V, W>(b: Base<V, W>, c: CodeV, s: State<V, W>, fuel: nat) -> Option<
    Out<State<V, W>>,
> {
    run_loop(machine(b), c, s, fuel)
}

/// What comes of a loop from its step on.
#[verifier::opaque]
pub open spec fn step_out<V, W>(b: Base<V, W>, c: CodeV, s: State<V, W>, fuel: nat) -> Option<
    Out<State<V, W>>,
> {
    run_step(machine(b), c, s, fuel)
}

pub proof fn lemma_loop_run<V, W>(
    b: Base<V, W>,
    cs: Seq<CodeV>,
    g: Gen,
    c: CodeV,
    last: Gen,
    s: State<V, W>,
    fuel: nat,
)
    requires
        begins(cs, then_code(g, c, last)),
        c is Loop,
    ensures
        go(b, cs, g.code.len(), s, fuel) == match loop_out(b, c, s, fuel) {
            Some(Out::End(u)) => go(b, cs, g.code.len() + 1, u, fuel),
            other => other,
        },
{
    reveal(go);
    reveal(begins);
    reveal(loop_out);
    let h = then_code(g, c, last);
    lemma_last(cs, h);
    assert(cs[g.code.len() as int] == c);
}

/// One turn of a loop.
pub proof fn lemma_turn_run<V, W>(
    b: Base<V, W>,
    head: Seq<CodeV>,
    cond: OpndV,
    body: Seq<CodeV>,
    step: Seq<CodeV>,
    s: State<V, W>,
    fuel: nat,
)
    ensures
        ({
            let c = CodeV::Loop { head, cond, body, step };
            loop_out(b, c, s, fuel) == if fuel == 0 {
                None
            } else {
                match go(b, head, 0, s, fuel) {
                    Some(Out::End(s1)) => if (b.truth)(opnd_val(b, s1, cond)) {
                        match go(b, body, 0, s1, fuel) {
                            Some(Out::End(s2)) => step_out(b, c, s2, fuel),
                            Some(Out::Cont(s2)) => step_out(b, c, s2, fuel),
                            Some(Out::Brk(s2)) => Some(Out::End(s2)),
                            other => other,
                        }
                    } else {
                        Some(Out::End(s1))
                    },
                    other => other,
                }
            }
        }),
        ({
            let c = CodeV::Loop { head, cond, body, step };
            fuel > 0 ==> step_out(b, c, s, fuel) == match go(b, step, 0, s, fuel) {
                Some(Out::End(s1)) => loop_out(b, c, s1, (fuel - 1) as nat),
                other => other,
            }
        }),
{
    reveal(go);
    reveal(loop_out);
    reveal(step_out);
}

pub proof fn lemma_switch_run<V, W>(
    b: Base<V, W>,
    cs: Seq<CodeV>,
    g: Gen,
    on: OpndV,
    tags: Seq<usize>,
    cases: Seq<Seq<CodeV>>,
    default: Seq<CodeV>,
    last: Gen,
    s: State<V, W>,
    fuel: nat,
)
    requires
        begins(cs, then_code(g, CodeV::Switch { on, tags, cases, default }, last)),
        tags.len() == cases.len(),
    ensures
        ({
            let j = tag_index(tags, (b.number)(opnd_val(b, s, on)), 0);
            go(b, cs, g.code.len(), s, fuel) == match go(
                b,
                if 0 <= j < cases.len() {
                    cases[j]
                } else {
                    default
                },
                0,
                s,
                fuel,
            ) {
                Some(Out::End(u)) => go(b, cs, g.code.len() + 1, u, fuel),
                other => other,
            }
        }),
{
    reveal(go);
    reveal(begins);
    let h = then_code(g, CodeV::Switch { on, tags, cases, default }, last);
    lemma_last(cs, h);
    assert(cs[g.code.len() as int] == h.code.last());
    lemma_tag_index(tags, (b.number)(opnd_val(b, s, on)), 0);
    let m = machine(b);
    let j = tag_index(tags, (b.number)(opnd_val(b, s, on)), 0);
    if j < cases.len() {
        assert(run_case(m, cases, j, s, fuel) == run(m, cases[j], 0, s, fuel));
    }
}

proof fn lemma_tag_index(tags: Seq<usize>, t: int, i: int)
    requires
        0 <= i,
    ensures
        0 <= tag_index(tags, t, i),
    decreases tags.len() - i,
{
    if i < tags.len() && tags[i] != t {
        lemma_tag_index(tags, t, i + 1);
    }
}

/// Nothing but the end.
pub proof fn lemma_no_code<V, W>(b: Base<V, W>, s: State<V, W>, fuel: nat)
    ensures
        go(b, Seq::<CodeV>::empty(), 0, s, fuel) == Some(Out::End(s)),
{
    reveal(go);
}

/// The end of code.
pub proof fn lemma_code_end<V, W>(b: Base<V, W>, cs: Seq<CodeV>, s: State<V, W>, fuel: nat)
    ensures
        go(b, cs, cs.len(), s, fuel) == Some(Out::End(s)),
{
    reveal(go);
}

} // verus!
