//! How often code writes a register.
use vstd::prelude::*;
#[allow(unused_imports)]
use crate::ir::{CodeV, InstV, OpndV};

verus! {

/// How many instructions of a piece of code write the register `r`.
#[verifier::opaque]
pub open spec fn times(c: CodeV, r: nat) -> nat
    decreases c,
{
    match c {
        CodeV::Do(InstV::Op { dst, .. }) => if dst == r {
            1
        } else {
            0
        },
        CodeV::Do(InstV::Call { dst, .. }) => if dst == r {
            1
        } else {
            0
        },
        CodeV::If { then, els, .. } => times_in(then, r) + times_in(els, r),
        CodeV::Loop { head, body, step, .. } => times_in(head, r) + times_in(body, r) + times_in(
            step,
            r,
        ),
        CodeV::Switch { cases, default, .. } => times_cases(cases, r) + times_in(default, r),
        CodeV::Break | CodeV::Continue | CodeV::Return(_) | CodeV::Panic(_) => 0,
    }
}

/// How many instructions of a row of code write the register `r`.
#[verifier::opaque]
pub open spec fn times_in(cs: Seq<CodeV>, r: nat) -> nat
    decreases cs,
{
    if cs.len() == 0 {
        0
    } else {
        times_in(cs.drop_last(), r) + times(cs[cs.len() - 1], r)
    }
}

/// How many instructions of some rows of code write the register `r`.
#[verifier::opaque]
pub open spec fn times_cases(cases: Seq<Seq<CodeV>>, r: nat) -> nat
    decreases cases,
{
    if cases.len() == 0 {
        0
    } else {
        times_cases(cases.drop_last(), r) + times_in(cases[cases.len() - 1], r)
    }
}

/// Once for the registers from `a` to `b`, and not for others.
pub open spec fn once(a: nat, b: nat, r: nat) -> nat {
    if a <= r < b {
        1
    } else {
        0
    }
}

/// The code writes each register from `a` to `b` once, and no other.
#[verifier::opaque]
pub open spec fn fills(c: CodeV, a: nat, b: nat) -> bool {
    forall|r: nat| #[trigger] times(c, r) == once(a, b, r)
}

/// The rows of code write each register from `a` to `b` once, and no other.
#[verifier::opaque]
pub open spec fn fills_in(cs: Seq<CodeV>, a: nat, b: nat) -> bool {
    forall|r: nat| #[trigger] times_in(cs, r) == once(a, b, r)
}

#[verifier::opaque]
pub open spec fn fills_cases(cases: Seq<Seq<CodeV>>, a: nat, b: nat) -> bool {
    forall|r: nat| #[trigger] times_cases(cases, r) == once(a, b, r)
}

/// The code `more` writes each register from `a` to `b` once more than `cs` does, and every
/// other as often.
#[verifier::opaque]
pub open spec fn adds(cs: Seq<CodeV>, more: Seq<CodeV>, a: nat, b: nat) -> bool {
    &&& a <= b
    &&& forall|r: nat| #[trigger] times_in(more, r) == times_in(cs, r) + once(a, b, r)
}

/// What the counts are made of.
proof fn lemma_times(cs: Seq<CodeV>, c: CodeV, cases: Seq<Seq<CodeV>>, r: nat)
    ensures
        times_in(cs.push(c), r) == times_in(cs, r) + times(c, r),
        times_cases(cases.push(cs), r) == times_cases(cases, r) + times_in(cs, r),
        match c {
            CodeV::If { then, els, .. } => times(c, r) == times_in(then, r) + times_in(els, r),
            CodeV::Loop { head, body, step, .. } => times(c, r) == times_in(head, r) + times_in(
                body,
                r,
            ) + times_in(step, r),
            CodeV::Switch { cases, default, .. } => times(c, r) == times_cases(cases, r)
                + times_in(default, r),
            _ => true,
        },
{
    reveal(times);
    reveal(times_in);
    reveal(times_cases);
    assert(cs.push(c).drop_last() =~= cs);
    assert(cases.push(cs).drop_last() =~= cases);
}

pub proof fn lemma_fills_none(n: nat)
    ensures
        fills_in(Seq::empty(), n, n),
        fills_cases(Seq::empty(), n, n),
{
    reveal(fills_in);
    reveal(fills_cases);
    reveal(times_in);
    reveal(times_cases);
}

/// Code that only goes elsewhere writes nothing.
pub proof fn lemma_fills_jump(c: CodeV, n: nat)
    requires
        c is Break || c is Continue || c is Return || c is Panic,
    ensures
        fills(c, n, n),
{
    reveal(fills);
    reveal(times);
}

pub proof fn lemma_fills_inst(i: InstV, n: nat)
    requires
        match i {
            InstV::Op { dst, .. } => dst == n,
            InstV::Call { dst, .. } => dst == n,
        },
    ensures
        fills(CodeV::Do(i), n, n + 1),
{
    reveal(fills);
    reveal(times);
}

pub proof fn lemma_fills_if(cond: OpndV, x: Seq<CodeV>, y: Seq<CodeV>, a: nat, b: nat, c: nat)
    requires
        fills_in(x, a, b),
        fills_in(y, b, c),
        a <= b <= c,
    ensures
        fills(CodeV::If { cond, then: x, els: y }, a, c),
        fills(CodeV::If { cond, then: y, els: x }, a, c),
{
    reveal(fills);
    reveal(fills_in);
    let c1 = CodeV::If { cond, then: x, els: y };
    let c2 = CodeV::If { cond, then: y, els: x };
    assert forall|r: nat| #[trigger] times(c1, r) == once(a, c, r) by {
        lemma_times(Seq::empty(), c1, Seq::empty(), r);
    }
    assert forall|r: nat| #[trigger] times(c2, r) == once(a, c, r) by {
        lemma_times(Seq::empty(), c2, Seq::empty(), r);
    }
}

/// A check writes nothing.
pub proof fn lemma_fills_stop(cond: OpndV, msg: Seq<char>, n: nat)
    ensures
        fills(CodeV::If { cond, then: seq![CodeV::Panic(msg)], els: Seq::empty() }, n, n),
        fills(CodeV::If { cond, then: Seq::empty(), els: seq![CodeV::Panic(msg)] }, n, n),
{
    let none = Seq::<CodeV>::empty();
    let stop = seq![CodeV::Panic(msg)];
    lemma_fills_none(n);
    lemma_fills_jump(CodeV::Panic(msg), n);
    lemma_adds_push(none, CodeV::Panic(msg), n, n);
    assert(none.push(CodeV::Panic(msg)) =~= stop);
    lemma_adds_none(stop, n, n);
    lemma_fills_if(cond, stop, none, n, n, n);
}

pub proof fn lemma_fills_loop(
    head: Seq<CodeV>,
    cond: OpndV,
    body: Seq<CodeV>,
    step: Seq<CodeV>,
    a: nat,
    b: nat,
    c: nat,
    d: nat,
)
    requires
        fills_in(head, a, b),
        fills_in(body, b, c),
        fills_in(step, c, d),
        a <= b <= c <= d,
    ensures
        fills(CodeV::Loop { head, cond, body, step }, a, d),
{
    reveal(fills);
    reveal(fills_in);
    let code = CodeV::Loop { head, cond, body, step };
    assert forall|r: nat| #[trigger] times(code, r) == once(a, d, r) by {
        lemma_times(Seq::empty(), code, Seq::empty(), r);
    }
}

pub proof fn lemma_fills_switch(
    on: OpndV,
    tags: Seq<usize>,
    cases: Seq<Seq<CodeV>>,
    default: Seq<CodeV>,
    a: nat,
    b: nat,
    c: nat,
)
    requires
        fills_cases(cases, a, b),
        fills_in(default, b, c),
        a <= b <= c,
    ensures
        fills(CodeV::Switch { on, tags, cases, default }, a, c),
{
    reveal(fills);
    reveal(fills_in);
    reveal(fills_cases);
    let code = CodeV::Switch { on, tags, cases, default };
    assert forall|r: nat| #[trigger] times(code, r) == once(a, c, r) by {
        lemma_times(Seq::empty(), code, Seq::empty(), r);
    }
}

pub proof fn lemma_fills_case(cases: Seq<Seq<CodeV>>, cs: Seq<CodeV>, a: nat, b: nat, c: nat)
    requires
        fills_cases(cases, a, b),
        fills_in(cs, b, c),
        a <= b <= c,
    ensures
        fills_cases(cases.push(cs), a, c),
{
    reveal(fills_in);
    reveal(fills_cases);
    assert forall|r: nat| #[trigger] times_cases(cases.push(cs), r) == once(a, c, r) by {
        lemma_times(cs, CodeV::Break, cases, r);
    }
}

/// One more piece of code.
pub proof fn lemma_adds_push(cs: Seq<CodeV>, c: CodeV, a: nat, b: nat)
    requires
        fills(c, a, b),
        a <= b,
    ensures
        adds(cs, cs.push(c), a, b),
{
    reveal(fills);
    reveal(adds);
    assert forall|r: nat| #[trigger] times_in(cs.push(c), r) == times_in(cs, r) + once(a, b, r) by {
        lemma_times(cs, c, Seq::empty(), r);
    }
}

pub proof fn lemma_adds_self(cs: Seq<CodeV>, n: nat)
    ensures
        adds(cs, cs, n, n),
{
    reveal(adds);
}

pub proof fn lemma_adds(
    x: Seq<CodeV>,
    y: Seq<CodeV>,
    z: Seq<CodeV>,
    a: nat,
    b: nat,
    c: nat,
)
    requires
        adds(x, y, a, b),
        adds(y, z, b, c),
    ensures
        adds(x, z, a, c),
{
    reveal(adds);
    assert forall|r: nat| #[trigger] times_in(z, r) == times_in(x, r) + once(a, c, r) by {
        assert(times_in(y, r) == times_in(x, r) + once(a, b, r));
    }
}

/// Code that is added to none.
pub proof fn lemma_adds_none(cs: Seq<CodeV>, a: nat, b: nat)
    requires
        adds(Seq::empty(), cs, a, b),
    ensures
        fills_in(cs, a, b),
        a <= b,
{
    reveal(adds);
    reveal(fills_in);
    assert forall|r: nat| #[trigger] times_in(cs, r) == once(a, b, r) by {
        reveal(times_in);
        assert(times_in(Seq::<CodeV>::empty(), r) == 0);
    }
}

} // verus!
