//! Why a function does the same as blocks.
//!
//! Both forms of a function are run on a machine of which nothing is known but that it can
//! carry out an instruction and look at an operand. What comes of a run is the same.
use vstd::prelude::*;
#[allow(unused_imports)]
use crate::blocks::{
    case_targets, cases_size, flat, flat_cases, flat_func, func_ways, lemma_flat_cases_len,
    lemma_flat_len, size, BlockV, TermV, Ways,
};
#[allow(unused_imports)]
use crate::ir::{CodeV, InstV, IrFuncV, OpndV};

verus! {

/// What comes of an instruction: the run goes on, or it ends.
pub ghost enum Did<S> {
    Go(S),
    Stop(S),
}

/// What carries out instructions and looks at operands, in a state.
#[verifier::reject_recursive_types(S)]
pub ghost struct Machine<S> {
    pub step: spec_fn(S, InstV) -> Did<S>,
    pub test: spec_fn(S, OpndV) -> bool,
    pub tag: spec_fn(S, OpndV) -> int,
}

/// What comes of code.
pub ghost enum Out<S> {
    End(S),
    Brk(S),
    Cont(S),
    Ret(S, OpndV),
    Halt(S, Seq<char>),
    Stop(S),
}

/// What comes of a function as blocks.
pub ghost enum Fin<S> {
    Ret(S, OpndV),
    Halt(S, Seq<char>),
    Stop(S),
}

/// The index of the first of the tags from `i` on that `t` is.
pub open spec fn tag_index(tags: Seq<usize>, t: int, i: int) -> int
    decreases tags.len() - i,
{
    if !(0 <= i < tags.len()) || tags[i] == t {
        i
    } else {
        tag_index(tags, t, i + 1)
    }
}

/// What comes of the code from `k` on. There is no answer where a loop is run more often
/// than `fuel` allows.
pub open spec fn run<S>(m: Machine<S>, cs: Seq<CodeV>, k: int, s: S, fuel: nat) -> Option<Out<S>>
    decreases fuel, cs, cs.len() - k,
{
    if !(0 <= k < cs.len()) {
        Some(Out::End(s))
    } else {
        match cs[k] {
            CodeV::Do(inst) => match (m.step)(s, inst) {
                Did::Go(s1) => run(m, cs, k + 1, s1, fuel),
                Did::Stop(s1) => Some(Out::Stop(s1)),
            },
            CodeV::If { cond, then, els } => match if (m.test)(s, cond) {
                run(m, then, 0, s, fuel)
            } else {
                run(m, els, 0, s, fuel)
            } {
                Some(Out::End(s1)) => run(m, cs, k + 1, s1, fuel),
                other => other,
            },
            CodeV::Loop { .. } => match run_loop(m, cs[k], s, fuel) {
                Some(Out::End(s1)) => run(m, cs, k + 1, s1, fuel),
                other => other,
            },
            CodeV::Switch { on, tags, cases, default } => {
                let i = tag_index(tags, (m.tag)(s, on), 0);
                match if i < cases.len() && i < tags.len() {
                    run_case(m, cases, i, s, fuel)
                } else {
                    run(m, default, 0, s, fuel)
                } {
                    Some(Out::End(s1)) => run(m, cs, k + 1, s1, fuel),
                    other => other,
                }
            },
            CodeV::Break => Some(Out::Brk(s)),
            CodeV::Continue => Some(Out::Cont(s)),
            CodeV::Return(v) => Some(Out::Ret(s, v)),
            CodeV::Panic(msg) => Some(Out::Halt(s, msg)),
        }
    }
}

pub open spec fn run_case<S>(
    m: Machine<S>,
    cases: Seq<Seq<CodeV>>,
    i: int,
    s: S,
    fuel: nat,
) -> Option<Out<S>>
    decreases fuel, cases, 0int,
{
    if 0 <= i < cases.len() {
        run(m, cases[i], 0, s, fuel)
    } else {
        None
    }
}

/// What comes of a loop.
pub open spec fn run_loop<S>(m: Machine<S>, c: CodeV, s: S, fuel: nat) -> Option<Out<S>>
    decreases fuel, c, 1int,
{
    match c {
        CodeV::Loop { head, cond, body, step } => if fuel == 0 {
            None
        } else {
            match run(m, head, 0, s, fuel) {
                Some(Out::End(s1)) => if (m.test)(s1, cond) {
                    match run(m, body, 0, s1, fuel) {
                        Some(Out::End(s2)) => run_step(m, c, s2, fuel),
                        Some(Out::Cont(s2)) => run_step(m, c, s2, fuel),
                        Some(Out::Brk(s2)) => Some(Out::End(s2)),
                        other => other,
                    }
                } else {
                    Some(Out::End(s1))
                },
                other => other,
            }
        },
        _ => None,
    }
}

/// What comes of a loop from its step on.
pub open spec fn run_step<S>(m: Machine<S>, c: CodeV, s: S, fuel: nat) -> Option<Out<S>>
    decreases fuel, c, 0int,
{
    match c {
        CodeV::Loop { step, .. } => if fuel == 0 {
            None
        } else {
            match run(m, step, 0, s, fuel) {
                Some(Out::End(s1)) => run_loop(m, c, s1, (fuel - 1) as nat),
                other => other,
            }
        },
        _ => None,
    }
}

/// What comes of the instructions from `i` on.
pub open spec fn run_insts<S>(m: Machine<S>, insts: Seq<InstV>, i: int, s: S) -> Did<S>
    decreases insts.len() - i,
{
    if !(0 <= i < insts.len()) {
        Did::Go(s)
    } else {
        match (m.step)(s, insts[i]) {
            Did::Go(s1) => run_insts(m, insts, i + 1, s1),
            Did::Stop(s1) => Did::Stop(s1),
        }
    }
}

/// What comes of a function from the block at index `b` on, in at most `fuel` blocks.
pub open spec fn run_block<S>(
    m: Machine<S>,
    blocks: Seq<BlockV>,
    b: nat,
    s: S,
    fuel: nat,
) -> Option<Fin<S>>
    decreases fuel, 0int,
{
    if fuel == 0 || b >= blocks.len() {
        None
    } else {
        match run_insts(m, blocks[b as int].insts, 0, s) {
            Did::Go(s1) => run_term(m, blocks, blocks[b as int].term, s1, (fuel - 1) as nat),
            Did::Stop(s1) => Some(Fin::Stop(s1)),
        }
    }
}

/// What comes of a function from the end of a block on.
pub open spec fn run_term<S>(
    m: Machine<S>,
    blocks: Seq<BlockV>,
    term: TermV,
    s: S,
    fuel: nat,
) -> Option<Fin<S>>
    decreases fuel, 1int,
{
    match term {
        TermV::Jump(b) => run_block(m, blocks, b, s, fuel),
        TermV::Branch { cond, then, els } => run_block(
            m,
            blocks,
            if (m.test)(s, cond) {
                then
            } else {
                els
            },
            s,
            fuel,
        ),
        TermV::Switch { on, tags, targets, default } => {
            let i = tag_index(tags, (m.tag)(s, on), 0);
            run_block(
                m,
                blocks,
                if i < targets.len() && i < tags.len() {
                    targets[i]
                } else {
                    default
                },
                s,
                fuel,
            )
        },
        TermV::Return(v) => Some(Fin::Ret(s, v)),
        TermV::Panic(msg) => Some(Fin::Halt(s, msg)),
    }
}

// From a state at the start of a block to one at the end of another.

pub open spec fn comes_in<S>(
    m: Machine<S>,
    blocks: Seq<BlockV>,
    b: nat,
    s: S,
    term: TermV,
    s1: S,
    n: nat,
) -> bool {
    n >= 1 && forall|k: nat| #[trigger]
        run_block(m, blocks, b, s, n + k) == run_term(m, blocks, term, s1, k)
}

/// The run comes from the start of block `b` to an end like `term`.
pub open spec fn comes<S>(
    m: Machine<S>,
    blocks: Seq<BlockV>,
    b: nat,
    s: S,
    term: TermV,
    s1: S,
) -> bool {
    exists|n: nat| comes_in(m, blocks, b, s, term, s1, n)
}

pub open spec fn stops_in<S>(
    m: Machine<S>,
    blocks: Seq<BlockV>,
    b: nat,
    s: S,
    s1: S,
    n: nat,
) -> bool {
    forall|k: nat| #[trigger] run_block(m, blocks, b, s, n + k) == Some(Fin::Stop(s1))
}

/// The run stops after the start of block `b`.
pub open spec fn stops<S>(m: Machine<S>, blocks: Seq<BlockV>, b: nat, s: S, s1: S) -> bool {
    exists|n: nat| stops_in(m, blocks, b, s, s1, n)
}

/// From the start of block `b`, the run does what `out` says.
pub open spec fn does<S>(
    m: Machine<S>,
    blocks: Seq<BlockV>,
    b: nat,
    s: S,
    out: Out<S>,
    ways: Ways,
) -> bool {
    match out {
        Out::End(s1) => comes(m, blocks, b, s, ways.end, s1),
        Out::Brk(s1) => comes(m, blocks, b, s, TermV::Jump(ways.brk), s1),
        Out::Cont(s1) => comes(m, blocks, b, s, TermV::Jump(ways.cont), s1),
        Out::Ret(s1, v) => comes(m, blocks, b, s, TermV::Return(v), s1),
        Out::Halt(s1, msg) => comes(m, blocks, b, s, TermV::Panic(msg), s1),
        Out::Stop(s1) => stops(m, blocks, b, s, s1),
    }
}

proof fn lemma_comes_on<S>(
    m: Machine<S>,
    blocks: Seq<BlockV>,
    b: nat,
    s: S,
    mid: nat,
    s1: S,
    term: TermV,
    s2: S,
)
    requires
        comes(m, blocks, b, s, TermV::Jump(mid), s1),
        comes(m, blocks, mid, s1, term, s2),
    ensures
        comes(m, blocks, b, s, term, s2),
{
    let n1 = choose|n: nat| comes_in(m, blocks, b, s, TermV::Jump(mid), s1, n);
    let n2 = choose|n: nat| comes_in(m, blocks, mid, s1, term, s2, n);
    assert(comes_in(m, blocks, b, s, term, s2, n1 + n2)) by {
        assert forall|k: nat| #[trigger]
            run_block(m, blocks, b, s, (n1 + n2) + k) == run_term(m, blocks, term, s2, k) by {
            assert(run_block(m, blocks, b, s, n1 + (n2 + k)) == run_term(
                m,
                blocks,
                TermV::Jump(mid),
                s1,
                n2 + k,
            ));
            assert(run_block(m, blocks, mid, s1, n2 + k) == run_term(m, blocks, term, s2, k));
            assert((n1 + n2) + k == n1 + (n2 + k));
        }
    }
}

proof fn lemma_does_on<S>(
    m: Machine<S>,
    blocks: Seq<BlockV>,
    b: nat,
    s: S,
    mid: nat,
    s1: S,
    out: Out<S>,
    ways: Ways,
)
    requires
        comes(m, blocks, b, s, TermV::Jump(mid), s1),
        does(m, blocks, mid, s1, out, ways),
    ensures
        does(m, blocks, b, s, out, ways),
{
    match out {
        Out::End(s2) => {
            lemma_comes_on(m, blocks, b, s, mid, s1, ways.end, s2);
        },
        Out::Brk(s2) => {
            lemma_comes_on(m, blocks, b, s, mid, s1, TermV::Jump(ways.brk), s2);
        },
        Out::Cont(s2) => {
            lemma_comes_on(m, blocks, b, s, mid, s1, TermV::Jump(ways.cont), s2);
        },
        Out::Ret(s2, v) => {
            lemma_comes_on(m, blocks, b, s, mid, s1, TermV::Return(v), s2);
        },
        Out::Halt(s2, msg) => {
            lemma_comes_on(m, blocks, b, s, mid, s1, TermV::Panic(msg), s2);
        },
        Out::Stop(s2) => {
            let n1 = choose|n: nat| comes_in(m, blocks, b, s, TermV::Jump(mid), s1, n);
            let n2 = choose|n: nat| stops_in(m, blocks, mid, s1, s2, n);
            assert(stops_in(m, blocks, b, s, s2, n1 + n2)) by {
                assert forall|k: nat| #[trigger]
                    run_block(m, blocks, b, s, (n1 + n2) + k) == Some(Fin::Stop(s2)) by {
                    assert(run_block(m, blocks, b, s, n1 + (n2 + k)) == run_term(
                        m,
                        blocks,
                        TermV::Jump(mid),
                        s1,
                        n2 + k,
                    ));
                    assert(run_block(m, blocks, mid, s1, n2 + k) == Some(Fin::Stop(s2)));
                    assert((n1 + n2) + k == n1 + (n2 + k));
                }
            }
        },
    }
}

/// A block that is carried out comes to its end.
proof fn lemma_block<S>(m: Machine<S>, blocks: Seq<BlockV>, b: nat, s: S, s1: S, term: TermV)
    requires
        b < blocks.len(),
        blocks[b as int].term == term,
        run_insts(m, blocks[b as int].insts, 0, s) == Did::Go(s1),
    ensures
        comes(m, blocks, b, s, term, s1),
{
    assert(comes_in(m, blocks, b, s, term, s1, 1)) by {
        assert forall|k: nat| #[trigger]
            run_block(m, blocks, b, s, 1 + k) == run_term(m, blocks, term, s1, k) by {}
    }
}

/// A block whose end chooses another goes on there.
proof fn lemma_goes_to<S>(
    m: Machine<S>,
    blocks: Seq<BlockV>,
    b: nat,
    s: S,
    term: TermV,
    s1: S,
    to: nat,
)
    requires
        comes(m, blocks, b, s, term, s1),
        match term {
            TermV::Branch { cond, then, els } => to == if (m.test)(s1, cond) {
                then
            } else {
                els
            },
            TermV::Switch { on, tags, targets, default } => {
                let i = tag_index(tags, (m.tag)(s1, on), 0);
                to == if i < targets.len() && i < tags.len() {
                    targets[i]
                } else {
                    default
                }
            },
            _ => false,
        },
    ensures
        comes(m, blocks, b, s, TermV::Jump(to), s1),
{
    let n = choose|n: nat| comes_in(m, blocks, b, s, term, s1, n);
    assert(comes_in(m, blocks, b, s, TermV::Jump(to), s1, n)) by {
        assert forall|k: nat| #[trigger]
            run_block(m, blocks, b, s, n + k) == run_term(
                m,
                blocks,
                TermV::Jump(to),
                s1,
                k,
            ) by {
            assert(run_block(m, blocks, b, s, n + k) == run_term(m, blocks, term, s1, k));
        }
    }
}

/// `part` stands at index `at` of `blocks`.
pub open spec fn has_part(blocks: Seq<BlockV>, at: nat, part: Seq<BlockV>) -> bool {
    at + part.len() <= blocks.len() && blocks.subrange(at as int, (at + part.len()) as int) == part
}

proof fn lemma_split(blocks: Seq<BlockV>, at: nat, a: Seq<BlockV>, b: Seq<BlockV>)
    requires
        has_part(blocks, at, a + b),
    ensures
        has_part(blocks, at, a),
        has_part(blocks, at + a.len(), b),
{
    let part = blocks.subrange(at as int, (at + (a + b).len()) as int);
    assert(blocks.subrange(at as int, (at + a.len()) as int) =~= part.subrange(0, a.len() as int));
    assert((a + b).subrange(0, a.len() as int) =~= a);
    assert(blocks.subrange((at + a.len()) as int, (at + a.len() + b.len()) as int) =~= part.subrange(
        a.len() as int,
        (a + b).len() as int,
    ));
    assert((a + b).subrange(a.len() as int, (a + b).len() as int) =~= b);
}

proof fn lemma_first(blocks: Seq<BlockV>, at: nat, part: Seq<BlockV>)
    requires
        has_part(blocks, at, part),
        part.len() > 0,
    ensures
        at < blocks.len(),
        blocks[at as int] == part[0],
{
    assert(blocks.subrange(at as int, (at + part.len()) as int)[0] == blocks[at as int]);
}

proof fn lemma_insts_push<S>(m: Machine<S>, insts: Seq<InstV>, x: InstV, i: int, s: S)
    requires
        0 <= i <= insts.len(),
    ensures
        run_insts(m, insts.push(x), i, s) == match run_insts(m, insts, i, s) {
            Did::Go(s1) => (m.step)(s1, x),
            Did::Stop(s1) => Did::Stop(s1),
        },
    decreases insts.len() - i,
{
    if i < insts.len() {
        match (m.step)(s, insts[i]) {
            Did::Go(s1) => {
                lemma_insts_push(m, insts, x, i + 1, s1);
            },
            Did::Stop(_) => {},
        }
        assert(insts.push(x)[i] == insts[i]);
    } else {
        reveal_with_fuel(run_insts, 2);
    }
}

proof fn lemma_insts_stop<S>(m: Machine<S>, insts: Seq<InstV>, more: Seq<InstV>, i: int, s: S)
    requires
        0 <= i <= insts.len() <= more.len(),
        more.take(insts.len() as int) == insts,
        run_insts(m, insts, i, s) is Stop,
    ensures
        run_insts(m, more, i, s) == run_insts(m, insts, i, s),
    decreases insts.len() - i,
{
    if i < insts.len() {
        assert(more[i] == more.take(insts.len() as int)[i]);
        match (m.step)(s, insts[i]) {
            Did::Go(s1) => {
                lemma_insts_stop(m, insts, more, i + 1, s1);
            },
            Did::Stop(_) => {},
        }
    }
}

/// The first block starts with the instructions that it was given.
proof fn lemma_first_starts(cs: Seq<CodeV>, k: int, insts: Seq<InstV>, at: nat, ways: Ways)
    ensures
        ({
            let blocks = flat(cs, k, insts, at, ways);
            &&& blocks.len() > 0
            &&& blocks[0].insts.len() >= insts.len()
            &&& blocks[0].insts.take(insts.len() as int) == insts
        }),
    decreases cs.len() - k,
{
    let blocks = flat(cs, k, insts, at, ways);
    if 0 <= k < cs.len() && cs[k] is Do {
        let inst = cs[k]->Do_0;
        lemma_first_starts(cs, k + 1, insts.push(inst), at, ways);
        assert(blocks[0].insts.take(insts.len() as int) =~= blocks[0].insts.take(
            insts.push(inst).len() as int,
        ).take(insts.len() as int));
        assert(insts.push(inst).take(insts.len() as int) =~= insts);
    } else {
        assert(blocks[0].insts == insts);
        assert(insts.take(insts.len() as int) =~= insts);
    }
}

proof fn lemma_nothing<S>(m: Machine<S>, s: S)
    ensures
        run_insts(m, Seq::empty(), 0, s) == Did::Go(s),
{
}

/// Where the parts of a code that branches stand.
proof fn lemma_if_parts(
    blocks: Seq<BlockV>,
    at: nat,
    first: BlockV,
    a: Seq<BlockV>,
    b: Seq<BlockV>,
    rest: Seq<BlockV>,
)
    requires
        has_part(blocks, at, seq![first] + a + b + rest),
    ensures
        at < blocks.len(),
        blocks[at as int] == first,
        has_part(blocks, at + 1, a),
        has_part(blocks, at + 1 + a.len(), b),
        has_part(blocks, at + 1 + a.len() + b.len(), rest),
{
    lemma_split(blocks, at, seq![first] + a + b, rest);
    lemma_split(blocks, at, seq![first] + a, b);
    lemma_split(blocks, at, seq![first], a);
    lemma_first(blocks, at, seq![first]);
}

/// Where the cases of a switch stand.
proof fn lemma_case_part(
    blocks: Seq<BlockV>,
    cases: Seq<Seq<CodeV>>,
    i: int,
    at: nat,
    ways: Ways,
    k: int,
)
    requires
        0 <= i <= k < cases.len(),
        has_part(blocks, at, flat_cases(cases, i, at, ways)),
    ensures
        ({
            let to = case_targets(cases, i, at)[k - i];
            &&& k - i < case_targets(cases, i, at).len()
            &&& has_part(blocks, to, flat(cases[k], 0, Seq::empty(), to, ways))
        }),
    decreases k - i,
{
    let first = flat(cases[i], 0, Seq::empty(), at, ways);
    let next = at + size(cases[i], 0);
    lemma_flat_len(cases[i], 0, Seq::empty(), at, ways);
    lemma_split(blocks, at, first, flat_cases(cases, i + 1, next, ways));
    if i < k {
        lemma_case_part(blocks, cases, i + 1, next, ways, k);
        assert(case_targets(cases, i, at)[k - i] == case_targets(cases, i + 1, next)[k - i - 1]);
    }
}

proof fn lemma_targets_len(cases: Seq<Seq<CodeV>>, i: int, at: nat)
    requires
        0 <= i <= cases.len(),
    ensures
        case_targets(cases, i, at).len() == cases.len() - i,
    decreases cases.len() - i,
{
    if i < cases.len() {
        lemma_targets_len(cases, i + 1, at + size(cases[i], 0));
    }
}

proof fn lemma_tag_index(tags: Seq<usize>, t: int, i: int)
    requires
        0 <= i <= tags.len(),
    ensures
        i <= tag_index(tags, t, i) <= tags.len(),
    decreases tags.len() - i,
{
    if i < tags.len() && tags[i] != t {
        lemma_tag_index(tags, t, i + 1);
    }
}

/// What comes of code comes of its blocks. `s0` is the state at the start of the first
/// block, `s` that after the instructions which it was given.
proof fn lemma_sim<S>(
    m: Machine<S>,
    blocks: Seq<BlockV>,
    cs: Seq<CodeV>,
    k: int,
    insts: Seq<InstV>,
    at: nat,
    ways: Ways,
    s0: S,
    s: S,
    fuel: nat,
)
    requires
        has_part(blocks, at, flat(cs, k, insts, at, ways)),
        run_insts(m, insts, 0, s0) == Did::Go(s),
        run(m, cs, k, s, fuel) is Some,
    ensures
        does(m, blocks, at, s0, run(m, cs, k, s, fuel)->0, ways),
    decreases fuel, cs, cs.len() - k, 1int,
{
    let part = flat(cs, k, insts, at, ways);
    let out = run(m, cs, k, s, fuel)->0;
    lemma_nothing(m, s);
    if !(0 <= k < cs.len()) {
        lemma_first(blocks, at, part);
        lemma_block(m, blocks, at, s0, s, ways.end);
    } else {
        match cs[k] {
            CodeV::Do(inst) => {
                lemma_insts_push(m, insts, inst, 0, s0);
                match (m.step)(s, inst) {
                    Did::Go(s1) => {
                        lemma_sim(m, blocks, cs, k + 1, insts.push(inst), at, ways, s0, s1, fuel);
                    },
                    Did::Stop(s1) => {
                        lemma_first_starts(cs, k + 1, insts.push(inst), at, ways);
                        lemma_first(blocks, at, part);
                        lemma_insts_stop(m, insts.push(inst), part[0].insts, 0, s0);
                        assert(stops_in(m, blocks, at, s0, s1, 1)) by {
                            assert forall|j: nat| #[trigger]
                                run_block(m, blocks, at, s0, 1 + j) == Some(Fin::Stop(s1)) by {}
                        }
                    },
                }
            },
            CodeV::If { .. } => {
                lemma_sim_if(m, blocks, cs, k, insts, at, ways, s0, s, fuel);
            },
            CodeV::Loop { .. } => {
                lemma_sim_loop(m, blocks, cs, k, insts, at, ways, s0, s, fuel);
            },
            CodeV::Switch { .. } => {
                lemma_sim_switch(m, blocks, cs, k, insts, at, ways, s0, s, fuel);
            },
            CodeV::Break => {
                lemma_first(blocks, at, part);
                lemma_block(m, blocks, at, s0, s, TermV::Jump(ways.brk));
            },
            CodeV::Continue => {
                lemma_first(blocks, at, part);
                lemma_block(m, blocks, at, s0, s, TermV::Jump(ways.cont));
            },
            CodeV::Return(v) => {
                lemma_first(blocks, at, part);
                lemma_block(m, blocks, at, s0, s, TermV::Return(v));
            },
            CodeV::Panic(msg) => {
                lemma_first(blocks, at, part);
                lemma_block(m, blocks, at, s0, s, TermV::Panic(msg));
            },
        }
    }
}

proof fn lemma_sim_if<S>(
    m: Machine<S>,
    blocks: Seq<BlockV>,
    cs: Seq<CodeV>,
    k: int,
    insts: Seq<InstV>,
    at: nat,
    ways: Ways,
    s0: S,
    s: S,
    fuel: nat,
)
    requires
        0 <= k < cs.len(),
        cs[k] is If,
        has_part(blocks, at, flat(cs, k, insts, at, ways)),
        run_insts(m, insts, 0, s0) == Did::Go(s),
        run(m, cs, k, s, fuel) is Some,
    ensures
        does(m, blocks, at, s0, run(m, cs, k, s, fuel)->0, ways),
    decreases fuel, cs, cs.len() - k, 0int,
{
    let out = run(m, cs, k, s, fuel)->0;
    lemma_nothing(m, s);
    match cs[k] {
        CodeV::If { cond, then, els } => {
            let t = at + 1;
            let e = t + size(then, 0);
            let join = e + size(els, 0);
            let inside = Ways { end: TermV::Jump(join), ..ways };
            let term = TermV::Branch { cond, then: t, els: e };
            let ft = flat(then, 0, Seq::empty(), t, inside);
            let fe = flat(els, 0, Seq::empty(), e, inside);
            let rest = flat(cs, k + 1, Seq::empty(), join, ways);
            lemma_flat_len(then, 0, Seq::empty(), t, inside);
            lemma_flat_len(els, 0, Seq::empty(), e, inside);
            lemma_if_parts(blocks, at, BlockV { insts, term }, ft, fe, rest);
            lemma_block(m, blocks, at, s0, s, term);
            let (to, body) = if (m.test)(s, cond) {
                (t, then)
            } else {
                (e, els)
            };
            lemma_goes_to(m, blocks, at, s0, term, s, to);
            lemma_sim(m, blocks, body, 0, Seq::empty(), to, inside, s, s, fuel);
            let first = run(m, body, 0, s, fuel)->0;
            lemma_does_on(m, blocks, at, s0, to, s, first, inside);
            match first {
                Out::End(s1) => {
                    lemma_nothing(m, s1);
                    lemma_sim(m, blocks, cs, k + 1, Seq::empty(), join, ways, s1, s1, fuel);
                    lemma_does_on(m, blocks, at, s0, join, s1, out, ways);
                },
                _ => {},
            }
        },
        _ => {},
    }
}

proof fn lemma_sim_loop<S>(
    m: Machine<S>,
    blocks: Seq<BlockV>,
    cs: Seq<CodeV>,
    k: int,
    insts: Seq<InstV>,
    at: nat,
    ways: Ways,
    s0: S,
    s: S,
    fuel: nat,
)
    requires
        0 <= k < cs.len(),
        cs[k] is Loop,
        has_part(blocks, at, flat(cs, k, insts, at, ways)),
        run_insts(m, insts, 0, s0) == Did::Go(s),
        run(m, cs, k, s, fuel) is Some,
    ensures
        does(m, blocks, at, s0, run(m, cs, k, s, fuel)->0, ways),
    decreases fuel, cs, cs.len() - k, 0int,
{
    let out = run(m, cs, k, s, fuel)->0;
    lemma_nothing(m, s);
    match cs[k] {
        CodeV::Loop { head, cond, body, step } => {
            let h = at + 1;
            let b = h + size(head, 0);
            let st = b + size(body, 0);
            let exit = st + size(step, 0);
            let w1 = Ways { end: TermV::Branch { cond, then: b, els: exit }, ..ways };
            let w2 = Ways { end: TermV::Jump(st), brk: exit, cont: st };
            let w3 = Ways { end: TermV::Jump(h), ..ways };
            let f1 = flat(head, 0, Seq::empty(), h, w1);
            let f2 = flat(body, 0, Seq::empty(), b, w2);
            let f3 = flat(step, 0, Seq::empty(), st, w3);
            let rest = flat(cs, k + 1, Seq::empty(), exit, ways);
            let first = BlockV { insts, term: TermV::Jump(h) };
            lemma_flat_len(head, 0, Seq::empty(), h, w1);
            lemma_flat_len(body, 0, Seq::empty(), b, w2);
            lemma_flat_len(step, 0, Seq::empty(), st, w3);
            lemma_split(blocks, at, seq![first] + f1 + f2 + f3, rest);
            lemma_if_parts(blocks, at, first, f1, f2, f3);
            lemma_block(m, blocks, at, s0, s, TermV::Jump(h));
            lemma_loop_sim(m, blocks, cs[k], h, ways, s, fuel);
            let looped = run_loop(m, cs[k], s, fuel)->0;
            let w = Ways { end: TermV::Jump(exit), ..ways };
            lemma_does_on(m, blocks, at, s0, h, s, looped, w);
            match looped {
                Out::End(s1) => {
                    lemma_nothing(m, s1);
                    lemma_sim(m, blocks, cs, k + 1, Seq::empty(), exit, ways, s1, s1, fuel);
                    lemma_does_on(m, blocks, at, s0, exit, s1, out, ways);
                },
                _ => {},
            }
        },
        _ => {},
    }
}

proof fn lemma_sim_switch<S>(
    m: Machine<S>,
    blocks: Seq<BlockV>,
    cs: Seq<CodeV>,
    k: int,
    insts: Seq<InstV>,
    at: nat,
    ways: Ways,
    s0: S,
    s: S,
    fuel: nat,
)
    requires
        0 <= k < cs.len(),
        cs[k] is Switch,
        has_part(blocks, at, flat(cs, k, insts, at, ways)),
        run_insts(m, insts, 0, s0) == Did::Go(s),
        run(m, cs, k, s, fuel) is Some,
    ensures
        does(m, blocks, at, s0, run(m, cs, k, s, fuel)->0, ways),
    decreases fuel, cs, cs.len() - k, 0int,
{
    let out = run(m, cs, k, s, fuel)->0;
    lemma_nothing(m, s);
    match cs[k] {
        CodeV::Switch { on, tags, cases, default } => {
            let d = at + 1 + cases_size(cases, 0);
            let join = d + size(default, 0);
            let inside = Ways { end: TermV::Jump(join), ..ways };
            let targets = case_targets(cases, 0, at + 1);
            let term = TermV::Switch { on, tags, targets, default: d };
            let fc = flat_cases(cases, 0, at + 1, inside);
            let fd = flat(default, 0, Seq::empty(), d, inside);
            let rest = flat(cs, k + 1, Seq::empty(), join, ways);
            lemma_flat_cases_len(cases, 0, at + 1, inside);
            lemma_flat_len(default, 0, Seq::empty(), d, inside);
            lemma_if_parts(blocks, at, BlockV { insts, term }, fc, fd, rest);
            lemma_block(m, blocks, at, s0, s, term);
            lemma_targets_len(cases, 0, at + 1);
            let i = tag_index(tags, (m.tag)(s, on), 0);
            lemma_tag_index(tags, (m.tag)(s, on), 0);
            let first = if i < cases.len() && i < tags.len() {
                let to = targets[i];
                lemma_case_part(blocks, cases, 0, at + 1, inside, i);
                lemma_goes_to(m, blocks, at, s0, term, s, to);
                assert(run_case(m, cases, i, s, fuel) == run(m, cases[i], 0, s, fuel));
                lemma_sim(m, blocks, cases[i], 0, Seq::empty(), to, inside, s, s, fuel);
                let first = run(m, cases[i], 0, s, fuel)->0;
                lemma_does_on(m, blocks, at, s0, to, s, first, inside);
                first
            } else {
                lemma_goes_to(m, blocks, at, s0, term, s, d);
                lemma_sim(m, blocks, default, 0, Seq::empty(), d, inside, s, s, fuel);
                let first = run(m, default, 0, s, fuel)->0;
                lemma_does_on(m, blocks, at, s0, d, s, first, inside);
                first
            };
            match first {
                Out::End(s1) => {
                    lemma_nothing(m, s1);
                    lemma_sim(m, blocks, cs, k + 1, Seq::empty(), join, ways, s1, s1, fuel);
                    lemma_does_on(m, blocks, at, s0, join, s1, out, ways);
                },
                _ => {},
            }
        },
        _ => {},
    }
}

/// The three parts of a loop stand one after the other from `h` on.
pub open spec fn has_loop(blocks: Seq<BlockV>, c: CodeV, h: nat, ways: Ways) -> bool {
    match c {
        CodeV::Loop { head, cond, body, step } => {
            let b = h + size(head, 0);
            let st = b + size(body, 0);
            let exit = st + size(step, 0);
            let w1 = Ways { end: TermV::Branch { cond, then: b, els: exit }, ..ways };
            let w2 = Ways { end: TermV::Jump(st), brk: exit, cont: st };
            let w3 = Ways { end: TermV::Jump(h), ..ways };
            &&& has_part(blocks, h, flat(head, 0, Seq::empty(), h, w1))
            &&& has_part(blocks, b, flat(body, 0, Seq::empty(), b, w2))
            &&& has_part(blocks, st, flat(step, 0, Seq::empty(), st, w3))
        },
        _ => false,
    }
}

/// Where a loop goes on at its end.
pub open spec fn loop_exit(c: CodeV, h: nat) -> nat {
    match c {
        CodeV::Loop { head, body, step, .. } => h + size(head, 0) + size(body, 0) + size(step, 0),
        _ => 0,
    }
}

proof fn lemma_loop_sim<S>(
    m: Machine<S>,
    blocks: Seq<BlockV>,
    c: CodeV,
    h: nat,
    ways: Ways,
    s: S,
    fuel: nat,
)
    requires
        has_loop(blocks, c, h, ways),
        run_loop(m, c, s, fuel) is Some,
    ensures
        does(
            m,
            blocks,
            h,
            s,
            run_loop(m, c, s, fuel)->0,
            Ways { end: TermV::Jump(loop_exit(c, h)), ..ways },
        ),
    decreases fuel, c, 1int, 0int,
{
    match c {
        CodeV::Loop { head, cond, body, step } => {
            let b = h + size(head, 0);
            let st = b + size(body, 0);
            let exit = st + size(step, 0);
            let w1 = Ways { end: TermV::Branch { cond, then: b, els: exit }, ..ways };
            let w2 = Ways { end: TermV::Jump(st), brk: exit, cont: st };
            let w = Ways { end: TermV::Jump(exit), ..ways };
            let out = run_loop(m, c, s, fuel)->0;
            lemma_nothing(m, s);
            lemma_sim(m, blocks, head, 0, Seq::empty(), h, w1, s, s, fuel);
            match run(m, head, 0, s, fuel)->0 {
                Out::End(s1) => {
                    lemma_nothing(m, s1);
                    if (m.test)(s1, cond) {
                        lemma_goes_to(m, blocks, h, s, w1.end, s1, b);
                        lemma_sim(m, blocks, body, 0, Seq::empty(), b, w2, s1, s1, fuel);
                        let second = run(m, body, 0, s1, fuel)->0;
                        lemma_does_on(m, blocks, h, s, b, s1, second, w2);
                        match second {
                            Out::End(s2) => {
                                lemma_step_sim(m, blocks, c, h, ways, s2, fuel);
                                lemma_does_on(m, blocks, h, s, st, s2, out, w);
                            },
                            Out::Cont(s2) => {
                                lemma_step_sim(m, blocks, c, h, ways, s2, fuel);
                                lemma_does_on(m, blocks, h, s, st, s2, out, w);
                            },
                            _ => {},
                        }
                    } else {
                        lemma_goes_to(m, blocks, h, s, w1.end, s1, exit);
                    }
                },
                _ => {},
            }
        },
        _ => {},
    }
}

proof fn lemma_step_sim<S>(
    m: Machine<S>,
    blocks: Seq<BlockV>,
    c: CodeV,
    h: nat,
    ways: Ways,
    s: S,
    fuel: nat,
)
    requires
        has_loop(blocks, c, h, ways),
        run_step(m, c, s, fuel) is Some,
    ensures
        c matches CodeV::Loop { head, body, .. } && does(
            m,
            blocks,
            h + size(head, 0) + size(body, 0),
            s,
            run_step(m, c, s, fuel)->0,
            Ways { end: TermV::Jump(loop_exit(c, h)), ..ways },
        ),
    decreases fuel, c, 0int, 0int,
{
    match c {
        CodeV::Loop { head, cond, body, step } => {
            let st = h + size(head, 0) + size(body, 0);
            let w3 = Ways { end: TermV::Jump(h), ..ways };
            let w = Ways { end: TermV::Jump(loop_exit(c, h)), ..ways };
            lemma_nothing(m, s);
            lemma_sim(m, blocks, step, 0, Seq::empty(), st, w3, s, s, fuel);
            match run(m, step, 0, s, fuel)->0 {
                Out::End(s1) => {
                    lemma_loop_sim(m, blocks, c, h, ways, s1, (fuel - 1) as nat);
                    lemma_does_on(
                        m,
                        blocks,
                        st,
                        s,
                        h,
                        s1,
                        run_loop(m, c, s1, (fuel - 1) as nat)->0,
                        w,
                    );
                },
                _ => {},
            }
        },
        _ => {},
    }
}


// More fuel changes no answer.

proof fn lemma_run_more<S>(m: Machine<S>, cs: Seq<CodeV>, k: int, s: S, a: nat, b: nat)
    requires
        run(m, cs, k, s, a) is Some,
        a <= b,
    ensures
        run(m, cs, k, s, b) == run(m, cs, k, s, a),
    decreases a, cs, cs.len() - k, 0int,
{
    if 0 <= k < cs.len() {
        match cs[k] {
            CodeV::Do(inst) => match (m.step)(s, inst) {
                Did::Go(s1) => {
                    lemma_run_more(m, cs, k + 1, s1, a, b);
                },
                Did::Stop(_) => {},
            },
            CodeV::If { cond, then, els } => {
                if (m.test)(s, cond) {
                    lemma_run_more(m, then, 0, s, a, b);
                    if let Some(Out::End(s1)) = run(m, then, 0, s, a) {
                        lemma_run_more(m, cs, k + 1, s1, a, b);
                    }
                } else {
                    lemma_run_more(m, els, 0, s, a, b);
                    if let Some(Out::End(s1)) = run(m, els, 0, s, a) {
                        lemma_run_more(m, cs, k + 1, s1, a, b);
                    }
                }
            },
            CodeV::Loop { .. } => {
                lemma_loop_more(m, cs[k], s, a, b);
                if let Some(Out::End(s1)) = run_loop(m, cs[k], s, a) {
                    lemma_run_more(m, cs, k + 1, s1, a, b);
                }
            },
            CodeV::Switch { on, tags, cases, default } => {
                let i = tag_index(tags, (m.tag)(s, on), 0);
                if i < cases.len() && i < tags.len() {
                    lemma_tag_index(tags, (m.tag)(s, on), 0);
                    assert(run_case(m, cases, i, s, a) == run(m, cases[i], 0, s, a));
                    assert(run_case(m, cases, i, s, b) == run(m, cases[i], 0, s, b));
                    lemma_run_more(m, cases[i], 0, s, a, b);
                    if let Some(Out::End(s1)) = run(m, cases[i], 0, s, a) {
                        lemma_run_more(m, cs, k + 1, s1, a, b);
                    }
                } else {
                    lemma_run_more(m, default, 0, s, a, b);
                    if let Some(Out::End(s1)) = run(m, default, 0, s, a) {
                        lemma_run_more(m, cs, k + 1, s1, a, b);
                    }
                }
            },
            _ => {},
        }
    }
}

proof fn lemma_loop_more<S>(m: Machine<S>, c: CodeV, s: S, a: nat, b: nat)
    requires
        run_loop(m, c, s, a) is Some,
        a <= b,
    ensures
        run_loop(m, c, s, b) == run_loop(m, c, s, a),
    decreases a, c, 1int, 0int,
{
    match c {
        CodeV::Loop { head, cond, body, .. } => {
            lemma_run_more(m, head, 0, s, a, b);
            if let Some(Out::End(s1)) = run(m, head, 0, s, a) {
                if (m.test)(s1, cond) {
                    lemma_run_more(m, body, 0, s1, a, b);
                    match run(m, body, 0, s1, a) {
                        Some(Out::End(s2)) => {
                            lemma_step_more(m, c, s2, a, b);
                        },
                        Some(Out::Cont(s2)) => {
                            lemma_step_more(m, c, s2, a, b);
                        },
                        _ => {},
                    }
                }
            }
        },
        _ => {},
    }
}

proof fn lemma_step_more<S>(m: Machine<S>, c: CodeV, s: S, a: nat, b: nat)
    requires
        run_step(m, c, s, a) is Some,
        a <= b,
    ensures
        run_step(m, c, s, b) == run_step(m, c, s, a),
    decreases a, c, 0int, 0int,
{
    match c {
        CodeV::Loop { step, .. } => {
            lemma_run_more(m, step, 0, s, a, b);
            if let Some(Out::End(s1)) = run(m, step, 0, s, a) {
                lemma_loop_more(m, c, s1, (a - 1) as nat, (b - 1) as nat);
            }
        },
        _ => {},
    }
}

proof fn lemma_block_more<S>(m: Machine<S>, blocks: Seq<BlockV>, b: nat, s: S, n: nat, n2: nat)
    requires
        run_block(m, blocks, b, s, n) is Some,
        n <= n2,
    ensures
        run_block(m, blocks, b, s, n2) == run_block(m, blocks, b, s, n),
    decreases n,
{
    match run_insts(m, blocks[b as int].insts, 0, s) {
        Did::Go(s1) => {
            let term = blocks[b as int].term;
            match term {
                TermV::Jump(to) => {
                    lemma_block_more(m, blocks, to, s1, (n - 1) as nat, (n2 - 1) as nat);
                },
                TermV::Branch { cond, then, els } => {
                    let to = if (m.test)(s1, cond) {
                        then
                    } else {
                        els
                    };
                    lemma_block_more(m, blocks, to, s1, (n - 1) as nat, (n2 - 1) as nat);
                },
                TermV::Switch { on, tags, targets, default } => {
                    let i = tag_index(tags, (m.tag)(s1, on), 0);
                    let to = if i < targets.len() && i < tags.len() {
                        targets[i]
                    } else {
                        default
                    };
                    lemma_block_more(m, blocks, to, s1, (n - 1) as nat, (n2 - 1) as nat);
                },
                _ => {},
            }
        },
        Did::Stop(_) => {},
    }
}

/// A run that comes by a block and has an answer has the same from there on, sooner.
proof fn lemma_after<S>(
    m: Machine<S>,
    blocks: Seq<BlockV>,
    b: nat,
    s: S,
    mid: nat,
    s1: S,
    n: nat,
) -> (left: nat)
    requires
        comes(m, blocks, b, s, TermV::Jump(mid), s1),
        run_block(m, blocks, b, s, n) is Some,
    ensures
        left < n,
        run_block(m, blocks, mid, s1, left) == run_block(m, blocks, b, s, n),
{
    let taken = choose|t: nat| comes_in(m, blocks, b, s, TermV::Jump(mid), s1, t);
    if taken > n {
        lemma_block_more(m, blocks, b, s, n, taken + 0);
        assert(run_block(m, blocks, b, s, taken + 0) == run_term(
            m,
            blocks,
            TermV::Jump(mid),
            s1,
            0,
        ));
        0
    } else {
        let left = (n - taken) as nat;
        assert(run_block(m, blocks, b, s, taken + left) == run_term(
            m,
            blocks,
            TermV::Jump(mid),
            s1,
            left,
        ));
        left
    }
}

/// Code whose blocks come to an answer comes to one.
proof fn lemma_back<S>(
    m: Machine<S>,
    blocks: Seq<BlockV>,
    cs: Seq<CodeV>,
    k: int,
    insts: Seq<InstV>,
    at: nat,
    ways: Ways,
    s0: S,
    s: S,
    n: nat,
)
    requires
        has_part(blocks, at, flat(cs, k, insts, at, ways)),
        run_insts(m, insts, 0, s0) == Did::Go(s),
        run_block(m, blocks, at, s0, n) is Some,
    ensures
        run(m, cs, k, s, n) is Some,
    decreases n, cs, cs.len() - k, 2int,
{
    if 0 <= k < cs.len() {
        match cs[k] {
            CodeV::Do(inst) => {
                lemma_insts_push(m, insts, inst, 0, s0);
                if let Did::Go(s1) = (m.step)(s, inst) {
                    lemma_back(m, blocks, cs, k + 1, insts.push(inst), at, ways, s0, s1, n);
                }
            },
            CodeV::If { .. } => {
                lemma_back_if(m, blocks, cs, k, insts, at, ways, s0, s, n);
            },
            CodeV::Loop { .. } => {
                lemma_back_in_loop(m, blocks, cs, k, insts, at, ways, s0, s, n);
            },
            CodeV::Switch { .. } => {
                lemma_back_switch(m, blocks, cs, k, insts, at, ways, s0, s, n);
            },
            _ => {},
        }
    }
}

/// The part of a code that was chosen, and then the rest.
proof fn lemma_back_part<S>(
    m: Machine<S>,
    blocks: Seq<BlockV>,
    cs: Seq<CodeV>,
    k: int,
    body: Seq<CodeV>,
    to: nat,
    join: nat,
    ways: Ways,
    s: S,
    n: nat,
)
    requires
        n > 0,
        0 <= k < cs.len(),
        has_part(
            blocks,
            to,
            flat(body, 0, Seq::empty(), to, Ways { end: TermV::Jump(join), ..ways }),
        ),
        has_part(blocks, join, flat(cs, k + 1, Seq::empty(), join, ways)),
        run_block(m, blocks, to, s, (n - 1) as nat) is Some,
    ensures
        match run(m, body, 0, s, n) {
            Some(Out::End(s1)) => run(m, cs, k + 1, s1, n) is Some,
            Some(_) => true,
            None => false,
        },
    decreases n, cs, cs.len() - k, 0int,
{
    let inside = Ways { end: TermV::Jump(join), ..ways };
    let less = (n - 1) as nat;
    lemma_nothing(m, s);
    lemma_back(m, blocks, body, 0, Seq::empty(), to, inside, s, s, less);
    lemma_run_more(m, body, 0, s, less, n);
    if let Some(Out::End(s1)) = run(m, body, 0, s, less) {
        lemma_sim(m, blocks, body, 0, Seq::empty(), to, inside, s, s, less);
        let left = lemma_after(m, blocks, to, s, join, s1, less);
        lemma_nothing(m, s1);
        lemma_back(m, blocks, cs, k + 1, Seq::empty(), join, ways, s1, s1, left);
        lemma_run_more(m, cs, k + 1, s1, left, n);
    }
}

proof fn lemma_back_if<S>(
    m: Machine<S>,
    blocks: Seq<BlockV>,
    cs: Seq<CodeV>,
    k: int,
    insts: Seq<InstV>,
    at: nat,
    ways: Ways,
    s0: S,
    s: S,
    n: nat,
)
    requires
        0 <= k < cs.len(),
        cs[k] is If,
        has_part(blocks, at, flat(cs, k, insts, at, ways)),
        run_insts(m, insts, 0, s0) == Did::Go(s),
        run_block(m, blocks, at, s0, n) is Some,
    ensures
        run(m, cs, k, s, n) is Some,
    decreases n, cs, cs.len() - k, 1int,
{
    match cs[k] {
        CodeV::If { cond, then, els } => {
            let t = at + 1;
            let e = t + size(then, 0);
            let join = e + size(els, 0);
            let inside = Ways { end: TermV::Jump(join), ..ways };
            let term = TermV::Branch { cond, then: t, els: e };
            let ft = flat(then, 0, Seq::empty(), t, inside);
            let fe = flat(els, 0, Seq::empty(), e, inside);
            let rest = flat(cs, k + 1, Seq::empty(), join, ways);
            lemma_flat_len(then, 0, Seq::empty(), t, inside);
            lemma_flat_len(els, 0, Seq::empty(), e, inside);
            lemma_if_parts(blocks, at, BlockV { insts, term }, ft, fe, rest);
            if (m.test)(s, cond) {
                lemma_back_part(m, blocks, cs, k, then, t, join, ways, s, n);
            } else {
                lemma_back_part(m, blocks, cs, k, els, e, join, ways, s, n);
            }
        },
        _ => {},
    }
}

proof fn lemma_back_switch<S>(
    m: Machine<S>,
    blocks: Seq<BlockV>,
    cs: Seq<CodeV>,
    k: int,
    insts: Seq<InstV>,
    at: nat,
    ways: Ways,
    s0: S,
    s: S,
    n: nat,
)
    requires
        0 <= k < cs.len(),
        cs[k] is Switch,
        has_part(blocks, at, flat(cs, k, insts, at, ways)),
        run_insts(m, insts, 0, s0) == Did::Go(s),
        run_block(m, blocks, at, s0, n) is Some,
    ensures
        run(m, cs, k, s, n) is Some,
    decreases n, cs, cs.len() - k, 1int,
{
    match cs[k] {
        CodeV::Switch { on, tags, cases, default } => {
            let d = at + 1 + cases_size(cases, 0);
            let join = d + size(default, 0);
            let inside = Ways { end: TermV::Jump(join), ..ways };
            let targets = case_targets(cases, 0, at + 1);
            let term = TermV::Switch { on, tags, targets, default: d };
            let fc = flat_cases(cases, 0, at + 1, inside);
            let fd = flat(default, 0, Seq::empty(), d, inside);
            let rest = flat(cs, k + 1, Seq::empty(), join, ways);
            lemma_flat_cases_len(cases, 0, at + 1, inside);
            lemma_flat_len(default, 0, Seq::empty(), d, inside);
            lemma_if_parts(blocks, at, BlockV { insts, term }, fc, fd, rest);
            lemma_targets_len(cases, 0, at + 1);
            let i = tag_index(tags, (m.tag)(s, on), 0);
            lemma_tag_index(tags, (m.tag)(s, on), 0);
            if i < cases.len() && i < tags.len() {
                lemma_case_part(blocks, cases, 0, at + 1, inside, i);
                lemma_back_part(m, blocks, cs, k, cases[i], targets[i], join, ways, s, n);
                assert(run_case(m, cases, i, s, n) == run(m, cases[i], 0, s, n));
            } else {
                lemma_back_part(m, blocks, cs, k, default, d, join, ways, s, n);
            }
        },
        _ => {},
    }
}

proof fn lemma_back_in_loop<S>(
    m: Machine<S>,
    blocks: Seq<BlockV>,
    cs: Seq<CodeV>,
    k: int,
    insts: Seq<InstV>,
    at: nat,
    ways: Ways,
    s0: S,
    s: S,
    n: nat,
)
    requires
        0 <= k < cs.len(),
        cs[k] is Loop,
        has_part(blocks, at, flat(cs, k, insts, at, ways)),
        run_insts(m, insts, 0, s0) == Did::Go(s),
        run_block(m, blocks, at, s0, n) is Some,
    ensures
        run(m, cs, k, s, n) is Some,
    decreases n, cs, cs.len() - k, 1int,
{
    match cs[k] {
        CodeV::Loop { head, cond, body, step } => {
            let h = at + 1;
            let b = h + size(head, 0);
            let st = b + size(body, 0);
            let exit = st + size(step, 0);
            let w1 = Ways { end: TermV::Branch { cond, then: b, els: exit }, ..ways };
            let w2 = Ways { end: TermV::Jump(st), brk: exit, cont: st };
            let w3 = Ways { end: TermV::Jump(h), ..ways };
            let f1 = flat(head, 0, Seq::empty(), h, w1);
            let f2 = flat(body, 0, Seq::empty(), b, w2);
            let f3 = flat(step, 0, Seq::empty(), st, w3);
            let rest = flat(cs, k + 1, Seq::empty(), exit, ways);
            let first = BlockV { insts, term: TermV::Jump(h) };
            lemma_flat_len(head, 0, Seq::empty(), h, w1);
            lemma_flat_len(body, 0, Seq::empty(), b, w2);
            lemma_flat_len(step, 0, Seq::empty(), st, w3);
            lemma_split(blocks, at, seq![first] + f1 + f2 + f3, rest);
            lemma_if_parts(blocks, at, first, f1, f2, f3);
            let less = (n - 1) as nat;
            lemma_back_loop(m, blocks, cs[k], h, ways, s, less);
            lemma_loop_more(m, cs[k], s, less, n);
            if let Some(Out::End(s1)) = run_loop(m, cs[k], s, less) {
                lemma_loop_sim(m, blocks, cs[k], h, ways, s, less);
                let left = lemma_after(m, blocks, h, s, exit, s1, less);
                lemma_nothing(m, s1);
                lemma_back(m, blocks, cs, k + 1, Seq::empty(), exit, ways, s1, s1, left);
                lemma_run_more(m, cs, k + 1, s1, left, n);
            }
        },
        _ => {},
    }
}

proof fn lemma_back_loop<S>(
    m: Machine<S>,
    blocks: Seq<BlockV>,
    c: CodeV,
    h: nat,
    ways: Ways,
    s: S,
    n: nat,
)
    requires
        has_loop(blocks, c, h, ways),
        run_block(m, blocks, h, s, n) is Some,
    ensures
        run_loop(m, c, s, n) is Some,
    decreases n, c, 1int, 0int,
{
    match c {
        CodeV::Loop { head, cond, body, step } => {
            let b = h + size(head, 0);
            let st = b + size(body, 0);
            let exit = st + size(step, 0);
            let w1 = Ways { end: TermV::Branch { cond, then: b, els: exit }, ..ways };
            let w2 = Ways { end: TermV::Jump(st), brk: exit, cont: st };
            lemma_nothing(m, s);
            lemma_back(m, blocks, head, 0, Seq::empty(), h, w1, s, s, n);
            lemma_sim(m, blocks, head, 0, Seq::empty(), h, w1, s, s, n);
            if let Some(Out::End(s1)) = run(m, head, 0, s, n) {
                if (m.test)(s1, cond) {
                    lemma_goes_to(m, blocks, h, s, w1.end, s1, b);
                    let n1 = lemma_after(m, blocks, h, s, b, s1, n);
                    lemma_nothing(m, s1);
                    lemma_back(m, blocks, body, 0, Seq::empty(), b, w2, s1, s1, n1);
                    lemma_sim(m, blocks, body, 0, Seq::empty(), b, w2, s1, s1, n1);
                    lemma_run_more(m, body, 0, s1, n1, n);
                    match run(m, body, 0, s1, n1)->0 {
                        Out::End(s2) => {
                            let n2 = lemma_after(m, blocks, b, s1, st, s2, n1);
                            lemma_back_step(m, blocks, c, h, ways, s2, n2);
                            lemma_step_more(m, c, s2, n2, n);
                        },
                        Out::Cont(s2) => {
                            let n2 = lemma_after(m, blocks, b, s1, st, s2, n1);
                            lemma_back_step(m, blocks, c, h, ways, s2, n2);
                            lemma_step_more(m, c, s2, n2, n);
                        },
                        _ => {},
                    }
                }
            }
        },
        _ => {},
    }
}

proof fn lemma_back_step<S>(
    m: Machine<S>,
    blocks: Seq<BlockV>,
    c: CodeV,
    h: nat,
    ways: Ways,
    s: S,
    n: nat,
)
    requires
        has_loop(blocks, c, h, ways),
        c matches CodeV::Loop { head, body, .. } && run_block(
            m,
            blocks,
            h + size(head, 0) + size(body, 0),
            s,
            n,
        ) is Some,
    ensures
        run_step(m, c, s, n) is Some,
    decreases n, c, 0int, 0int,
{
    match c {
        CodeV::Loop { head, cond, body, step } => {
            let st = h + size(head, 0) + size(body, 0);
            let w3 = Ways { end: TermV::Jump(h), ..ways };
            lemma_nothing(m, s);
            lemma_back(m, blocks, step, 0, Seq::empty(), st, w3, s, s, n);
            lemma_sim(m, blocks, step, 0, Seq::empty(), st, w3, s, s, n);
            if let Some(Out::End(s1)) = run(m, step, 0, s, n) {
                let left = lemma_after(m, blocks, st, s, h, s1, n);
                lemma_back_loop(m, blocks, c, h, ways, s1, left);
                lemma_loop_more(m, c, s1, left, (n - 1) as nat);
            }
        },
        _ => {},
    }
}

// Laws.

/// What a function comes to, where it does not come to its end or leave a loop that it is
/// not in.
pub open spec fn answer<S>(out: Out<S>) -> Option<Fin<S>> {
    match out {
        Out::Ret(s, v) => Some(Fin::Ret(s, v)),
        Out::Halt(s, msg) => Some(Fin::Halt(s, msg)),
        Out::Stop(s) => Some(Fin::Stop(s)),
        _ => None,
    }
}

/// What comes of the code of a function comes of its blocks.
pub proof fn blocks_do_what_code_does<S>(m: Machine<S>, f: IrFuncV, s: S, fuel: nat)
    requires
        run(m, f.code, 0, s, fuel) matches Some(out) && answer(out) is Some,
    ensures
        exists|n: nat| #[trigger]
            run_block(m, flat_func(f).blocks, 0, s, n) == answer(
                run(m, f.code, 0, s, fuel)->0,
            ),
{
    let blocks = flat_func(f).blocks;
    let out = run(m, f.code, 0, s, fuel)->0;
    assert(blocks.subrange(0, blocks.len() as int) =~= blocks);
    lemma_nothing(m, s);
    lemma_sim(m, blocks, f.code, 0, Seq::empty(), 0, func_ways(), s, s, fuel);
    match out {
        Out::Ret(s1, v) => {
            let n = choose|n: nat| comes_in(m, blocks, 0, s, TermV::Return(v), s1, n);
            assert(run_block(m, blocks, 0, s, n + 0) == answer(out));
        },
        Out::Halt(s1, msg) => {
            let n = choose|n: nat| comes_in(m, blocks, 0, s, TermV::Panic(msg), s1, n);
            assert(run_block(m, blocks, 0, s, n + 0) == answer(out));
        },
        Out::Stop(s1) => {
            let n = choose|n: nat| stops_in(m, blocks, 0, s, s1, n);
            assert(run_block(m, blocks, 0, s, n + 0) == answer(out));
        },
        _ => {},
    }
}

/// Blocks come to nothing that their code does not come to; where they come to an answer,
/// so does the code, and not later.
pub proof fn code_does_what_blocks_do<S>(m: Machine<S>, f: IrFuncV, s: S, n: nat)
    requires
        run_block(m, flat_func(f).blocks, 0, s, n) is Some,
    ensures
        run(m, f.code, 0, s, n) matches Some(out) && (answer(out) is Some ==> answer(out)
            == run_block(m, flat_func(f).blocks, 0, s, n)),
{
    let blocks = flat_func(f).blocks;
    assert(blocks.subrange(0, blocks.len() as int) =~= blocks);
    lemma_nothing(m, s);
    lemma_back(m, blocks, f.code, 0, Seq::empty(), 0, func_ways(), s, s, n);
    let out = run(m, f.code, 0, s, n)->0;
    if answer(out) is Some {
        blocks_do_what_code_does(m, f, s, n);
        let n2 = choose|n2: nat| #[trigger] run_block(m, blocks, 0, s, n2) == answer(out);
        if n <= n2 {
            lemma_block_more(m, blocks, 0, s, n, n2);
        } else {
            lemma_block_more(m, blocks, 0, s, n2, n);
        }
    }
}

} // verus!
