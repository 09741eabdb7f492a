//! The text of blocks runs as the blocks do.
use vstd::prelude::*;
#[allow(unused_imports)]
use crate::assembly::{one_text, two_text, Around};
#[allow(unused_imports)]
use crate::blocks::BlockV;
#[allow(unused_imports)]
use crate::faithful::machine::{machine, step, State};
#[allow(unused_imports)]
use crate::flow::{run_insts, Did};
#[allow(unused_imports)]
use crate::ir::{InstV, Op, OpndV};
#[allow(unused_imports)]
use crate::laws::control::{block_strs, blocks_strs, insts_lines, insts_strs, term_opnd};
#[allow(unused_imports)]
use crate::laws::effects::{follows, named_after};
#[allow(unused_imports)]
use crate::laws::emitted::strs_with;
#[allow(unused_imports)]
use crate::laws::instructions::{op_lines, op_strs};
#[allow(unused_imports)]
use crate::laws::lines::Line;
#[allow(unused_imports)]
use crate::laws::llvm::{carry_on, carry_out, goes_on, mnemonic, run_from, After, End, Env};
#[allow(unused_imports)]
use crate::laws::names::{agrees, lemma_starts, starts};
#[allow(unused_imports)]
use crate::laws::running::{
    are_funcs, fn_words, inst_lines, inst_strs, is_written, lemma_inst_follows,
};
#[allow(unused_imports)]
use crate::laws::vocabulary::lemma_mnemonics;
#[allow(unused_imports)]
use crate::meaning::Base;
#[allow(unused_imports)]
use crate::memory::heap::{on_machine, Heap, Word};

verus! {

// The lines of instructions are carried out one after the other.

/// A line that defines a name by an instruction, or writes to memory.
pub open spec fn is_step(ws: Line) -> bool {
    ws.len() > 2 && ((ws[1] == "="@ && mnemonic(ws[2]) is Some) || (ws[0] == "store"@
        && ws[1].len() > 1))
}

pub open spec fn are_steps(ls: Seq<Line>) -> bool {
    forall|i: int| 0 <= i < ls.len() ==> is_step(#[trigger] ls[i])
}

proof fn lemma_no_alloca()
    ensures
        mnemonic("alloca"@) is None,
{
    reveal(mnemonic);
    reveal_strlit("alloca");
    assert("alloca"@.len() == 6);
    assert("alloca"@[0] == 'a');
    assert("alloca"@[1] == 'l');
    lemma_six();
}

/// No instruction of six letters is spelled as room for a variable is.
proof fn lemma_six()
    ensures
        "add"@.len() == 3,
        "sub"@.len() == 3,
        "mul"@.len() == 3,
        "sdiv"@.len() == 4,
        "srem"@.len() == 4,
        "and"@.len() == 3,
        "or"@.len() == 2,
        "xor"@.len() == 3,
        "shl"@.len() == 3,
        "ashr"@.len() == 4,
        "fadd"@.len() == 4,
        "fsub"@.len() == 4,
        "fmul"@.len() == 4,
        "fdiv"@.len() == 4,
        "fneg"@.len() == 4,
        "icmp"@.len() == 4,
        "fcmp"@.len() == 4,
        "select"@[0] == 's',
        "sitofp"@[0] == 's',
        "fptosi"@[0] == 'f',
        "zext"@.len() == 4,
        "trunc"@.len() == 5,
        "bitcast"@.len() == 7,
        "ptrtoint"@.len() == 8,
        "inttoptr"@.len() == 8,
        "getelementptr"@.len() == 13,
        "load"@.len() == 4,
        "call"@.len() == 4,
{
    reveal_strlit("add");
    reveal_strlit("sub");
    reveal_strlit("mul");
    reveal_strlit("sdiv");
    reveal_strlit("srem");
    reveal_strlit("and");
    reveal_strlit("or");
    reveal_strlit("xor");
    reveal_strlit("shl");
    reveal_strlit("ashr");
    reveal_strlit("fadd");
    reveal_strlit("fsub");
    reveal_strlit("fmul");
    reveal_strlit("fdiv");
    reveal_strlit("fneg");
    reveal_strlit("icmp");
    reveal_strlit("fcmp");
    reveal_strlit("select");
    reveal_strlit("sitofp");
    reveal_strlit("fptosi");
    reveal_strlit("zext");
    reveal_strlit("trunc");
    reveal_strlit("bitcast");
    reveal_strlit("ptrtoint");
    reveal_strlit("inttoptr");
    reveal_strlit("getelementptr");
    reveal_strlit("load");
    reveal_strlit("call");
}

pub proof fn lemma_is_step(ws: Line)
    requires
        is_step(ws),
    ensures
        goes_on(ws),
        !(ws[1] == "="@ && ws[2] == "alloca"@),
{
    lemma_no_alloca();
    reveal_strlit("=");
    assert("="@.len() == 1);
}

pub proof fn lemma_steps(
    other: Base<Word, Heap>,
    funcs: Seq<Seq<char>>,
    body: Seq<Line>,
    k: int,
    ls: Seq<Line>,
    i: int,
    env: Env,
    h: Heap,
    fuel: nat,
)
    requires
        0 <= k,
        0 <= i <= ls.len(),
        k + ls.len() <= body.len(),
        are_steps(ls),
        forall|j: int| 0 <= j < ls.len() ==> body[k + j] == #[trigger] ls[j],
    ensures
        run_from(other, funcs, body, k + i, env, h, fuel) == (match carry_on(
            other,
            funcs,
            ls,
            i,
            env,
            h,
        ) {
            After::Go(e, g) => run_from(other, funcs, body, k + ls.len(), e, g, fuel),
            After::Stop(g) => Some(End::Stop(g)),
        }),
    decreases ls.len() - i,
{
    if i < ls.len() {
        assert(is_step(ls[i]));
        lemma_is_step(ls[i]);
        assert(body[k + i] == ls[i]);
        if let After::Go(e, g) = carry_out(other, funcs, ls[i], env, h) {
            lemma_steps(other, funcs, body, k, ls, i + 1, e, g, fuel);
        }
    }
}

proof fn lemma_carry_concat(
    other: Base<Word, Heap>,
    funcs: Seq<Seq<char>>,
    a: Seq<Line>,
    b: Seq<Line>,
    i: int,
    env: Env,
    h: Heap,
)
    requires
        0 <= i <= a.len(),
    ensures
        carry_on(other, funcs, a + b, i, env, h) == (match carry_on(other, funcs, a, i, env, h) {
            After::Go(e, g) => carry_on(other, funcs, b, 0, e, g),
            After::Stop(g) => After::Stop(g),
        }),
    decreases a.len() - i,
{
    if i < a.len() {
        assert((a + b)[i] == a[i]);
        if let After::Go(e, g) = carry_out(other, funcs, a[i], env, h) {
            lemma_carry_concat(other, funcs, a, b, i + 1, e, g);
        }
    } else {
        lemma_carry_shift(other, funcs, a, b, 0, env, h);
    }
}

proof fn lemma_carry_shift(
    other: Base<Word, Heap>,
    funcs: Seq<Seq<char>>,
    a: Seq<Line>,
    b: Seq<Line>,
    j: int,
    env: Env,
    h: Heap,
)
    requires
        0 <= j <= b.len(),
    ensures
        carry_on(other, funcs, a + b, a.len() + j, env, h) == carry_on(other, funcs, b, j, env, h),
    decreases b.len() - j,
{
    if j < b.len() {
        assert((a + b)[a.len() + j] == b[j]);
        if let After::Go(e, g) = carry_out(other, funcs, b[j], env, h) {
            lemma_carry_shift(other, funcs, a, b, j + 1, e, g);
        }
    }
}

proof fn lemma_op_steps(w: Around, strs: Seq<Seq<char>>, dst: nat, op: Op, args: Seq<OpndV>)
    ensures
        are_steps(op_lines(w, strs, dst, op, args)),
{
    lemma_mnemonics();
    let ls = op_lines(w, strs, dst, op, args);
    reveal_strlit("i64");
    reveal_strlit("i1");
    reveal_strlit("double");
    reveal_strlit("ptr");
    reveal_strlit("i8");
    assert forall|i: int| 0 <= i < ls.len() implies is_step(#[trigger] ls[i]) by {
        if two_text(op) is Some {
            assert(ls[i][1] == "="@);
            assert(ls[i][2] == crate::laws::wording::two_words(op).0);
        } else if one_text(op) is Some {
            let front = crate::laws::wording::one_words(op).0;
            assert(ls[i][1] == "="@);
            assert(ls[i][2] == front[0]);
        } else {
            match op {
                Op::Store | Op::SetVar(_) => {
                    assert(ls[i][0] == "store"@);
                    assert(ls[i][1].len() > 1);
                },
                Op::StoreByte => {
                    if i == 0 {
                        assert(ls[i][1] == "="@ && ls[i][2] == "trunc"@);
                    } else {
                        assert(ls[i][0] == "store"@ && ls[i][1] == "i8"@);
                    }
                },
                Op::Shl | Op::AShr => {
                    if i == 0 {
                        assert(ls[i][1] == "="@ && ls[i][2] == "and"@);
                    } else {
                        assert(ls[i][1] == "="@);
                        assert(ls[i][2] == "shl"@ || ls[i][2] == "ashr"@);
                    }
                },
                Op::LoadByte => {
                    if i == 0 {
                        assert(ls[i][1] == "="@ && ls[i][2] == "load"@);
                    } else {
                        assert(ls[i][1] == "="@ && ls[i][2] == "zext"@);
                    }
                },
                _ => {
                    assert(ls[i][1] == "="@);
                    assert(ls[i].len() > 2);
                    assert(mnemonic(ls[i][2]) is Some);
                },
            }
        }
    }
}

proof fn lemma_inst_steps(w: Around, strs: Seq<Seq<char>>, x: InstV)
    ensures
        are_steps(inst_lines(w, strs, x)),
{
    match x {
        InstV::Op { dst, op, args } => lemma_op_steps(w, strs, dst, op, args),
        InstV::Call { dst, func, args } => {
            lemma_mnemonics();
            let ls = inst_lines(w, strs, x);
            assert(ls[0][1] == "="@);
            assert(ls[0][2] == "call"@);
        },
    }
}

pub proof fn lemma_insts_steps(w: Around, strs: Seq<Seq<char>>, xs: Seq<InstV>, i: int)
    ensures
        are_steps(insts_lines(w, strs, xs, i)),
    decreases xs.len() - i,
{
    if 0 <= i < xs.len() {
        let a = inst_lines(w, strs, xs[i]);
        let b = insts_lines(w, inst_strs(strs, xs[i]), xs, i + 1);
        lemma_inst_steps(w, strs, xs[i]);
        lemma_insts_steps(w, inst_strs(strs, xs[i]), xs, i + 1);
        assert forall|j: int| 0 <= j < (a + b).len() implies is_step(#[trigger] (a + b)[j]) by {
            if j < a.len() {
                assert((a + b)[j] == a[j]);
            } else {
                assert((a + b)[j] == b[j - a.len()]);
            }
        }
    }
}

// Instructions.

/// Each of the instructions from `i` on can be written when its turn comes.
pub open spec fn are_written(
    other: Base<Word, Heap>,
    w: Around,
    s: State<Word, Heap>,
    named: Set<nat>,
    xs: Seq<InstV>,
    i: int,
) -> bool
    decreases xs.len() - i,
{
    0 <= i < xs.len() ==> {
        &&& is_written(other, w, s, named, xs[i])
        &&& match step(on_machine(other), s, xs[i]) {
            Did::Go(t) => are_written(other, w, t, named_after(named, xs[i]), xs, i + 1),
            Did::Stop(_) => true,
        }
    }
}

/// The registers that have a name after the instructions from `i` on.
pub open spec fn named_after_all(named: Set<nat>, xs: Seq<InstV>, i: int) -> Set<nat>
    decreases xs.len() - i,
{
    if !(0 <= i < xs.len()) {
        named
    } else {
        named_after_all(named_after(named, xs[i]), xs, i + 1)
    }
}

proof fn lemma_op_grows(strs: Seq<Seq<char>>, op: Op, args: Seq<OpndV>, end: Seq<Seq<char>>)
    requires
        starts(op_strs(strs, op, args), end),
    ensures
        starts(strs, end),
{
    let a = crate::assembly::arg(args, 0);
    let b = crate::assembly::arg(args, 1);
    let c = crate::assembly::arg(args, 2);
    if two_text(op) is Some {
        lemma_starts(strs_with(strs, a), b, end);
        lemma_starts(strs, a, end);
    } else if one_text(op) is Some {
        lemma_starts(strs, a, end);
    } else {
        match op {
            Op::Shl | Op::AShr | Op::Store | Op::StoreByte => {
                lemma_starts(strs_with(strs, b), a, end);
                lemma_starts(strs, b, end);
            },
            Op::ICmp(_) | Op::FCmp(_) | Op::Offset => {
                lemma_starts(strs_with(strs, a), b, end);
                lemma_starts(strs, a, end);
            },
            Op::Select => {
                lemma_starts(strs_with(strs_with(strs, a), b), c, end);
                lemma_starts(strs_with(strs, a), b, end);
                lemma_starts(strs, a, end);
            },
            Op::Slot(_) | Op::Load(_) | Op::LoadByte | Op::SetVar(_) => {
                lemma_starts(strs, a, end);
            },
            Op::Rt(_) => {
                crate::laws::effects::lemma_starts_all(strs, args, 0, end);
            },
            _ => {},
        }
    }
}

proof fn lemma_inst_grows(strs: Seq<Seq<char>>, x: InstV, end: Seq<Seq<char>>)
    requires
        starts(inst_strs(strs, x), end),
    ensures
        starts(strs, end),
{
    match x {
        InstV::Op { dst, op, args } => lemma_op_grows(strs, op, args, end),
        InstV::Call { dst, func, args } => {
            crate::laws::effects::lemma_starts_all(strs, args, 0, end);
        },
    }
}

proof fn lemma_insts_grow(strs: Seq<Seq<char>>, xs: Seq<InstV>, i: int, end: Seq<Seq<char>>)
    requires
        starts(insts_strs(strs, xs, i), end),
    ensures
        starts(strs, end),
    decreases xs.len() - i,
{
    if 0 <= i < xs.len() {
        lemma_insts_grow(inst_strs(strs, xs[i]), xs, i + 1, end);
        lemma_inst_grows(strs, xs[i], end);
    }
}

pub proof fn lemma_blocks_grow(strs: Seq<Seq<char>>, bs: Seq<BlockV>, i: int, end: Seq<Seq<char>>)
    requires
        starts(blocks_strs(strs, bs, i), end),
    ensures
        starts(strs, end),
    decreases bs.len() - i,
{
    if 0 <= i < bs.len() {
        lemma_blocks_grow(block_strs(strs, bs[i]), bs, i + 1, end);
        lemma_starts(insts_strs(strs, bs[i].insts, 0), term_opnd(bs[i].term), end);
        lemma_insts_grow(strs, bs[i].insts, 0, end);
    }
}

pub proof fn lemma_insts_follow(
    other: Base<Word, Heap>,
    w: Around,
    before: Seq<Seq<char>>,
    strs: Seq<Seq<char>>,
    xs: Seq<InstV>,
    i: int,
    env: Env,
    s: State<Word, Heap>,
    named: Set<nat>,
)
    requires
        agrees(other, env, s, named, strs),
        are_written(other, w, s, named, xs, i),
        are_funcs(w.funcs),
        starts(insts_strs(before, xs, i), strs),
        0 <= i,
    ensures
        follows(
            other,
            carry_on(other, fn_words(w.funcs), insts_lines(w, before, xs, i), 0, env, s.w),
            run_insts(machine(on_machine(other)), xs, i, s),
            named_after_all(named, xs, i),
            strs,
        ),
    decreases xs.len() - i,
{
    if i < xs.len() {
        let next = inst_strs(before, xs[i]);
        let a = inst_lines(w, before, xs[i]);
        let b = insts_lines(w, next, xs, i + 1);
        let fs = fn_words(w.funcs);
        lemma_insts_grow(next, xs, i + 1, strs);
        lemma_inst_follows(other, w, before, strs, xs[i], env, s, named);
        lemma_carry_concat(other, fs, a, b, 0, env, s.w);
        let did = carry_on(other, fs, a, 0, env, s.w);
        if let Did::Go(t) = step(on_machine(other), s, xs[i]) {
            if let After::Go(e, g) = did {
                lemma_insts_follow(
                    other,
                    w,
                    next,
                    strs,
                    xs,
                    i + 1,
                    e,
                    t,
                    named_after(named, xs[i]),
                );
            }
        }
    }
}

} // verus!
