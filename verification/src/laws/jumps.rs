//! Jumps in the text of a function lead where those of its blocks do.
use vstd::prelude::*;
#[allow(unused_imports)]
use crate::assembly::{ty_text, Around};
#[allow(unused_imports)]
use crate::blocks::{BlockV, TermV};
#[allow(unused_imports)]
use crate::faithful::machine::{machine, opnd_val, State};
#[allow(unused_imports)]
use crate::flow::{run_block, run_insts, run_term, tag_index, Did, Fin};
#[allow(unused_imports)]
use crate::ir::OpndV;
#[allow(unused_imports)]
use crate::laws::blockruns::{
    are_written, is_step, lemma_blocks_grow, lemma_insts_follow, lemma_insts_steps, lemma_steps,
    named_after_all,
};
#[allow(unused_imports)]
use crate::laws::control::{
    block_lines, block_strs, block_word, blocks_lines, blocks_strs, case_words, insts_lines,
    insts_strs, label_line, term_lines, term_opnd,
};
#[allow(unused_imports)]
use crate::laws::emitted::{is_writable, opnd_word, strs_with};
#[allow(unused_imports)]
use crate::laws::lines::Line;
#[allow(unused_imports)]
use crate::laws::llvm::{
    behind_label, carry_on, chosen, goes_on, int_written, leads_to, run_from, value, After, End, Env,
};
#[allow(unused_imports)]
use crate::laws::names::{agrees, is_named, lemma_starts, lemma_value, starts};
#[allow(unused_imports)]
use crate::laws::running::{are_funcs, fn_words};
#[allow(unused_imports)]
use crate::laws::writing::lemma_number;
#[allow(unused_imports)]
use crate::lexer::is_digit;
#[allow(unused_imports)]
use crate::meaning::Base;
#[allow(unused_imports)]
use crate::memory::heap::{on_machine, Heap, Word};
#[allow(unused_imports)]
use crate::text::dec_text;

verus! {

// Where the lines of a block are.

pub proof fn lemma_label_char(b: nat)
    ensures
        label_line(b).len() == 1,
        label_line(b)[0].len() > 0,
        label_line(b)[0][0] == 'b',
{
    reveal_strlit("b");
    reveal_strlit(":");
    assert(label_line(b)[0] =~= seq!['b'] + (dec_text(b) + ":"@));
}

proof fn lemma_labels_differ(a: nat, b: nat)
    requires
        label_line(a) == label_line(b),
    ensures
        a == b,
{
    reveal_strlit("b");
    reveal_strlit(":");
    let x = label_line(a)[0];
    let y = label_line(b)[0];
    assert(x == y);
    assert(x =~= "b"@ + dec_text(a) + ":"@);
    assert(y =~= "b"@ + dec_text(b) + ":"@);
    assert(dec_text(a) =~= x.subrange(1, x.len() - 1));
    assert(dec_text(b) =~= y.subrange(1, y.len() - 1));
    lemma_number(a);
    lemma_number(b);
}

/// The label of a block is no line of a block.
pub proof fn lemma_no_label(w: Around, strs: Seq<Seq<char>>, blk: BlockV, j: int, b: nat)
    requires
        0 <= j < block_lines(w, strs, blk).len(),
    ensures
        block_lines(w, strs, blk)[j] != label_line(b),
{
    let xs = insts_lines(w, strs, blk.insts, 0);
    let ts = term_lines(w, insts_strs(strs, blk.insts, 0), blk.term);
    lemma_insts_steps(w, strs, blk.insts, 0);
    lemma_label_char(b);
    if j < xs.len() {
        assert(block_lines(w, strs, blk)[j] == xs[j]);
        assert(is_step(xs[j]));
    } else {
        assert(block_lines(w, strs, blk)[j] == ts[j - xs.len()]);
        reveal_strlit("unreachable");
        assert("unreachable"@[0] == 'u');
        let l = ts[j - xs.len()];
        assert(l.len() > 1 || l[0] == "unreachable"@);
    }
}

/// Where the lines of block `b` are among those of the blocks from `i` on, and the string
/// constants before them.
proof fn lemma_there(w: Around, strs: Seq<Seq<char>>, bs: Seq<BlockV>, i: int, b: nat) -> (r: (
    int,
    Seq<Seq<char>>,
))
    requires
        0 <= i <= b < bs.len(),
    ensures
        ({
            let (at, before) = r;
            let all = blocks_lines(w, strs, bs, i);
            let mine = block_lines(w, before, bs[b as int]);
            &&& 0 <= at
            &&& at + 1 + mine.len() <= all.len()
            &&& all[at] == label_line(b)
            &&& forall|j: int| 0 <= j < at ==> #[trigger] all[j] != label_line(b)
            &&& forall|j: int| 0 <= j < mine.len() ==> all[at + 1 + j] == #[trigger] mine[j]
            &&& forall|end: Seq<Seq<char>>|
                starts(blocks_strs(strs, bs, i), end) ==> #[trigger] starts(
                    block_strs(before, bs[b as int]),
                    end,
                )
        }),
    decreases b - i,
{
    let all = blocks_lines(w, strs, bs, i);
    let head = seq![label_line(i as nat)];
    let first = block_lines(w, strs, bs[i]);
    let next = block_strs(strs, bs[i]);
    let rest = blocks_lines(w, next, bs, i + 1);
    assert(all == head + first + rest);
    if i == b {
        assert forall|j: int| 0 <= j < first.len() implies all[0 + 1 + j] == #[trigger] first[j] by {}
        assert forall|end: Seq<Seq<char>>| starts(blocks_strs(strs, bs, i), end) implies #[trigger] starts(
            block_strs(strs, bs[b as int]),
            end,
        ) by {
            lemma_blocks_grow(next, bs, i + 1, end);
        }
        (0, strs)
    } else {
        let (at, before) = lemma_there(w, next, bs, i + 1, b);
        let mine = block_lines(w, before, bs[b as int]);
        let n = 1 + first.len();
        assert(all[n + at] == rest[at]);
        assert forall|j: int| 0 <= j < n + at implies #[trigger] all[j] != label_line(b) by {
            if j == 0 {
                if label_line(i as nat) == label_line(b) {
                    lemma_labels_differ(i as nat, b);
                }
            } else if j < n {
                assert(all[j] == first[j - 1]);
                lemma_no_label(w, strs, bs[i], j - 1, b);
            } else {
                assert(all[j] == rest[j - n]);
            }
        }
        assert forall|j: int| 0 <= j < mine.len() implies all[n + at + 1 + j] == #[trigger] mine[j] by {
            assert(all[n + (at + 1 + j)] == rest[at + 1 + j]);
        }
        (n + at, before)
    }
}

proof fn lemma_behind(body: Seq<Line>, b: nat, i: int, at: int)
    requires
        0 <= i <= at < body.len(),
        body[at] == label_line(b),
        forall|j: int| i <= j < at ==> #[trigger] body[j] != label_line(b),
    ensures
        behind_label(body, block_word(b), i) == at + 1,
    decreases at - i,
{
    reveal_strlit("%b");
    reveal_strlit("b");
    reveal_strlit(":");
    assert(block_word(b).skip(1).push(':') =~= "b"@ + dec_text(b) + ":"@);
    assert(seq![block_word(b).skip(1).push(':')] =~= label_line(b));
    if i < at {
        lemma_behind(body, b, i + 1, at);
    }
}

// The end of a block.

/// The block that the end of a block leads to.
pub open spec fn next_block(other: Base<Word, Heap>, t: TermV, s: State<Word, Heap>) -> Option<nat> {
    let m = machine(on_machine(other));
    match t {
        TermV::Jump(b) => Some(b),
        TermV::Branch { cond, then, els } => Some(
            if (m.test)(s, cond) {
                then
            } else {
                els
            },
        ),
        TermV::Switch { on, tags, targets, default } => {
            let i = tag_index(tags, (m.tag)(s, on), 0);
            Some(
                if i < targets.len() && i < tags.len() {
                    targets[i]
                } else {
                    default
                },
            )
        },
        _ => None,
    }
}

/// As many tags as there are blocks for them.
pub open spec fn is_even(t: TermV) -> bool {
    t matches TermV::Switch { on, tags, targets, default } ==> tags.len() == targets.len()
}

proof fn lemma_tag_word(n: nat)
    ensures
        int_written(dec_text(n)) == n,
{
    lemma_number(n);
    assert(is_digit(dec_text(n)[0]));
}

proof fn lemma_chosen(
    front: Line,
    tags: Seq<usize>,
    targets: Seq<nat>,
    n: int,
    otherwise: nat,
    i: int,
    ws: Line,
)
    requires
        0 <= i <= tags.len(),
        tags.len() == targets.len(),
        ws == front + case_words(tags, targets, i),
    ensures
        ({
            let k = tag_index(tags, n, i);
            chosen(ws, n, block_word(otherwise), front.len() as int) == block_word(
                if k < tags.len() {
                    targets[k]
                } else {
                    otherwise
                },
            )
        }),
    decreases tags.len() - i,
{
    if i < tags.len() {
        let mine = seq!["i64"@, dec_text(tags[i] as nat), "label"@, block_word(targets[i])];
        let rest = case_words(tags, targets, i + 1);
        let f = front.len() as int;
        assert(ws =~= (front + mine) + rest);
        assert(ws[f + 1] == mine[1]);
        assert(ws[f + 3] == mine[3]);
        lemma_tag_word(tags[i] as nat);
        if tags[i] != n {
            lemma_chosen(front + mine, tags, targets, n, otherwise, i + 1, ws);
        }
    }
}

/// The text of the end of a block leads where the end does.
pub proof fn lemma_leads(
    other: Base<Word, Heap>,
    w: Around,
    before: Seq<Seq<char>>,
    strs: Seq<Seq<char>>,
    t: TermV,
    env: Env,
    s: State<Word, Heap>,
    named: Set<nat>,
)
    requires
        agrees(other, env, s, named, strs),
        is_named(named, term_opnd(t)),
        is_writable(term_opnd(t)),
        is_even(t),
        starts(strs_with(before, term_opnd(t)), strs),
        next_block(other, t, s) is Some,
    ensures
        ({
            let ws = term_lines(w, before, t)[0];
            &&& leads_to(other, ws, env) == Some(block_word(next_block(other, t, s)->0))
            &&& !goes_on(ws)
            &&& ws[1] != "="@
            &&& ws[0] != "ret"@
            &&& ws[0] != "call"@
        }),
{
    reveal(leads_to);
    let ws = term_lines(w, before, t)[0];
    lemma_value(other, env, s, named, before, strs, term_opnd(t));
    reveal_strlit("br");
    reveal_strlit("label");
    reveal_strlit("i1");
    reveal_strlit("i64");
    reveal_strlit("switch");
    reveal_strlit("ret");
    reveal_strlit("call");
    reveal_strlit("store");
    reveal_strlit("=");
    assert("br"@.len() == 2);
    assert("label"@.len() == 5);
    assert("i1"@.len() == 2);
    assert("i64"@.len() == 3);
    assert("switch"@.len() == 6);
    assert("ret"@.len() == 3);
    assert("call"@.len() == 4);
    assert("store"@.len() == 5);
    assert("="@.len() == 1);
    match t {
        TermV::Jump(b) => {
            assert(ws[0] == "br"@ && ws[1] == "label"@ && ws[2] == block_word(b));
        },
        TermV::Branch { cond, then, els } => {
            assert(ws[0] == "br"@ && ws[1] == "i1"@ && ws[2] == opnd_word(before.len(), cond));
            assert(ws[4] == block_word(then) && ws[6] == block_word(els));
        },
        TermV::Switch { on, tags, targets, default } => {
            let front = seq![
                "switch"@,
                "i64"@,
                opnd_word(before.len(), on),
                "label"@,
                block_word(default),
            ];
            assert(ws == front + case_words(tags, targets, 0));
            assert(ws[0] == "switch"@ && ws[1] == "i64"@ && ws[2] == opnd_word(before.len(), on));
            assert(ws[4] == block_word(default));
            let n = (machine(on_machine(other)).tag)(s, on);
            lemma_chosen(front, tags, targets, n, default, 0, ws);
        },
        _ => {},
    }
}

// Runs.

/// A run of blocks on which every instruction and every jump can be written, for as long as
/// `fuel` allows.
pub open spec fn is_writable_run(
    other: Base<Word, Heap>,
    w: Around,
    bs: Seq<BlockV>,
    b: nat,
    s: State<Word, Heap>,
    named: Set<nat>,
    fuel: nat,
) -> bool
    decreases fuel,
{
    fuel > 0 ==> {
        let blk = bs[b as int];
        let m = machine(on_machine(other));
        &&& b < bs.len()
        &&& are_written(other, w, s, named, blk.insts, 0)
        &&& match run_insts(m, blk.insts, 0, s) {
            Did::Stop(_) => true,
            Did::Go(t) => {
                let now = named_after_all(named, blk.insts, 0);
                &&& is_named(now, term_opnd(blk.term))
                &&& is_writable(term_opnd(blk.term))
                &&& is_even(blk.term)
                &&& match next_block(other, blk.term, t) {
                    Some(c) => is_writable_run(other, w, bs, c, t, now, (fuel - 1) as nat),
                    None => true,
                }
            },
        }
    }
}

/// A text ends as a function does: with the same value, with the same message or in the
/// middle, in the same memory; or neither comes to an end.
pub open spec fn ends_alike(
    other: Base<Word, Heap>,
    did: Option<End>,
    would: Option<Fin<State<Word, Heap>>>,
) -> bool {
    match (did, would) {
        (Some(End::Ret(v, h)), Some(Fin::Ret(s, o))) => h == s.w && v == opnd_val(
            on_machine(other),
            s,
            o,
        ),
        (Some(End::Halt(v, h)), Some(Fin::Halt(s, msg))) => h == s.w && v == (other.konst)(
            OpndV::Str(msg),
        ),
        (Some(End::Stop(h)), Some(Fin::Stop(s))) => h == s.w,
        (None, None) => true,
        _ => false,
    }
}

/// The text of blocks, somewhere in that of a function, runs as the blocks do.
pub proof fn lemma_blocks_run(
    other: Base<Word, Heap>,
    w: Around,
    before: Seq<Seq<char>>,
    strs: Seq<Seq<char>>,
    bs: Seq<BlockV>,
    b: nat,
    body: Seq<Line>,
    front: Seq<Line>,
    back: Seq<Line>,
    env: Env,
    s: State<Word, Heap>,
    named: Set<nat>,
    fuel: nat,
)
    requires
        agrees(other, env, s, named, strs),
        are_funcs(w.funcs),
        starts(blocks_strs(before, bs, 0), strs),
        body == front + blocks_lines(w, before, bs, 0) + back,
        forall|j: int, c: nat| 0 <= j < front.len() ==> #[trigger] front[j] != #[trigger] label_line(c),
        is_writable_run(other, w, bs, b, s, named, (fuel + 1) as nat),
    ensures
        ends_alike(
            other,
            run_from(
                other,
                fn_words(w.funcs),
                body,
                behind_label(body, block_word(b), 0),
                env,
                s.w,
                fuel,
            ),
            run_block(machine(on_machine(other)), bs, b, s, (fuel + 1) as nat),
        ),
    decreases fuel,
{
    let fs = fn_words(w.funcs);
    let m = machine(on_machine(other));
    let all = blocks_lines(w, before, bs, 0);
    let blk = bs[b as int];
    let (at, mine) = lemma_there(w, before, bs, 0, b);
    let f = front.len() as int;
    assert(body[f + at] == all[at]);
    assert forall|j: int| 0 <= j < f + at implies #[trigger] body[j] != label_line(b) by {
        if j < f {
            assert(body[j] == front[j]);
        } else {
            assert(body[j] == all[j - f]);
        }
    }
    lemma_behind(body, b, 0, f + at);
    let k = f + at + 1;
    let xs = insts_lines(w, mine, blk.insts, 0);
    let between = insts_strs(mine, blk.insts, 0);
    let ts = term_lines(w, between, blk.term);
    let ls = block_lines(w, mine, blk);
    assert(ls == xs + ts);
    assert forall|j: int| 0 <= j < ls.len() implies body[k + j] == #[trigger] ls[j] by {
        assert(body[f + (at + 1 + j)] == all[at + 1 + j]);
    }
    assert forall|j: int| 0 <= j < xs.len() implies body[k + j] == #[trigger] xs[j] by {
        assert(ls[j] == xs[j]);
    }
    lemma_insts_steps(w, mine, blk.insts, 0);
    lemma_steps(other, fs, body, k, xs, 0, env, s.w, fuel);
    assert(starts(block_strs(mine, blk), strs));
    lemma_starts(between, term_opnd(blk.term), strs);
    lemma_insts_follow(other, w, mine, strs, blk.insts, 0, env, s, named);
    if let Did::Go(t) = run_insts(m, blk.insts, 0, s) {
        if let After::Go(e, g) = carry_on(other, fs, xs, 0, env, s.w) {
            let now = named_after_all(named, blk.insts, 0);
            let at_end = k + xs.len();
            assert(ts.len() > 0);
            assert(ls[xs.len() as int] == ts[0]);
            assert(body[at_end] == ts[0]);
            match next_block(other, blk.term, t) {
                Some(c) => {
                    lemma_leads(other, w, between, strs, blk.term, e, t, now);
                    assert(run_term(m, bs, blk.term, t, fuel) == run_block(m, bs, c, t, fuel));
                    if fuel > 0 {
                        lemma_blocks_run(
                            other,
                            w,
                            before,
                            strs,
                            bs,
                            c,
                            body,
                            front,
                            back,
                            e,
                            t,
                            now,
                            (fuel - 1) as nat,
                        );
                    }
                },
                None => {
                    lemma_value(other, e, t, now, between, strs, term_opnd(blk.term));
                    lemma_ends(other, w, between, blk.term, ts[0]);
                },
            }
        }
    }
}

proof fn lemma_ends(other: Base<Word, Heap>, w: Around, strs: Seq<Seq<char>>, t: TermV, ws: Line)
    requires
        ws == term_lines(w, strs, t)[0],
        t is Return || t is Panic,
    ensures
        !goes_on(ws),
        ws[1] != "="@,
        t is Return ==> ws[0] == "ret"@ && ws[2] == opnd_word(strs.len(), term_opnd(t)),
        t is Panic ==> ws[0] != "ret"@ && ws[0] == "call"@ && ws[2] == "@lumo_panic"@ && ws[4]
            == opnd_word(strs.len(), term_opnd(t)),
{
    reveal_strlit("ret");
    reveal_strlit("call");
    reveal_strlit("store");
    reveal_strlit("void");
    reveal_strlit("=");
    reveal_strlit("i64");
    reveal_strlit("i1");
    reveal_strlit("double");
    reveal_strlit("ptr");
    assert("ret"@.len() == 3);
    assert("call"@.len() == 4);
    assert("store"@.len() == 5);
    assert("void"@.len() == 4);
    assert("="@.len() == 1);
    assert("i64"@.len() == 3);
    assert("i1"@.len() == 2);
    assert("double"@.len() == 6);
    assert("ptr"@.len() == 3);
    match t {
        TermV::Return(v) => {
            assert(ws[0] == "ret"@ && ws[1] == ty_text(w.ret));
        },
        TermV::Panic(m) => {
            assert(ws[0] == "call"@ && ws[1] == "void"@);
        },
        _ => {},
    }
}

} // verus!
