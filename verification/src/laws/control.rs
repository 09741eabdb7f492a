//! The words of the text of blocks.
use vstd::prelude::*;
#[allow(unused_imports)]
use crate::assembly::{
    say, say_blocks, say_cases, say_inst, say_insts, say_num, say_opnd, say_term, ty_text, Around,
    Page,
};
#[allow(unused_imports)]
use crate::blocks::{BlockV, TermV};
#[allow(unused_imports)]
use crate::ir::{InstV, OpndV};
#[allow(unused_imports)]
use crate::laws::emitted::{
    is_writable, lemma_opnd, lemma_same_text, opnd_word, said1, said2, said_end, said_newline,
    said_num, said_on, strs_with,
};
#[allow(unused_imports)]
use crate::laws::lines::{ended, in_word, is_solid, page_read, Line};
#[allow(unused_imports)]
use crate::laws::phrases::{lemma_gapped, lemma_number, lemma_then, lemma_ty_text, lemma_word};
#[allow(unused_imports)]
use crate::laws::places::are_writable;
#[allow(unused_imports)]
use crate::laws::running::{inst_args, inst_lines, inst_strs, lemma_inst_text};
#[allow(unused_imports)]
use crate::laws::wording::{at_line, none};
#[allow(unused_imports)]
use crate::text::dec_text;

verus! {

/// The word that leads to a block.
pub open spec fn block_word(b: nat) -> Seq<char> {
    "%b"@ + dec_text(b)
}

/// The words of the cases of a `switch` from `i` on.
pub open spec fn case_words(tags: Seq<usize>, targets: Seq<nat>, i: int) -> Line
    decreases tags.len() - i,
{
    if !(0 <= i < tags.len() && i < targets.len()) {
        Seq::empty()
    } else {
        seq!["i64"@, dec_text(tags[i] as nat), "label"@, block_word(targets[i])] + case_words(
            tags,
            targets,
            i + 1,
        )
    }
}

/// The lines of the end of a block.
pub open spec fn term_lines(w: Around, strs: Seq<Seq<char>>, t: TermV) -> Seq<Line> {
    match t {
        TermV::Jump(b) => seq![seq!["br"@, "label"@, block_word(b)]],
        TermV::Branch { cond, then, els } => seq![
            seq![
                "br"@,
                "i1"@,
                opnd_word(strs.len(), cond),
                "label"@,
                block_word(then),
                "label"@,
                block_word(els),
            ],
        ],
        TermV::Switch { on, tags, targets, default } => seq![
            seq!["switch"@, "i64"@, opnd_word(strs.len(), on), "label"@, block_word(default)]
                + case_words(tags, targets, 0),
        ],
        TermV::Return(v) => seq![seq!["ret"@, ty_text(w.ret), opnd_word(strs.len(), v)]],
        TermV::Panic(m) => seq![
            seq![
                "call"@,
                "void"@,
                "@lumo_panic"@,
                "ptr"@,
                opnd_word(strs.len(), OpndV::Str(m)),
            ],
            seq!["unreachable"@],
        ],
    }
}

/// The operand of the end of a block.
pub open spec fn term_opnd(t: TermV) -> OpndV {
    match t {
        TermV::Jump(_) => OpndV::Null,
        TermV::Branch { cond, then, els } => cond,
        TermV::Switch { on, tags, targets, default } => on,
        TermV::Return(v) => v,
        TermV::Panic(m) => OpndV::Str(m),
    }
}

/// `label %b` and a number behind an operand.
proof fn lemma_target(p: Page, lines: Seq<Line>, words: Line, cur: Seq<char>, b: nat)
    requires
        page_read(p) == in_word(lines, words, cur),
        cur.len() > 0,
    ensures
        page_read(say_num(say(p, ", label %b"@), b)) == in_word(
            lines,
            words.push(cur).push("label"@),
            block_word(b),
        ),
        block_word(b).len() > 0,
{
    reveal_strlit(", label %b");
    reveal_strlit(", ");
    reveal_strlit("label");
    reveal_strlit("%b");
    assert(", label %b"@ =~= ", "@ + "label"@ + seq![' '] + "%b"@);
    said1(p, lines, words, cur, ", label %b"@, ", "@, "label"@, "%b"@);
    said_num(say(p, ", label %b"@), lines, words.push(cur).push("label"@), "%b"@, b);
}

proof fn lemma_cases(
    p: Page,
    lines: Seq<Line>,
    words: Line,
    cur: Seq<char>,
    tags: Seq<usize>,
    targets: Seq<nat>,
    i: int,
)
    requires
        page_read(p) == in_word(lines, words, cur),
        0 <= i,
    ensures
        at_line(
            say(say_cases(p, tags, targets, i), " ]\n"@),
            lines.push(ended(words, cur) + case_words(tags, targets, i)),
        ),
        say_cases(p, tags, targets, i).strs == p.strs,
    decreases tags.len() - i,
{
    if !(0 <= i < tags.len() && i < targets.len()) {
        reveal_strlit(" ]\n");
        reveal_strlit(" ]");
        assert(" ]\n"@ =~= " ]"@ + none() + seq!['\n']);
        said_end(p, lines, words, cur, " ]\n"@, " ]"@, none());
        assert(ended(words, cur) + case_words(tags, targets, i) =~= ended(words, cur));
    } else {
        reveal_strlit(" i64 ");
        reveal_strlit("i64");
        reveal_strlit(" ");
        assert(" i64 "@ =~= " "@ + "i64"@ + seq![' ']);
        lemma_then(p, lines, words, cur, " i64 "@, " "@, "i64"@);
        let w1 = ended(words, cur).push("i64"@);
        let p1 = say(p, " i64 "@);
        let t = dec_text(tags[i] as nat);
        lemma_number(p1, lines, w1, tags[i] as nat);
        let p2 = say_num(p1, tags[i] as nat);
        lemma_target(p2, lines, w1, t, targets[i]);
        let p3 = say_num(say(p2, ", label %b"@), targets[i]);
        let w2 = w1.push(t).push("label"@);
        lemma_cases(p3, lines, w2, block_word(targets[i]), tags, targets, i + 1);
        assert(w2.push(block_word(targets[i])) + case_words(tags, targets, i + 1) =~= ended(
            words,
            cur,
        ) + case_words(tags, targets, i));
    }
}

/// A text of two words with blanks before them and a blank behind.
proof fn lemma_opening(
    p: Page,
    lines: Seq<Line>,
    s: Seq<char>,
    a: Seq<char>,
    b: Seq<char>,
    tail: Seq<char>,
)
    requires
        at_line(p, lines),
        s == "  "@ + a + seq![' '] + b + seq![' '] + tail,
        is_solid(a) && is_solid(b) && is_solid(tail),
        a.len() > 0 && b.len() > 0,
    ensures
        page_read(say(p, s)) == in_word(lines, seq![a, b], tail),
{
    reveal_strlit("  ");
    said2(p, lines, Seq::empty(), none(), s, "  "@, a, b, tail);
    assert(Seq::<Seq<char>>::empty().push(a).push(b) =~= seq![a, b]);
}

pub proof fn lemma_term_text(p: Page, lines: Seq<Line>, w: Around, t: TermV)
    requires
        at_line(p, lines),
        is_writable(term_opnd(t)),
    ensures
        at_line(say_term(p, w, t), lines + term_lines(w, p.strs, t)),
        say_term(p, w, t).strs == strs_with(p.strs, term_opnd(t)),
{
    let ls = term_lines(w, p.strs, t);
    reveal_strlit("  ");
    reveal_strlit("br");
    reveal_strlit("label");
    reveal_strlit("%b");
    reveal_strlit("i1");
    match t {
        TermV::Jump(b) => {
            reveal_strlit("  br label %b");
            assert("  br label %b"@ =~= "  "@ + "br"@ + seq![' '] + "label"@ + seq![' '] + "%b"@);
            lemma_opening(p, lines, "  br label %b"@, "br"@, "label"@, "%b"@);
            let p1 = say(p, "  br label %b"@);
            let w1 = seq!["br"@, "label"@];
            said_num(p1, lines, w1, "%b"@, b);
            said_newline(say_num(p1, b), lines, w1, block_word(b));
            assert(w1.push(block_word(b)) =~= ls[0]);
            assert(lines.push(ls[0]) =~= lines + ls);
        },
        TermV::Branch { cond, then, els } => {
            reveal_strlit("  br i1 ");
            assert("  br i1 "@ =~= "  "@ + "br"@ + seq![' '] + "i1"@ + seq![' '] + none());
            lemma_opening(p, lines, "  br i1 "@, "br"@, "i1"@, none());
            let p1 = say(p, "  br i1 "@);
            let w1 = seq!["br"@, "i1"@];
            lemma_opnd(p1, lines, w1, cond);
            let cw = opnd_word(p.strs.len(), cond);
            let p2 = say_opnd(p1, cond);
            lemma_target(p2, lines, w1, cw, then);
            let p3 = say_num(say(p2, ", label %b"@), then);
            let w2 = w1.push(cw).push("label"@);
            lemma_target(p3, lines, w2, block_word(then), els);
            let p4 = say_num(say(p3, ", label %b"@), els);
            let w3 = w2.push(block_word(then)).push("label"@);
            said_newline(p4, lines, w3, block_word(els));
            assert(w3.push(block_word(els)) =~= ls[0]);
            assert(lines.push(ls[0]) =~= lines + ls);
        },
        TermV::Switch { on, tags, targets, default } => {
            reveal_strlit("  switch i64 ");
            reveal_strlit("switch");
            reveal_strlit("i64");
            reveal_strlit(" [");
            assert("  switch i64 "@ =~= "  "@ + "switch"@ + seq![' '] + "i64"@ + seq![' ']
                + none());
            lemma_opening(p, lines, "  switch i64 "@, "switch"@, "i64"@, none());
            let p1 = say(p, "  switch i64 "@);
            let w1 = seq!["switch"@, "i64"@];
            lemma_opnd(p1, lines, w1, on);
            let vw = opnd_word(p.strs.len(), on);
            let p2 = say_opnd(p1, on);
            lemma_target(p2, lines, w1, vw, default);
            let p3 = say_num(say(p2, ", label %b"@), default);
            let w2 = w1.push(vw).push("label"@);
            lemma_gapped(p3, lines, w2, block_word(default), " ["@);
            let p4 = say(p3, " ["@);
            let w3 = w2.push(block_word(default));
            lemma_cases(p4, lines, w3, none(), tags, targets, 0);
            assert(w3 + case_words(tags, targets, 0) =~= ls[0]);
            assert(lines.push(ls[0]) =~= lines + ls);
        },
        TermV::Return(v) => {
            reveal_strlit("  ret ");
            reveal_strlit("ret");
            reveal_strlit(" ");
            assert("  ret "@ =~= "  "@ + "ret"@ + seq![' ']);
            lemma_then(p, lines, Seq::empty(), none(), "  ret "@, "  "@, "ret"@);
            let w1 = Seq::<Seq<char>>::empty().push("ret"@);
            let p1 = say(p, "  ret "@);
            let ty = ty_text(w.ret);
            lemma_ty_text(w.ret);
            lemma_word(p1, lines, w1, ty);
            lemma_gapped(say(p1, ty), lines, w1, ty, " "@);
            let p2 = say(say(p1, ty), " "@);
            lemma_opnd(p2, lines, w1.push(ty), v);
            let vw = opnd_word(p.strs.len(), v);
            said_newline(say_opnd(p2, v), lines, w1.push(ty), vw);
            assert(w1.push(ty).push(vw) =~= ls[0]);
            assert(lines.push(ls[0]) =~= lines + ls);
        },
        TermV::Panic(m) => {
            lemma_panic_text(p, lines, w, m);
        },
    }
}

proof fn lemma_panic_text(p: Page, lines: Seq<Line>, w: Around, m: Seq<char>)
    requires
        at_line(p, lines),
    ensures
        at_line(
            say_term(p, w, TermV::Panic(m)),
            lines + term_lines(w, p.strs, TermV::Panic(m)),
        ),
        say_term(p, w, TermV::Panic(m)).strs == p.strs.push(m),
{
    let ls = term_lines(w, p.strs, TermV::Panic(m));
    reveal_strlit("  ");
    reveal_strlit("  call void @lumo_panic(ptr ");
    reveal_strlit("call");
    reveal_strlit("void");
    reveal_strlit("@lumo_panic");
    reveal_strlit("ptr");
    reveal_strlit(")\n  unreachable\n");
    reveal_strlit("unreachable");
    let s = "  call void @lumo_panic(ptr "@;
    let s1 = "  "@ + "call"@ + seq![' '] + "void"@ + seq![' '] + "@lumo_panic"@;
    lemma_opening(p, lines, s1, "call"@, "void"@, "@lumo_panic"@);
    let s2 = seq!['('] + "ptr"@ + seq![' '];
    let w1 = seq!["call"@, "void"@];
    lemma_then(say(p, s1), lines, w1, "@lumo_panic"@, s2, seq!['('], "ptr"@);
    let p1 = say(p, s);
    assert(say(say(p, s1), s2).text =~= p1.text);
    lemma_same_text(say(say(p, s1), s2), p1);
    let w2 = w1.push("@lumo_panic"@).push("ptr"@);
    lemma_opnd(p1, lines, w2, OpndV::Str(m));
    let vw = opnd_word(p.strs.len(), OpndV::Str(m));
    let p2 = say_opnd(p1, OpndV::Str(m));
    let e1 = seq![')'] + none() + seq!['\n'];
    said_end(p2, lines, w2, vw, e1, seq![')'], none());
    let l1 = w2.push(vw);
    let e2 = "  "@ + "unreachable"@ + seq!['\n'];
    said_end(say(p2, e1), lines.push(l1), Seq::empty(), none(), e2, "  "@, "unreachable"@);
    assert(say(say(p2, e1), e2).text =~= say(p2, ")\n  unreachable\n"@).text);
    lemma_same_text(say(say(p2, e1), e2), say(p2, ")\n  unreachable\n"@));
    assert(l1 =~= ls[0]);
    assert(Seq::<Seq<char>>::empty().push("unreachable"@) =~= ls[1]);
    assert(lines.push(l1).push(ls[1]) =~= lines + ls);
}

// Instructions and blocks.

pub open spec fn insts_lines(w: Around, strs: Seq<Seq<char>>, xs: Seq<InstV>, i: int) -> Seq<Line>
    decreases xs.len() - i,
{
    if !(0 <= i < xs.len()) {
        Seq::empty()
    } else {
        inst_lines(w, strs, xs[i]) + insts_lines(w, inst_strs(strs, xs[i]), xs, i + 1)
    }
}

pub open spec fn insts_strs(strs: Seq<Seq<char>>, xs: Seq<InstV>, i: int) -> Seq<Seq<char>>
    decreases xs.len() - i,
{
    if !(0 <= i < xs.len()) {
        strs
    } else {
        insts_strs(inst_strs(strs, xs[i]), xs, i + 1)
    }
}

/// The operands of a block can be written.
pub open spec fn block_writable(b: BlockV) -> bool {
    &&& forall|i: int| 0 <= i < b.insts.len() ==> are_writable(inst_args(#[trigger] b.insts[i]))
    &&& is_writable(term_opnd(b.term))
}

proof fn lemma_insts_text(p: Page, lines: Seq<Line>, w: Around, xs: Seq<InstV>, i: int)
    requires
        at_line(p, lines),
        forall|k: int| 0 <= k < xs.len() ==> are_writable(inst_args(#[trigger] xs[k])),
        0 <= i,
    ensures
        at_line(say_insts(p, w, xs, i), lines + insts_lines(w, p.strs, xs, i)),
        say_insts(p, w, xs, i).strs == insts_strs(p.strs, xs, i),
    decreases xs.len() - i,
{
    if i < xs.len() {
        lemma_inst_text(p, lines, w, xs[i]);
        let ls = inst_lines(w, p.strs, xs[i]);
        let rest = insts_lines(w, inst_strs(p.strs, xs[i]), xs, i + 1);
        lemma_insts_text(say_inst(p, w, xs[i]), lines + ls, w, xs, i + 1);
        assert(lines + ls + rest =~= lines + (ls + rest));
    } else {
        assert(lines + insts_lines(w, p.strs, xs, i) =~= lines);
    }
}

/// The line before a block.
pub open spec fn label_line(b: nat) -> Line {
    seq!["b"@ + dec_text(b) + ":"@]
}

pub open spec fn block_lines(w: Around, strs: Seq<Seq<char>>, b: BlockV) -> Seq<Line> {
    insts_lines(w, strs, b.insts, 0) + term_lines(w, insts_strs(strs, b.insts, 0), b.term)
}

pub open spec fn block_strs(strs: Seq<Seq<char>>, b: BlockV) -> Seq<Seq<char>> {
    strs_with(insts_strs(strs, b.insts, 0), term_opnd(b.term))
}

/// The lines of the blocks from `i` on.
pub open spec fn blocks_lines(w: Around, strs: Seq<Seq<char>>, bs: Seq<BlockV>, i: int) -> Seq<Line>
    decreases bs.len() - i,
{
    if !(0 <= i < bs.len()) {
        Seq::empty()
    } else {
        seq![label_line(i as nat)] + block_lines(w, strs, bs[i]) + blocks_lines(
            w,
            block_strs(strs, bs[i]),
            bs,
            i + 1,
        )
    }
}

pub open spec fn blocks_strs(strs: Seq<Seq<char>>, bs: Seq<BlockV>, i: int) -> Seq<Seq<char>>
    decreases bs.len() - i,
{
    if !(0 <= i < bs.len()) {
        strs
    } else {
        blocks_strs(block_strs(strs, bs[i]), bs, i + 1)
    }
}

proof fn lemma_label_text(p: Page, lines: Seq<Line>, b: nat)
    requires
        at_line(p, lines),
    ensures
        at_line(say(say_num(say(p, "b"@), b), ":\n"@), lines.push(label_line(b))),
{
    reveal_strlit("b");
    reveal_strlit(":\n");
    reveal_strlit(":");
    reveal_strlit("\n");
    lemma_word(p, lines, Seq::empty(), "b"@);
    let p1 = say(p, "b"@);
    said_num(p1, lines, Seq::empty(), "b"@, b);
    let p2 = say_num(p1, b);
    let cur = "b"@ + dec_text(b);
    said_on(p2, lines, Seq::empty(), cur, ":"@);
    said_newline(say(p2, ":"@), lines, Seq::empty(), cur + ":"@);
    assert(say(say(p2, ":"@), "\n"@).text =~= say(p2, ":\n"@).text);
    lemma_same_text(say(say(p2, ":"@), "\n"@), say(p2, ":\n"@));
    assert(Seq::<Seq<char>>::empty().push(cur + ":"@) =~= label_line(b));
}

pub proof fn lemma_blocks_text(p: Page, lines: Seq<Line>, w: Around, bs: Seq<BlockV>, i: int)
    requires
        at_line(p, lines),
        forall|k: int| 0 <= k < bs.len() ==> block_writable(#[trigger] bs[k]),
        0 <= i,
    ensures
        at_line(say_blocks(p, w, bs, i), lines + blocks_lines(w, p.strs, bs, i)),
        say_blocks(p, w, bs, i).strs == blocks_strs(p.strs, bs, i),
    decreases bs.len() - i,
{
    if i < bs.len() {
        let b = bs[i];
        assert(block_writable(b));
        lemma_label_text(p, lines, i as nat);
        let p1 = say(say_num(say(p, "b"@), i as nat), ":\n"@);
        let l1 = lines.push(label_line(i as nat));
        lemma_insts_text(p1, l1, w, b.insts, 0);
        let p2 = say_insts(p1, w, b.insts, 0);
        let l2 = l1 + insts_lines(w, p.strs, b.insts, 0);
        lemma_term_text(p2, l2, w, b.term);
        let p3 = say_term(p2, w, b.term);
        let l3 = l2 + term_lines(w, p2.strs, b.term);
        lemma_blocks_text(p3, l3, w, bs, i + 1);
        assert(l3 + blocks_lines(w, block_strs(p.strs, b), bs, i + 1) =~= lines + blocks_lines(
            w,
            p.strs,
            bs,
            i,
        ));
    } else {
        assert(lines + blocks_lines(w, p.strs, bs, i) =~= lines);
    }
}

} // verus!
