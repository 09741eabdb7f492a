//! The words of the text of instructions.
use crate::ir::IrTy;
use vstd::prelude::*;
#[allow(unused_imports)]
use crate::assembly::{
    float_pred_text, opnd_ty, pred_text, say, say_def, say_num, say_opnd, say_shift, say_typed,
    ty_text, Around, Page,
};
#[allow(unused_imports)]
use crate::ir::{OpndV, Pred};
#[allow(unused_imports)]
use crate::laws::emitted::{
    is_gap, is_writable, lemma_opnd, lemma_same_text, opnd_word, reg_word, said, said1, said2,
    said_newline, said_num, said_on, strs_with,
};
#[allow(unused_imports)]
use crate::laws::lines::{ended, in_word, is_solid, lemma_dec_solid, page_read, Line};
#[allow(unused_imports)]
use crate::laws::wording::{
    at_line, lemma_def, lemma_front2, lemma_last, lemma_next, none, second_word,
};
#[allow(unused_imports)]
use crate::text::dec_text;

verus! {

pub proof fn lemma_ty_text(t: IrTy)
    ensures
        is_solid(ty_text(t)),
        ty_text(t).len() > 0,
{
    reveal_strlit("i64");
    reveal_strlit("i1");
    reveal_strlit("double");
    reveal_strlit("ptr");
}

/// A word that nothing was said of yet.
pub proof fn lemma_word(p: Page, lines: Seq<Line>, w: Line, s: Seq<char>)
    requires
        page_read(p) == in_word(lines, w, none()),
        is_solid(s),
    ensures
        page_read(say(p, s)) == in_word(lines, w, s),
{
    said_on(p, lines, w, none(), s);
    assert(none() + s =~= s);
}

pub proof fn lemma_number(p: Page, lines: Seq<Line>, w: Line, n: nat)
    requires
        page_read(p) == in_word(lines, w, none()),
    ensures
        page_read(say_num(p, n)) == in_word(lines, w, dec_text(n)),
        dec_text(n).len() > 0,
        say_num(p, n).strs == p.strs,
{
    lemma_dec_solid(n);
    said_num(p, lines, w, none(), n);
    assert(none() + dec_text(n) =~= dec_text(n));
}

/// A gap.
pub proof fn lemma_gapped(p: Page, lines: Seq<Line>, w: Line, cur: Seq<char>, s: Seq<char>)
    requires
        page_read(p) == in_word(lines, w, cur),
        is_gap(s),
        s.len() > 0,
    ensures
        page_read(say(p, s)) == in_word(lines, ended(w, cur), none()),
{
    assert(s =~= s + none());
    said(p, lines, w, cur, s, s, none());
}

/// A gap, a word and a blank.
pub proof fn lemma_then(
    p: Page,
    lines: Seq<Line>,
    w: Line,
    cur: Seq<char>,
    s: Seq<char>,
    gap: Seq<char>,
    a: Seq<char>,
)
    requires
        page_read(p) == in_word(lines, w, cur),
        s == gap + a + seq![' '],
        is_gap(gap),
        gap.len() > 0 || cur.len() == 0,
        is_solid(a),
        a.len() > 0,
    ensures
        page_read(say(p, s)) == in_word(lines, ended(w, cur).push(a), none()),
{
    assert(s =~= gap + a + seq![' '] + none());
    said1(p, lines, w, cur, s, gap, a, none());
}

pub proof fn lemma_typed(p: Page, lines: Seq<Line>, w: Line, regs: Seq<IrTy>, v: OpndV)
    requires
        page_read(p) == in_word(lines, w, none()),
        is_writable(v),
    ensures
        page_read(say_typed(p, regs, v)) == in_word(
            lines,
            w.push(ty_text(opnd_ty(regs, v))),
            opnd_word(p.strs.len(), v),
        ),
        opnd_word(p.strs.len(), v).len() > 0,
        say_typed(p, regs, v).strs == strs_with(p.strs, v),
{
    let t = ty_text(opnd_ty(regs, v));
    lemma_ty_text(opnd_ty(regs, v));
    lemma_word(p, lines, w, t);
    reveal_strlit(" ");
    lemma_gapped(say(p, t), lines, w, t, " "@);
    lemma_opnd(say(say(p, t), " "@), lines, w.push(t), v);
}

pub open spec fn aux_word(dst: nat, x: Seq<char>) -> Seq<char> {
    reg_word(dst) + x
}

/// The name of a register and more.
pub proof fn lemma_reg(p: Page, lines: Seq<Line>, w: Line, cur: Seq<char>, s: Seq<char>, gap: Seq<char>, dst: nat)
    requires
        page_read(p) == in_word(lines, w, cur),
        s == gap + "%r"@,
        is_gap(gap),
        gap.len() > 0 || cur.len() == 0,
    ensures
        page_read(say_num(say(p, s), dst)) == in_word(lines, ended(w, cur), reg_word(dst)),
        reg_word(dst).len() > 0,
{
    reveal_strlit("%r");
    said(p, lines, w, cur, s, gap, "%r"@);
    said_num(say(p, s), lines, ended(w, cur), "%r"@, dst);
    lemma_dec_solid(dst);
}

/// The start of an instruction whose value has a name of its own.
pub proof fn lemma_aux(
    p: Page,
    lines: Seq<Line>,
    dst: nat,
    s: Seq<char>,
    x: Seq<char>,
    m: Seq<char>,
    t: Seq<char>,
    gap: Seq<char>,
)
    requires
        at_line(p, lines),
        s == x + " "@ + "="@ + seq![' '] + m + seq![' '] + t + gap,
        is_solid(x) && is_solid(m) && is_solid(t),
        m.len() > 0 && t.len() > 0,
        is_gap(gap) && gap.len() > 0,
    ensures
        page_read(say(say_num(say(p, "  %r"@), dst), s)) == in_word(
            lines,
            seq![aux_word(dst, x), "="@, m, t],
            none(),
        ),
{
    reveal_strlit("  %r");
    reveal_strlit("%r");
    reveal_strlit("  ");
    reveal_strlit(" ");
    reveal_strlit("=");
    assert("  %r"@ =~= "  "@ + "%r"@);
    lemma_reg(p, lines, Seq::empty(), none(), "  %r"@, "  "@, dst);
    let q = say_num(say(p, "  %r"@), dst);
    said_on(q, lines, Seq::empty(), reg_word(dst), x);
    let q1 = say(q, x);
    let aw = aux_word(dst, x);
    let s2 = " "@ + "="@ + seq![' '] + m + seq![' '];
    assert(s2 =~= " "@ + "="@ + seq![' '] + m + seq![' '] + none());
    said2(q1, lines, Seq::empty(), aw, s2, " "@, "="@, m, none());
    let q2 = say(q1, s2);
    let w2 = Seq::<Seq<char>>::empty().push(aw).push("="@).push(m);
    lemma_word(q2, lines, w2, t);
    lemma_gapped(say(q2, t), lines, w2, t, gap);
    assert(w2.push(t) =~= seq![aw, "="@, m, t]);
    assert(say(say(q2, t), gap).text =~= say(q, s).text);
    lemma_same_text(say(say(q2, t), gap), say(q, s));
}

// The lines of each operation.

pub open spec fn def(dst: nat) -> Line {
    seq![reg_word(dst), "="@]
}

pub open spec fn shift_lines(strs: Seq<Seq<char>>, dst: nat, m: Seq<char>, a: OpndV, b: OpndV) -> Seq<
    Line,
> {
    let x = aux_word(dst, ".m"@);
    seq![
        seq![x, "="@, "and"@, "i64"@, opnd_word(strs.len(), b), "63"@],
        def(dst) + seq![m, "i64"@, second_word(strs, b, a), x],
    ]
}

pub proof fn lemma_shift(
    p: Page,
    lines: Seq<Line>,
    dst: nat,
    what: Seq<char>,
    m: Seq<char>,
    a: OpndV,
    b: OpndV,
)
    requires
        at_line(p, lines),
        crate::laws::wording::are_two(what, m, "i64"@),
        is_writable(a),
        is_writable(b),
    ensures
        at_line(say_shift(p, dst, what, a, b), lines + shift_lines(p.strs, dst, m, a, b)),
        say_shift(p, dst, what, a, b).strs == strs_with(strs_with(p.strs, b), a),
{
    reveal_strlit(".m = and i64 ");
    reveal_strlit(".m");
    reveal_strlit(" ");
    reveal_strlit("=");
    reveal_strlit("and");
    reveal_strlit("i64");
    reveal_strlit(", 63\n");
    reveal_strlit("63");
    reveal_strlit(", ");
    reveal_strlit(", %r");
    reveal_strlit("%r");
    reveal_strlit(".m\n");
    let x = aux_word(dst, ".m"@);
    assert(".m = and i64 "@ =~= ".m"@ + " "@ + "="@ + seq![' '] + "and"@ + seq![' '] + "i64"@
        + " "@);
    lemma_aux(p, lines, dst, ".m = and i64 "@, ".m"@, "and"@, "i64"@, " "@);
    let w1 = seq![x, "="@, "and"@, "i64"@];
    let p1 = say(say_num(say(p, "  %r"@), dst), ".m = and i64 "@);
    lemma_opnd(p1, lines, w1, b);
    let bw = opnd_word(p.strs.len(), b);
    assert(", 63\n"@ =~= ", "@ + "63"@ + seq!['\n']);
    lemma_last(say_opnd(p1, b), lines, w1, bw, ", 63\n"@, "63"@);
    let p2 = say(say_opnd(p1, b), ", 63\n"@);
    let l1 = w1.push(bw) + seq!["63"@];
    let lines2 = lines.push(l1);
    lemma_def(p2, lines2, dst);
    lemma_front2(say_def(p2, dst), lines2, def(dst), what, m, "i64"@);
    let w3 = def(dst) + seq![m, "i64"@];
    let p3 = say(say_def(p2, dst), what);
    lemma_opnd(p3, lines2, w3, a);
    let aw = second_word(p.strs, b, a);
    assert(", %r"@ =~= ", "@ + "%r"@);
    let p4 = say_opnd(p3, a);
    lemma_reg(p4, lines2, w3, aw, ", %r"@, ", "@, dst);
    let p5 = say_num(say(p4, ", %r"@), dst);
    said_on(p5, lines2, w3.push(aw), reg_word(dst), ".m"@);
    said_newline(say(p5, ".m"@), lines2, w3.push(aw), x);
    reveal_strlit("\n");
    assert(say(say(p5, ".m"@), "\n"@).text =~= say(p5, ".m\n"@).text);
    lemma_same_text(say(say(p5, ".m"@), "\n"@), say(p5, ".m\n"@));
    let l2 = w3.push(aw).push(x);
    assert(l1 =~= seq![x, "="@, "and"@, "i64"@, bw, "63"@]);
    assert(l2 =~= def(dst) + seq![m, "i64"@, aw, x]);
    assert(lines2.push(l2) =~= lines + shift_lines(p.strs, dst, m, a, b));
}

pub open spec fn test_line(
    strs: Seq<Seq<char>>,
    regs: Seq<IrTy>,
    dst: nat,
    pr: Pred,
    a: OpndV,
    b: OpndV,
) -> Line {
    def(dst) + seq![
        "icmp"@,
        pred_text(pr),
        ty_text(opnd_ty(regs, a)),
        opnd_word(strs.len(), a),
        second_word(strs, a, b),
    ]
}

pub proof fn lemma_pred_texts(pr: Pred)
    ensures
        is_solid(pred_text(pr)),
        pred_text(pr).len() > 0,
        is_solid(float_pred_text(pr)),
        float_pred_text(pr).len() > 0,
{
    reveal_strlit("eq");
    reveal_strlit("ne");
    reveal_strlit("slt");
    reveal_strlit("sle");
    reveal_strlit("sgt");
    reveal_strlit("sge");
    reveal_strlit("ult");
    reveal_strlit("uge");
    reveal_strlit("oeq");
    reveal_strlit("one");
    reveal_strlit("olt");
    reveal_strlit("ole");
    reveal_strlit("ogt");
    reveal_strlit("oge");
}

pub proof fn lemma_int_test(
    p: Page,
    lines: Seq<Line>,
    w: Around,
    dst: nat,
    pr: Pred,
    a: OpndV,
    b: OpndV,
)
    requires
        at_line(p, lines),
        is_writable(a),
        is_writable(b),
    ensures
        ({
            let p1 = say(say(say_def(p, dst), "icmp "@), pred_text(pr));
            let q = say(say_opnd(say(say_typed(say(p1, " "@), w.regs, a), ", "@), b), "\n"@);
            &&& at_line(q, lines.push(test_line(p.strs, w.regs, dst, pr, a, b)))
            &&& q.strs == strs_with(strs_with(p.strs, a), b)
        }),
{
    lemma_def(p, lines, dst);
    reveal_strlit("icmp ");
    reveal_strlit("icmp");
    reveal_strlit(" ");
    let p0 = say_def(p, dst);
    assert("icmp "@ =~= none() + "icmp"@ + seq![' ']);
    lemma_then(p0, lines, def(dst), none(), "icmp "@, none(), "icmp"@);
    let w1 = def(dst).push("icmp"@);
    lemma_pred_texts(pr);
    let p00 = say(p0, "icmp "@);
    lemma_word(p00, lines, w1, pred_text(pr));
    let p1 = say(p00, pred_text(pr));
    lemma_gapped(p1, lines, w1, pred_text(pr), " "@);
    let w2 = w1.push(pred_text(pr));
    let p2 = say(p1, " "@);
    lemma_typed(p2, lines, w2, w.regs, a);
    let w3 = w2.push(ty_text(opnd_ty(w.regs, a)));
    let p3 = say_typed(p2, w.regs, a);
    let aw = opnd_word(p.strs.len(), a);
    lemma_next(p3, lines, w3, aw);
    let p4 = say(p3, ", "@);
    lemma_opnd(p4, lines, w3.push(aw), b);
    let bw = second_word(p.strs, a, b);
    said_newline(say_opnd(p4, b), lines, w3.push(aw), bw);
    assert(w3.push(aw).push(bw) =~= test_line(p.strs, w.regs, dst, pr, a, b));
}

pub open spec fn float_test_line(
    strs: Seq<Seq<char>>,
    dst: nat,
    pr: Pred,
    a: OpndV,
    b: OpndV,
) -> Line {
    def(dst) + seq![
        "fcmp"@,
        float_pred_text(pr),
        "double"@,
        opnd_word(strs.len(), a),
        second_word(strs, a, b),
    ]
}

pub proof fn lemma_float_test(p: Page, lines: Seq<Line>, dst: nat, pr: Pred, a: OpndV, b: OpndV)
    requires
        at_line(p, lines),
        is_writable(a),
        is_writable(b),
    ensures
        ({
            let p1 = say(say(say_def(p, dst), "fcmp "@), float_pred_text(pr));
            let q = say(say_opnd(say(say_opnd(say(p1, " double "@), a), ", "@), b), "\n"@);
            &&& at_line(q, lines.push(float_test_line(p.strs, dst, pr, a, b)))
            &&& q.strs == strs_with(strs_with(p.strs, a), b)
        }),
{
    lemma_def(p, lines, dst);
    reveal_strlit("fcmp ");
    reveal_strlit("fcmp");
    reveal_strlit(" double ");
    reveal_strlit("double");
    let p0 = say_def(p, dst);
    assert("fcmp "@ =~= none() + "fcmp"@ + seq![' ']);
    lemma_then(p0, lines, def(dst), none(), "fcmp "@, none(), "fcmp"@);
    let w1 = def(dst).push("fcmp"@);
    lemma_pred_texts(pr);
    let p00 = say(p0, "fcmp "@);
    let t = float_pred_text(pr);
    lemma_word(p00, lines, w1, t);
    let p1 = say(p00, t);
    assert(" double "@ =~= seq![' '] + "double"@ + seq![' ']);
    lemma_then(p1, lines, w1, t, " double "@, seq![' '], "double"@);
    let w3 = w1.push(t).push("double"@);
    let p2 = say(p1, " double "@);
    lemma_opnd(p2, lines, w3, a);
    let aw = opnd_word(p.strs.len(), a);
    let p3 = say_opnd(p2, a);
    lemma_next(p3, lines, w3, aw);
    let p4 = say(p3, ", "@);
    lemma_opnd(p4, lines, w3.push(aw), b);
    let bw = second_word(p.strs, a, b);
    said_newline(say_opnd(p4, b), lines, w3.push(aw), bw);
    assert(w3.push(aw).push(bw) =~= float_test_line(p.strs, dst, pr, a, b));
}

pub open spec fn select_line(
    strs: Seq<Seq<char>>,
    regs: Seq<IrTy>,
    dst: nat,
    a: OpndV,
    b: OpndV,
    c: OpndV,
) -> Line {
    def(dst) + seq![
        "select"@,
        "i1"@,
        opnd_word(strs.len(), a),
        ty_text(opnd_ty(regs, b)),
        second_word(strs, a, b),
        ty_text(opnd_ty(regs, c)),
        opnd_word(strs_with(strs_with(strs, a), b).len(), c),
    ]
}

pub proof fn lemma_select(
    p: Page,
    lines: Seq<Line>,
    w: Around,
    dst: nat,
    a: OpndV,
    b: OpndV,
    c: OpndV,
)
    requires
        at_line(p, lines),
        is_writable(a),
        is_writable(b),
        is_writable(c),
    ensures
        ({
            let p1 = say(say_opnd(say(say_def(p, dst), "select i1 "@), a), ", "@);
            let p2 = say(say_typed(p1, w.regs, b), ", "@);
            let q = say(say_typed(p2, w.regs, c), "\n"@);
            &&& at_line(q, lines.push(select_line(p.strs, w.regs, dst, a, b, c)))
            &&& q.strs == strs_with(strs_with(strs_with(p.strs, a), b), c)
        }),
{
    lemma_def(p, lines, dst);
    reveal_strlit("select i1 ");
    reveal_strlit("select");
    reveal_strlit("i1");
    let p0 = say_def(p, dst);
    assert("select i1 "@ =~= "select"@ + seq![' '] + "i1"@ + seq![' ']);
    lemma_front2(p0, lines, def(dst), "select i1 "@, "select"@, "i1"@);
    let w1 = def(dst) + seq!["select"@, "i1"@];
    let p01 = say(p0, "select i1 "@);
    lemma_opnd(p01, lines, w1, a);
    let aw = opnd_word(p.strs.len(), a);
    lemma_next(say_opnd(p01, a), lines, w1, aw);
    let p1 = say(say_opnd(p01, a), ", "@);
    lemma_typed(p1, lines, w1.push(aw), w.regs, b);
    let w2 = w1.push(aw).push(ty_text(opnd_ty(w.regs, b)));
    let bw = second_word(p.strs, a, b);
    lemma_next(say_typed(p1, w.regs, b), lines, w2, bw);
    let p2 = say(say_typed(p1, w.regs, b), ", "@);
    lemma_typed(p2, lines, w2.push(bw), w.regs, c);
    let w3 = w2.push(bw).push(ty_text(opnd_ty(w.regs, c)));
    let cw = opnd_word(strs_with(strs_with(p.strs, a), b).len(), c);
    said_newline(say_typed(p2, w.regs, c), lines, w3, cw);
    assert(w3.push(cw) =~= select_line(p.strs, w.regs, dst, a, b, c));
}

} // verus!
