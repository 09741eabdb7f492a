//! The words of the text of an operation.
use crate::ir::Op;
use vstd::prelude::*;
#[allow(unused_imports)]
use crate::assembly::{one_text, say, say_def, say_num, say_one, say_opnd, say_two, two_text, Page};
#[allow(unused_imports)]
use crate::ir::OpndV;
#[allow(unused_imports)]
use crate::laws::emitted::{
    is_gap, is_writable, lemma_opnd, opnd_word, reg_word, said, said1, said2, said_end,
    said_newline, said_num, strs_with,
};
#[allow(unused_imports)]
use crate::laws::lines::{in_word, is_solid, lemma_dec_solid, page_read, Line};

verus! {

/// Whole lines, and nothing behind them.
pub open spec fn at_line(p: Page, lines: Seq<Line>) -> bool {
    page_read(p) == in_word(lines, Seq::empty(), Seq::empty())
}

pub open spec fn none() -> Seq<char> {
    Seq::empty()
}

pub proof fn lemma_def(p: Page, lines: Seq<Line>, dst: nat)
    requires
        at_line(p, lines),
    ensures
        page_read(say_def(p, dst)) == in_word(lines, seq![reg_word(dst), "="@], none()),
        say_def(p, dst).strs == p.strs,
{
    reveal_strlit("  %r");
    reveal_strlit("  ");
    reveal_strlit("%r");
    reveal_strlit(" = ");
    reveal_strlit(" ");
    reveal_strlit("=");
    assert("  %r"@ =~= "  "@ + "%r"@);
    said(p, lines, Seq::empty(), none(), "  %r"@, "  "@, "%r"@);
    let p1 = say(p, "  %r"@);
    said_num(p1, lines, Seq::empty(), "%r"@, dst);
    lemma_dec_solid(dst);
    assert(" = "@ =~= " "@ + "="@ + seq![' '] + none());
    said1(say_num(p1, dst), lines, Seq::empty(), reg_word(dst), " = "@, " "@, "="@, none());
    assert(Seq::<Seq<char>>::empty().push(reg_word(dst)).push("="@) =~= seq![reg_word(dst), "="@]);
}

/// Two words.
pub open spec fn are_two(s: Seq<char>, a: Seq<char>, b: Seq<char>) -> bool {
    s == a + seq![' '] + b + seq![' '] && is_solid(a) && is_solid(b) && a.len() > 0 && b.len() > 0
}

/// The words before two operands.
pub open spec fn two_words(op: Op) -> (Seq<char>, Seq<char>) {
    match op {
        Op::Add => ("add"@, "i64"@),
        Op::Sub => ("sub"@, "i64"@),
        Op::Mul => ("mul"@, "i64"@),
        Op::SDiv => ("sdiv"@, "i64"@),
        Op::SRem => ("srem"@, "i64"@),
        Op::And => ("and"@, "i64"@),
        Op::Or => ("or"@, "i64"@),
        Op::Xor => ("xor"@, "i64"@),
        Op::FAdd => ("fadd"@, "double"@),
        Op::FSub => ("fsub"@, "double"@),
        Op::FMul => ("fmul"@, "double"@),
        Op::FDiv => ("fdiv"@, "double"@),
        _ => ("and"@, "i1"@),
    }
}

pub proof fn lemma_two_words(op: Op)
    requires
        two_text(op) is Some,
    ensures
        are_two(two_text(op)->0, two_words(op).0, two_words(op).1),
{
    reveal_strlit("i64");
    reveal_strlit("i1");
    reveal_strlit("double");
    let s = two_text(op)->0;
    let (a, b) = two_words(op);
    match op {
        Op::Add => {
            reveal_strlit("add i64 ");
            reveal_strlit("add");
            assert(s =~= a + seq![' '] + b + seq![' ']);
        },
        Op::Sub => {
            reveal_strlit("sub i64 ");
            reveal_strlit("sub");
            assert(s =~= a + seq![' '] + b + seq![' ']);
        },
        Op::Mul => {
            reveal_strlit("mul i64 ");
            reveal_strlit("mul");
            assert(s =~= a + seq![' '] + b + seq![' ']);
        },
        Op::SDiv => {
            reveal_strlit("sdiv i64 ");
            reveal_strlit("sdiv");
            assert(s =~= a + seq![' '] + b + seq![' ']);
        },
        Op::SRem => {
            reveal_strlit("srem i64 ");
            reveal_strlit("srem");
            assert(s =~= a + seq![' '] + b + seq![' ']);
        },
        Op::And => {
            reveal_strlit("and i64 ");
            reveal_strlit("and");
            assert(s =~= a + seq![' '] + b + seq![' ']);
        },
        Op::Or => {
            reveal_strlit("or i64 ");
            reveal_strlit("or");
            assert(s =~= a + seq![' '] + b + seq![' ']);
        },
        Op::Xor => {
            reveal_strlit("xor i64 ");
            reveal_strlit("xor");
            assert(s =~= a + seq![' '] + b + seq![' ']);
        },
        Op::FAdd => {
            reveal_strlit("fadd double ");
            reveal_strlit("fadd");
            assert(s =~= a + seq![' '] + b + seq![' ']);
        },
        Op::FSub => {
            reveal_strlit("fsub double ");
            reveal_strlit("fsub");
            assert(s =~= a + seq![' '] + b + seq![' ']);
        },
        Op::FMul => {
            reveal_strlit("fmul double ");
            reveal_strlit("fmul");
            assert(s =~= a + seq![' '] + b + seq![' ']);
        },
        Op::FDiv => {
            reveal_strlit("fdiv double ");
            reveal_strlit("fdiv");
            assert(s =~= a + seq![' '] + b + seq![' ']);
        },
        _ => {
            reveal_strlit("and i1 ");
            reveal_strlit("and");
            assert(s =~= a + seq![' '] + b + seq![' ']);
        },
    }
}

/// A comma and a blank between operands.
pub proof fn lemma_next(p: Page, lines: Seq<Line>, words: Line, cur: Seq<char>)
    requires
        page_read(p) == in_word(lines, words, cur),
        cur.len() > 0,
    ensures
        page_read(say(p, ", "@)) == in_word(lines, words.push(cur), none()),
{
    reveal_strlit(", ");
    assert(", "@ =~= ", "@ + none());
    said(p, lines, words, cur, ", "@, ", "@, none());
}

pub open spec fn second_word(strs: Seq<Seq<char>>, a: OpndV, b: OpndV) -> Seq<char> {
    opnd_word(strs_with(strs, a).len(), b)
}

pub proof fn lemma_two(
    p: Page,
    lines: Seq<Line>,
    dst: nat,
    what: Seq<char>,
    m: Seq<char>,
    t: Seq<char>,
    a: OpndV,
    b: OpndV,
)
    requires
        at_line(p, lines),
        are_two(what, m, t),
        is_writable(a),
        is_writable(b),
    ensures
        at_line(
            say_two(p, dst, what, a, b),
            lines.push(
                seq![
                    reg_word(dst),
                    "="@,
                    m,
                    t,
                    opnd_word(p.strs.len(), a),
                    second_word(p.strs, a, b),
                ],
            ),
        ),
        say_two(p, dst, what, a, b).strs == strs_with(strs_with(p.strs, a), b),
{
    lemma_def(p, lines, dst);
    let p1 = say_def(p, dst);
    let w1 = seq![reg_word(dst), "="@];
    assert(what =~= none() + m + seq![' '] + t + seq![' '] + none());
    said2(p1, lines, w1, none(), what, none(), m, t, none());
    let p2 = say(p1, what);
    let w2 = w1.push(m).push(t);
    lemma_opnd(p2, lines, w2, a);
    let p3 = say_opnd(p2, a);
    let aw = opnd_word(p.strs.len(), a);
    lemma_next(p3, lines, w2, aw);
    let p4 = say(p3, ", "@);
    lemma_opnd(p4, lines, w2.push(aw), b);
    let bw = second_word(p.strs, a, b);
    said_newline(say_opnd(p4, b), lines, w2.push(aw), bw);
    assert(w2.push(aw).push(bw) =~= seq![reg_word(dst), "="@, m, t, aw, bw]);
}


pub open spec fn before_text(op: Op) -> Seq<char> {
    match one_text(op) {
        Some((before, _)) => before,
        None => none(),
    }
}

pub open spec fn after_text(op: Op) -> Seq<char> {
    match one_text(op) {
        Some((_, after)) => after,
        None => none(),
    }
}

/// The words before and after the operand.
pub open spec fn one_words(op: Op) -> (Line, Line) {
    match op {
        Op::Neg => (seq!["sub"@, "i64"@, "0"@], seq![]),
        Op::BitNot => (seq!["xor"@, "i64"@], seq!["-1"@]),
        Op::FNeg => (seq!["fneg"@, "double"@], seq![]),
        Op::Not => (seq!["xor"@, "i1"@], seq!["true"@]),
        Op::SiToFp => (seq!["sitofp"@, "i64"@], seq!["to"@, "double"@]),
        Op::FpToSi => (seq!["fptosi"@, "double"@], seq!["to"@, "i64"@]),
        Op::BoolToSlot => (seq!["zext"@, "i1"@], seq!["to"@, "i64"@]),
        Op::SlotToBool => (seq!["icmp"@, "ne"@, "i64"@], seq!["0"@]),
        Op::FloatToSlot => (seq!["bitcast"@, "double"@], seq!["to"@, "i64"@]),
        Op::SlotToFloat => (seq!["bitcast"@, "i64"@], seq!["to"@, "double"@]),
        Op::PtrToSlot => (seq!["ptrtoint"@, "ptr"@], seq!["to"@, "i64"@]),
        Op::SlotToPtr => (seq!["inttoptr"@, "i64"@], seq!["to"@, "ptr"@]),
        _ => (seq!["icmp"@, "eq"@, "ptr"@], seq!["null"@]),
    }
}

pub proof fn lemma_front2(
    p: Page,
    lines: Seq<Line>,
    w: Line,
    s: Seq<char>,
    a: Seq<char>,
    b: Seq<char>,
)
    requires
        page_read(p) == in_word(lines, w, none()),
        are_two(s, a, b),
    ensures
        page_read(say(p, s)) == in_word(lines, w + seq![a, b], none()),
{
    assert(s =~= none() + a + seq![' '] + b + seq![' '] + none());
    said2(p, lines, w, none(), s, none(), a, b, none());
    assert(w.push(a).push(b) =~= w + seq![a, b]);
}

/// Two words and a third, with a gap behind it.
pub proof fn lemma_front3(
    p: Page,
    lines: Seq<Line>,
    w: Line,
    s: Seq<char>,
    a: Seq<char>,
    b: Seq<char>,
    c: Seq<char>,
    gap: Seq<char>,
)
    requires
        page_read(p) == in_word(lines, w, none()),
        s == a + seq![' '] + b + seq![' '] + c + gap,
        is_solid(a) && is_solid(b) && is_solid(c),
        a.len() > 0 && b.len() > 0 && c.len() > 0,
        is_gap(gap),
        gap.len() > 0,
    ensures
        page_read(say(p, s)) == in_word(lines, w + seq![a, b, c], none()),
{
    let t = a + seq![' '] + b + seq![' '] + c;
    assert(t =~= none() + a + seq![' '] + b + seq![' '] + c);
    said2(p, lines, w, none(), t, none(), a, b, c);
    let q = say(p, t);
    assert(gap =~= gap + none());
    said(q, lines, w.push(a).push(b), c, gap, gap, none());
    assert(say(q, gap).text =~= say(p, s).text);
    assert(w.push(a).push(b).push(c) =~= w + seq![a, b, c]);
    crate::laws::emitted::lemma_same_text(say(q, gap), say(p, s));
}

proof fn lemma_front(p: Page, lines: Seq<Line>, w: Line, op: Op)
    requires
        page_read(p) == in_word(lines, w, none()),
        one_text(op) is Some,
    ensures
        page_read(say(p, before_text(op))) == in_word(lines, w + one_words(op).0, none()),
{
    reveal_strlit("i64");
    reveal_strlit("i1");
    reveal_strlit("ptr");
    reveal_strlit("double");
    let s = before_text(op);
    let ws = one_words(op).0;
    match op {
        Op::Neg => {
            reveal_strlit("sub i64 0, ");
            reveal_strlit("sub");
            reveal_strlit("0");
            reveal_strlit(", ");
            assert(s =~= "sub"@ + seq![' '] + "i64"@ + seq![' '] + "0"@ + ", "@);
            lemma_front3(p, lines, w, s, "sub"@, "i64"@, "0"@, ", "@);
        },
        Op::SlotToBool => {
            reveal_strlit("icmp ne i64 ");
            reveal_strlit("icmp");
            reveal_strlit("ne");
            assert(s =~= "icmp"@ + seq![' '] + "ne"@ + seq![' '] + "i64"@ + seq![' ']);
            lemma_front3(p, lines, w, s, "icmp"@, "ne"@, "i64"@, seq![' ']);
        },
        Op::IsNull => {
            reveal_strlit("icmp eq ptr ");
            reveal_strlit("icmp");
            reveal_strlit("eq");
            assert(s =~= "icmp"@ + seq![' '] + "eq"@ + seq![' '] + "ptr"@ + seq![' ']);
            lemma_front3(p, lines, w, s, "icmp"@, "eq"@, "ptr"@, seq![' ']);
        },
        Op::BitNot => {
            reveal_strlit("xor i64 ");
            reveal_strlit("xor");
            assert(s =~= "xor"@ + seq![' '] + "i64"@ + seq![' ']);
            lemma_front2(p, lines, w, s, "xor"@, "i64"@);
        },
        Op::FNeg => {
            reveal_strlit("fneg double ");
            reveal_strlit("fneg");
            assert(s =~= "fneg"@ + seq![' '] + "double"@ + seq![' ']);
            lemma_front2(p, lines, w, s, "fneg"@, "double"@);
        },
        Op::Not => {
            reveal_strlit("xor i1 ");
            reveal_strlit("xor");
            assert(s =~= "xor"@ + seq![' '] + "i1"@ + seq![' ']);
            lemma_front2(p, lines, w, s, "xor"@, "i1"@);
        },
        Op::SiToFp => {
            reveal_strlit("sitofp i64 ");
            reveal_strlit("sitofp");
            assert(s =~= "sitofp"@ + seq![' '] + "i64"@ + seq![' ']);
            lemma_front2(p, lines, w, s, "sitofp"@, "i64"@);
        },
        Op::FpToSi => {
            reveal_strlit("fptosi double ");
            reveal_strlit("fptosi");
            assert(s =~= "fptosi"@ + seq![' '] + "double"@ + seq![' ']);
            lemma_front2(p, lines, w, s, "fptosi"@, "double"@);
        },
        Op::BoolToSlot => {
            reveal_strlit("zext i1 ");
            reveal_strlit("zext");
            assert(s =~= "zext"@ + seq![' '] + "i1"@ + seq![' ']);
            lemma_front2(p, lines, w, s, "zext"@, "i1"@);
        },
        Op::FloatToSlot => {
            reveal_strlit("bitcast double ");
            reveal_strlit("bitcast");
            assert(s =~= "bitcast"@ + seq![' '] + "double"@ + seq![' ']);
            lemma_front2(p, lines, w, s, "bitcast"@, "double"@);
        },
        Op::SlotToFloat => {
            reveal_strlit("bitcast i64 ");
            reveal_strlit("bitcast");
            assert(s =~= "bitcast"@ + seq![' '] + "i64"@ + seq![' ']);
            lemma_front2(p, lines, w, s, "bitcast"@, "i64"@);
        },
        Op::PtrToSlot => {
            reveal_strlit("ptrtoint ptr ");
            reveal_strlit("ptrtoint");
            assert(s =~= "ptrtoint"@ + seq![' '] + "ptr"@ + seq![' ']);
            lemma_front2(p, lines, w, s, "ptrtoint"@, "ptr"@);
        },
        _ => {
            reveal_strlit("inttoptr i64 ");
            reveal_strlit("inttoptr");
            assert(s =~= "inttoptr"@ + seq![' '] + "i64"@ + seq![' ']);
            lemma_front2(p, lines, w, s, "inttoptr"@, "i64"@);
        },
    }
}

/// A comma, a word and the end of the line.
pub proof fn lemma_last(p: Page, lines: Seq<Line>, w: Line, cur: Seq<char>, s: Seq<char>, t: Seq<char>)
    requires
        page_read(p) == in_word(lines, w, cur),
        cur.len() > 0,
        s == ", "@ + t + seq!['\n'],
        is_solid(t),
        t.len() > 0,
    ensures
        at_line(say(p, s), lines.push(w.push(cur) + seq![t])),
{
    reveal_strlit(", ");
    said_end(p, lines, w, cur, s, ", "@, t);
    assert(w.push(cur).push(t) =~= w.push(cur) + seq![t]);
}

/// ` to`, a type and the end of the line.
pub proof fn lemma_to(p: Page, lines: Seq<Line>, w: Line, cur: Seq<char>, s: Seq<char>, t: Seq<char>)
    requires
        page_read(p) == in_word(lines, w, cur),
        cur.len() > 0,
        s == " "@ + "to"@ + seq![' '] + t + seq!['\n'],
        is_solid(t),
        t.len() > 0,
    ensures
        at_line(say(p, s), lines.push(w.push(cur) + seq!["to"@, t])),
{
    reveal_strlit(" ");
    reveal_strlit("to");
    let s1 = " "@ + "to"@ + seq![' '] + none();
    said1(p, lines, w, cur, s1, " "@, "to"@, none());
    let q = say(p, s1);
    let s2 = none() + t + seq!['\n'];
    said_end(q, lines, w.push(cur).push("to"@), none(), s2, none(), t);
    assert(say(q, s2).text =~= say(p, s).text);
    crate::laws::emitted::lemma_same_text(say(q, s2), say(p, s));
    assert(w.push(cur).push("to"@).push(t) =~= w.push(cur) + seq!["to"@, t]);
}

proof fn lemma_back(p: Page, lines: Seq<Line>, w: Line, cur: Seq<char>, op: Op)
    requires
        page_read(p) == in_word(lines, w, cur),
        cur.len() > 0,
        one_text(op) is Some,
    ensures
        at_line(say(p, after_text(op)), lines.push(w.push(cur) + one_words(op).1)),
{
    reveal_strlit("i64");
    reveal_strlit("ptr");
    reveal_strlit("double");
    reveal_strlit(" ");
    reveal_strlit("to");
    reveal_strlit(", ");
    let s = after_text(op);
    match op {
        Op::Neg | Op::FNeg => {
            said_newline(p, lines, w, cur);
            assert(w.push(cur) =~= w.push(cur) + one_words(op).1);
        },
        Op::BitNot => {
            reveal_strlit(", -1\n");
            reveal_strlit("-1");
            assert(s =~= ", "@ + "-1"@ + seq!['\n']);
            lemma_last(p, lines, w, cur, s, "-1"@);
        },
        Op::Not => {
            reveal_strlit(", true\n");
            reveal_strlit("true");
            assert(s =~= ", "@ + "true"@ + seq!['\n']);
            lemma_last(p, lines, w, cur, s, "true"@);
        },
        Op::SlotToBool => {
            reveal_strlit(", 0\n");
            reveal_strlit("0");
            assert(s =~= ", "@ + "0"@ + seq!['\n']);
            lemma_last(p, lines, w, cur, s, "0"@);
        },
        Op::IsNull => {
            reveal_strlit(", null\n");
            reveal_strlit("null");
            assert(s =~= ", "@ + "null"@ + seq!['\n']);
            lemma_last(p, lines, w, cur, s, "null"@);
        },
        Op::SiToFp | Op::SlotToFloat => {
            reveal_strlit(" to double\n");
            assert(s =~= " "@ + "to"@ + seq![' '] + "double"@ + seq!['\n']);
            lemma_to(p, lines, w, cur, s, "double"@);
        },
        Op::SlotToPtr => {
            reveal_strlit(" to ptr\n");
            assert(s =~= " "@ + "to"@ + seq![' '] + "ptr"@ + seq!['\n']);
            lemma_to(p, lines, w, cur, s, "ptr"@);
        },
        _ => {
            reveal_strlit(" to i64\n");
            assert(s =~= " "@ + "to"@ + seq![' '] + "i64"@ + seq!['\n']);
            lemma_to(p, lines, w, cur, s, "i64"@);
        },
    }
}

/// The line of an operation on one operand.
pub open spec fn one_line(dst: nat, op: Op, word: Seq<char>) -> Line {
    (seq![reg_word(dst), "="@] + one_words(op).0).push(word) + one_words(op).1
}

pub proof fn lemma_one(p: Page, lines: Seq<Line>, dst: nat, op: Op, a: OpndV)
    requires
        at_line(p, lines),
        one_text(op) is Some,
        is_writable(a),
    ensures
        ({
            let q = say_one(p, dst, before_text(op), a, after_text(op));
            &&& at_line(q, lines.push(one_line(dst, op, opnd_word(p.strs.len(), a))))
            &&& q.strs == strs_with(p.strs, a)
        }),
{
    lemma_def(p, lines, dst);
    let p1 = say_def(p, dst);
    let w1 = seq![reg_word(dst), "="@];
    lemma_front(p1, lines, w1, op);
    let p2 = say(p1, before_text(op));
    let w2 = w1 + one_words(op).0;
    lemma_opnd(p2, lines, w2, a);
    lemma_back(say_opnd(p2, a), lines, w2, opnd_word(p.strs.len(), a), op);
}

} // verus!
