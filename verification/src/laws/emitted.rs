//! What the text of an instruction does.
use vstd::prelude::*;
#[allow(unused_imports)]
use crate::assembly::{say, say_num, say_opnd, Page};
#[allow(unused_imports)]
use crate::ir::OpndV;
#[allow(unused_imports)]
use crate::laws::lines::{
    ended, in_word, is_solid, lemma_append, lemma_dec_solid, lemma_int_solid, lemma_one, lemma_say,
    lemma_say_num, lemma_solid, page_read, parts_words, reading, Line,
};
#[allow(unused_imports)]
use crate::text::{dec_text, int_text};

verus! {

// Reading what was written last.

/// A text that only parts words.
pub open spec fn is_gap(s: Seq<char>) -> bool {
    forall|i: int| 0 <= i < s.len() ==> parts_words(#[trigger] s[i])
}

pub proof fn lemma_gap(lines: Seq<Line>, words: Line, cur: Seq<char>, s: Seq<char>)
    requires
        is_gap(s),
        s.len() > 0,
    ensures
        reading(in_word(lines, words, cur), s) == in_word(
            lines,
            ended(words, cur),
            Seq::empty(),
        ),
    decreases s.len(),
{
    let r = in_word(lines, words, cur);
    let front = s.drop_last();
    assert(parts_words(s[s.len() - 1]));
    if front.len() == 0 {
        assert(reading(r, front) == r);
    } else {
        assert forall|i: int| 0 <= i < front.len() implies parts_words(#[trigger] front[i]) by {
            assert(front[i] == s[i]);
        }
        lemma_gap(lines, words, cur, front);
    }
    assert(ended(ended(words, cur), Seq::empty()) =~= ended(words, cur));
}

/// A word, in part, that follows a gap.
pub proof fn said(
    p: Page,
    lines: Seq<Line>,
    words: Line,
    cur: Seq<char>,
    s: Seq<char>,
    gap: Seq<char>,
    tail: Seq<char>,
)
    requires
        page_read(p) == in_word(lines, words, cur),
        s == gap + tail,
        is_gap(gap),
        gap.len() > 0 || cur.len() == 0,
        is_solid(tail),
    ensures
        page_read(say(p, s)) == in_word(lines, ended(words, cur), tail),
{
    lemma_say(p, s);
    let r = in_word(lines, words, cur);
    lemma_append(r, gap, tail);
    if gap.len() > 0 {
        lemma_gap(lines, words, cur, gap);
    } else {
        assert(reading(r, gap) == r);
        assert(cur =~= Seq::empty());
    }
    lemma_solid(in_word(lines, ended(words, cur), Seq::empty()), tail);
    assert(Seq::<char>::empty() + tail =~= tail);
}

/// The page with a word and a blank behind a gap.
pub proof fn said_word(
    p: Page,
    lines: Seq<Line>,
    words: Line,
    cur: Seq<char>,
    gap: Seq<char>,
    a: Seq<char>,
)
    requires
        page_read(p) == in_word(lines, words, cur),
        is_gap(gap),
        gap.len() > 0 || cur.len() == 0,
        is_solid(a),
        a.len() > 0,
    ensures
        page_read(say(p, gap + a + seq![' '])) == in_word(
            lines,
            ended(words, cur).push(a),
            Seq::empty(),
        ),
{
    let q = say(p, gap + a);
    said(p, lines, words, cur, gap + a, gap, a);
    lemma_gap(lines, ended(words, cur), a, seq![' ']);
    lemma_say(q, seq![' ']);
    assert(say(q, seq![' ']).text =~= say(p, gap + a + seq![' ']).text);
}

pub proof fn said1(
    p: Page,
    lines: Seq<Line>,
    words: Line,
    cur: Seq<char>,
    s: Seq<char>,
    gap: Seq<char>,
    a: Seq<char>,
    tail: Seq<char>,
)
    requires
        page_read(p) == in_word(lines, words, cur),
        s == gap + a + seq![' '] + tail,
        is_gap(gap),
        gap.len() > 0 || cur.len() == 0,
        is_solid(a),
        a.len() > 0,
        is_solid(tail),
    ensures
        page_read(say(p, s)) == in_word(lines, ended(words, cur).push(a), tail),
{
    said_word(p, lines, words, cur, gap, a);
    let q = say(p, gap + a + seq![' ']);
    said(q, lines, ended(words, cur).push(a), Seq::empty(), tail, Seq::empty(), tail);
    assert(Seq::<char>::empty() + tail =~= tail);
    assert(say(q, tail).text =~= say(p, s).text);
}

pub proof fn said2(
    p: Page,
    lines: Seq<Line>,
    words: Line,
    cur: Seq<char>,
    s: Seq<char>,
    gap: Seq<char>,
    a: Seq<char>,
    b: Seq<char>,
    tail: Seq<char>,
)
    requires
        page_read(p) == in_word(lines, words, cur),
        s == gap + a + seq![' '] + b + seq![' '] + tail,
        is_gap(gap),
        gap.len() > 0 || cur.len() == 0,
        is_solid(a),
        a.len() > 0,
        is_solid(b),
        b.len() > 0,
        is_solid(tail),
    ensures
        page_read(say(p, s)) == in_word(lines, ended(words, cur).push(a).push(b), tail),
{
    said_word(p, lines, words, cur, gap, a);
    let q = say(p, gap + a + seq![' ']);
    let t = b + seq![' '] + tail;
    assert(t =~= Seq::<char>::empty() + b + seq![' '] + tail);
    said1(q, lines, ended(words, cur).push(a), Seq::empty(), t, Seq::empty(), b, tail);
    assert(say(q, t).text =~= say(p, s).text);
}

/// What follows, to the end of the line.
pub proof fn said_end(
    p: Page,
    lines: Seq<Line>,
    words: Line,
    cur: Seq<char>,
    s: Seq<char>,
    gap: Seq<char>,
    tail: Seq<char>,
)
    requires
        page_read(p) == in_word(lines, words, cur),
        s == gap + tail + seq!['\n'],
        is_gap(gap),
        gap.len() > 0 || cur.len() == 0,
        is_solid(tail),
    ensures
        page_read(say(p, s)) == in_word(
            lines.push(ended(ended(words, cur), tail)),
            Seq::empty(),
            Seq::empty(),
        ),
{
    said(p, lines, words, cur, gap + tail, gap, tail);
    let q = say(p, gap + tail);
    lemma_say(q, seq!['\n']);
    lemma_one(in_word(lines, ended(words, cur), tail), '\n');
    assert(say(q, seq!['\n']).text =~= say(p, s).text);
}

/// The end of a line.
pub proof fn said_newline(p: Page, lines: Seq<Line>, words: Line, cur: Seq<char>)
    requires
        page_read(p) == in_word(lines, words, cur),
    ensures
        page_read(say(p, "\n"@)) == in_word(
            lines.push(ended(words, cur)),
            Seq::empty(),
            Seq::empty(),
        ),
{
    reveal_strlit("\n");
    assert("\n"@ =~= seq!['\n']);
    lemma_say(p, seq!['\n']);
    lemma_one(in_word(lines, words, cur), '\n');
}

/// What goes on with a word.
pub proof fn said_on(p: Page, lines: Seq<Line>, words: Line, cur: Seq<char>, s: Seq<char>)
    requires
        page_read(p) == in_word(lines, words, cur),
        is_solid(s),
    ensures
        page_read(say(p, s)) == in_word(lines, words, cur + s),
{
    lemma_say(p, s);
    lemma_solid(in_word(lines, words, cur), s);
}

pub proof fn said_num(p: Page, lines: Seq<Line>, words: Line, cur: Seq<char>, n: nat)
    requires
        page_read(p) == in_word(lines, words, cur),
    ensures
        page_read(say_num(p, n)) == in_word(lines, words, cur + dec_text(n)),
{
    lemma_dec_solid(n);
    lemma_say_num(p, n);
    lemma_solid(in_word(lines, words, cur), dec_text(n));
}

// Names and operands.

pub open spec fn reg_word(r: nat) -> Seq<char> {
    "%r"@ + dec_text(r)
}

pub open spec fn var_word(i: nat) -> Seq<char> {
    "%v"@ + dec_text(i)
}

pub open spec fn str_word(k: nat) -> Seq<char> {
    "@.s"@ + dec_text(k)
}

/// The word of an operand, with so many string constants before it.
pub open spec fn opnd_word(k: nat, v: OpndV) -> Seq<char> {
    match v {
        OpndV::Reg(r) => reg_word(r),
        OpndV::Int(n) => int_text(n as int),
        OpndV::Size(n) => dec_text(n as nat),
        OpndV::Bool(b) => if b {
            "true"@
        } else {
            "false"@
        },
        OpndV::Float(s) => s,
        OpndV::Str(s) => str_word(k),
        OpndV::Null => "null"@,
    }
}

/// The string constants, with that of an operand.
pub open spec fn strs_with(strs: Seq<Seq<char>>, v: OpndV) -> Seq<Seq<char>> {
    match v {
        OpndV::Str(s) => strs.push(s),
        _ => strs,
    }
}

/// A fraction, as a text: it starts with a digit or a minus sign, and is no whole number.
pub open spec fn writes_fraction(s: Seq<char>) -> bool {
    &&& is_solid(s)
    &&& s.len() > 0
    &&& crate::lexer::is_digit(s[0]) || s[0] == '-'
    &&& !crate::laws::llvm::writes_int(s)
}

/// An operand that a word can stand for.
pub open spec fn is_writable(v: OpndV) -> bool {
    match v {
        OpndV::Size(n) => n <= i64::MAX,
        OpndV::Float(s) => writes_fraction(s),
        _ => true,
    }
}

pub proof fn lemma_opnd(p: Page, lines: Seq<Line>, words: Line, v: OpndV)
    requires
        page_read(p) == in_word(lines, words, Seq::empty()),
        is_writable(v),
    ensures
        page_read(say_opnd(p, v)) == in_word(lines, words, opnd_word(p.strs.len(), v)),
        say_opnd(p, v).strs == strs_with(p.strs, v),
        opnd_word(p.strs.len(), v).len() > 0,
        is_solid(opnd_word(p.strs.len(), v)),
{
    let e = Seq::<char>::empty();
    match v {
        OpndV::Reg(r) => {
            reveal_strlit("%r");
            said_on(p, lines, words, e, "%r"@);
            assert(e + "%r"@ =~= "%r"@);
            said_num(say(p, "%r"@), lines, words, "%r"@, r);
            lemma_dec_solid(r);
            lemma_joined("%r"@, dec_text(r));
        },
        OpndV::Int(n) => {
            lemma_int_solid(n as int);
            said_on(p, lines, words, e, int_text(n as int));
            assert(e + int_text(n as int) =~= int_text(n as int));
        },
        OpndV::Size(n) => {
            lemma_dec_solid(n as nat);
            said_num(p, lines, words, e, n as nat);
            assert(e + dec_text(n as nat) =~= dec_text(n as nat));
        },
        OpndV::Bool(b) => {
            reveal_strlit("true");
            reveal_strlit("false");
            let s = opnd_word(p.strs.len(), v);
            said_on(p, lines, words, e, s);
            assert(e + s =~= s);
        },
        OpndV::Float(s) => {
            said_on(p, lines, words, e, s);
            assert(e + s =~= s);
        },
        OpndV::Str(s) => {
            reveal_strlit("@.s");
            said_on(p, lines, words, e, "@.s"@);
            assert(e + "@.s"@ =~= "@.s"@);
            let q = say_num(say(p, "@.s"@), p.strs.len());
            said_num(say(p, "@.s"@), lines, words, "@.s"@, p.strs.len());
            lemma_dec_solid(p.strs.len());
            lemma_joined("@.s"@, dec_text(p.strs.len()));
            lemma_same_text(q, say_opnd(p, v));
        },
        OpndV::Null => {
            reveal_strlit("null");
            said_on(p, lines, words, e, "null"@);
            assert(e + "null"@ =~= "null"@);
        },
    }
}

pub proof fn lemma_joined(a: Seq<char>, b: Seq<char>)
    requires
        is_solid(a),
        is_solid(b),
    ensures
        is_solid(a + b),
{
    assert forall|i: int| 0 <= i < (a + b).len() implies !parts_words(#[trigger] (a + b)[i]) && (a
        + b)[i] != '\n' && (a + b)[i] != '"' by {
        if i < a.len() {
            assert((a + b)[i] == a[i]);
        } else {
            assert((a + b)[i] == b[i - a.len()]);
        }
    }
}

pub proof fn lemma_same_text(p: Page, q: Page)
    requires
        p.text == q.text,
    ensures
        page_read(p) == page_read(q),
{
    reveal(page_read);
}

} // verus!
