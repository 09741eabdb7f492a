//! The words of the text of instructions on memory, and of calls.
use crate::ir::IrTy;
use vstd::prelude::*;
#[allow(unused_imports)]
use crate::assembly::{
    opnd_ty, say, say_args, say_call, say_def, say_num, say_opnd, say_store, say_typed, ty_at,
    ty_text, Around, Page,
};
#[allow(unused_imports)]
use crate::ir::OpndV;
#[allow(unused_imports)]
use crate::laws::emitted::{
    is_writable, lemma_opnd, lemma_same_text, opnd_word, reg_word, said, said1, said2, said_end,
    said_newline, said_num, said_on, strs_with, var_word,
};
#[allow(unused_imports)]
use crate::laws::lines::{ended, in_word, is_solid, lemma_dec_solid, page_read, Line};
#[allow(unused_imports)]
use crate::laws::phrases::{
    aux_word, def, lemma_aux, lemma_gapped, lemma_number, lemma_reg, lemma_then, lemma_ty_text,
    lemma_typed, lemma_word,
};
#[allow(unused_imports)]
use crate::laws::wording::{
    at_line, lemma_def, lemma_front2, lemma_front3, lemma_next, lemma_to, none, second_word,
};
#[allow(unused_imports)]
use crate::text::dec_text;

verus! {

/// `call ptr name(i64 n)`.
pub open spec fn new_line(dst: nat, name: Seq<char>, n: nat) -> Line {
    def(dst) + seq!["call"@, "ptr"@, name, "i64"@, dec_text(n)]
}

pub proof fn lemma_new(p: Page, lines: Seq<Line>, dst: nat, s: Seq<char>, name: Seq<char>, n: nat)
    requires
        at_line(p, lines),
        s == "call"@ + seq![' '] + "ptr"@ + seq![' '] + name + seq!['('] + "i64"@ + seq![' '],
        is_solid(name),
        name.len() > 0,
    ensures
        at_line(
            say(say_num(say(say_def(p, dst), s), n), ")\n"@),
            lines.push(new_line(dst, name, n)),
        ),
{
    lemma_def(p, lines, dst);
    reveal_strlit("call");
    reveal_strlit("ptr");
    reveal_strlit("i64");
    reveal_strlit(")\n");
    let p0 = say_def(p, dst);
    let s1 = "call"@ + seq![' '] + "ptr"@ + seq![' '] + name + seq!['('];
    lemma_front3(p0, lines, def(dst), s1, "call"@, "ptr"@, name, seq!['(']);
    let w1 = def(dst) + seq!["call"@, "ptr"@, name];
    let s2 = none() + "i64"@ + seq![' '];
    let p1 = say(p0, s1);
    lemma_then(p1, lines, w1, none(), s2, none(), "i64"@);
    assert(say(p1, s2).text =~= say(p0, s).text);
    let p2 = say(p0, s);
    lemma_same_text(say(p1, s2), p2);
    lemma_number(p2, lines, w1.push("i64"@), n);
    assert(")\n"@ =~= seq![')'] + none() + seq!['\n']);
    said_end(say_num(p2, n), lines, w1.push("i64"@), dec_text(n), ")\n"@, seq![')'], none());
    assert(w1.push("i64"@).push(dec_text(n)) =~= new_line(dst, name, n));
}

/// The front of `getelementptr`.
pub open spec fn gep(dst: nat, of: Seq<char>, aw: Seq<char>) -> Line {
    def(dst) + seq!["getelementptr"@, "inbounds"@, of, "ptr"@, aw, "i64"@]
}

proof fn lemma_gep(p: Page, lines: Seq<Line>, dst: nat, s: Seq<char>, of: Seq<char>, a: OpndV)
    requires
        at_line(p, lines),
        s == "getelementptr"@ + seq![' '] + "inbounds"@ + seq![' '] + of + ", "@ + "ptr"@
            + seq![' '],
        is_solid(of),
        of.len() > 0,
        is_writable(a),
    ensures
        ({
            let q = say(say_opnd(say(say_def(p, dst), s), a), ", i64 "@);
            &&& page_read(q) == in_word(
                lines,
                gep(dst, of, opnd_word(p.strs.len(), a)),
                none(),
            )
            &&& q.strs == strs_with(p.strs, a)
        }),
{
    lemma_def(p, lines, dst);
    reveal_strlit("getelementptr");
    reveal_strlit("inbounds");
    reveal_strlit("ptr");
    reveal_strlit("i64");
    reveal_strlit(", ");
    reveal_strlit(", i64 ");
    let p0 = say_def(p, dst);
    let s1 = "getelementptr"@ + seq![' '] + "inbounds"@ + seq![' '] + of + ", "@;
    lemma_front3(p0, lines, def(dst), s1, "getelementptr"@, "inbounds"@, of, ", "@);
    let w1 = def(dst) + seq!["getelementptr"@, "inbounds"@, of];
    let s2 = none() + "ptr"@ + seq![' '];
    let p1 = say(p0, s1);
    lemma_then(p1, lines, w1, none(), s2, none(), "ptr"@);
    let p2 = say(p0, s);
    assert(say(p1, s2).text =~= p2.text);
    lemma_same_text(say(p1, s2), p2);
    lemma_opnd(p2, lines, w1.push("ptr"@), a);
    let aw = opnd_word(p.strs.len(), a);
    assert(", i64 "@ =~= ", "@ + "i64"@ + seq![' ']);
    lemma_then(say_opnd(p2, a), lines, w1.push("ptr"@), aw, ", i64 "@, ", "@, "i64"@);
    assert(w1.push("ptr"@).push(aw).push("i64"@) =~= gep(dst, of, aw));
}

pub proof fn lemma_slot(p: Page, lines: Seq<Line>, dst: nat, a: OpndV, i: nat)
    requires
        at_line(p, lines),
        is_writable(a),
    ensures
        ({
            let p1 = say_opnd(say(say_def(p, dst), "getelementptr inbounds i64, ptr "@), a);
            let q = say(say_num(say(p1, ", i64 "@), i), "\n"@);
            &&& at_line(
                q,
                lines.push(gep(dst, "i64"@, opnd_word(p.strs.len(), a)).push(dec_text(i))),
            )
            &&& q.strs == strs_with(p.strs, a)
        }),
{
    let s = "getelementptr inbounds i64, ptr "@;
    reveal_strlit("getelementptr inbounds i64, ptr ");
    reveal_strlit("getelementptr");
    reveal_strlit("inbounds");
    reveal_strlit("ptr");
    reveal_strlit("i64");
    reveal_strlit(", ");
    assert(s =~= "getelementptr"@ + seq![' '] + "inbounds"@ + seq![' '] + "i64"@ + ", "@ + "ptr"@
        + seq![' ']);
    lemma_gep(p, lines, dst, s, "i64"@, a);
    let q = say(say_opnd(say(say_def(p, dst), s), a), ", i64 "@);
    let g = gep(dst, "i64"@, opnd_word(p.strs.len(), a));
    lemma_number(q, lines, g, i);
    said_newline(say_num(q, i), lines, g, dec_text(i));
}

pub proof fn lemma_offset(p: Page, lines: Seq<Line>, dst: nat, a: OpndV, b: OpndV)
    requires
        at_line(p, lines),
        is_writable(a),
        is_writable(b),
    ensures
        ({
            let p1 = say_opnd(say(say_def(p, dst), "getelementptr inbounds i8, ptr "@), a);
            let q = say(say_opnd(say(p1, ", i64 "@), b), "\n"@);
            &&& at_line(
                q,
                lines.push(
                    gep(dst, "i8"@, opnd_word(p.strs.len(), a)).push(second_word(p.strs, a, b)),
                ),
            )
            &&& q.strs == strs_with(strs_with(p.strs, a), b)
        }),
{
    let s = "getelementptr inbounds i8, ptr "@;
    reveal_strlit("getelementptr inbounds i8, ptr ");
    reveal_strlit("getelementptr");
    reveal_strlit("inbounds");
    reveal_strlit("ptr");
    reveal_strlit("i8");
    reveal_strlit(", ");
    assert(s =~= "getelementptr"@ + seq![' '] + "inbounds"@ + seq![' '] + "i8"@ + ", "@ + "ptr"@
        + seq![' ']);
    lemma_gep(p, lines, dst, s, "i8"@, a);
    let q = say(say_opnd(say(say_def(p, dst), s), a), ", i64 "@);
    let g = gep(dst, "i8"@, opnd_word(p.strs.len(), a));
    lemma_opnd(q, lines, g, b);
    said_newline(say_opnd(q, b), lines, g, second_word(p.strs, a, b));
}

/// `load type, ptr place`.
pub open spec fn load_line(dst: nat, t: IrTy, place: Seq<char>) -> Line {
    def(dst) + seq!["load"@, ty_text(t), "ptr"@, place]
}

proof fn lemma_load_front(p: Page, lines: Seq<Line>, dst: nat, t: IrTy)
    requires
        at_line(p, lines),
    ensures
        page_read(say(say(say_def(p, dst), "load "@), ty_text(t))) == in_word(
            lines,
            def(dst) + seq!["load"@],
            ty_text(t),
        ),
        ty_text(t).len() > 0,
{
    lemma_def(p, lines, dst);
    lemma_ty_text(t);
    reveal_strlit("load ");
    reveal_strlit("load");
    let p0 = say_def(p, dst);
    assert("load "@ =~= none() + "load"@ + seq![' ']);
    lemma_then(p0, lines, def(dst), none(), "load "@, none(), "load"@);
    let w1 = def(dst).push("load"@);
    lemma_word(say(p0, "load "@), lines, w1, ty_text(t));
    assert(w1 =~= def(dst) + seq!["load"@]);
}

pub proof fn lemma_load(p: Page, lines: Seq<Line>, dst: nat, t: IrTy, a: OpndV)
    requires
        at_line(p, lines),
        is_writable(a),
    ensures
        ({
            let p1 = say(say(say(say_def(p, dst), "load "@), ty_text(t)), ", ptr "@);
            let q = say(say_opnd(p1, a), "\n"@);
            &&& at_line(q, lines.push(load_line(dst, t, opnd_word(p.strs.len(), a))))
            &&& q.strs == strs_with(p.strs, a)
        }),
{
    lemma_load_front(p, lines, dst, t);
    reveal_strlit(", ptr ");
    reveal_strlit("ptr");
    reveal_strlit(", ");
    let w1 = def(dst) + seq!["load"@];
    let p0 = say(say(say_def(p, dst), "load "@), ty_text(t));
    assert(", ptr "@ =~= ", "@ + "ptr"@ + seq![' ']);
    lemma_then(p0, lines, w1, ty_text(t), ", ptr "@, ", "@, "ptr"@);
    let w2 = w1.push(ty_text(t)).push("ptr"@);
    let p1 = say(p0, ", ptr "@);
    lemma_opnd(p1, lines, w2, a);
    let aw = opnd_word(p.strs.len(), a);
    said_newline(say_opnd(p1, a), lines, w2, aw);
    assert(w2.push(aw) =~= load_line(dst, t, aw));
}

pub proof fn lemma_get_var(p: Page, lines: Seq<Line>, dst: nat, t: IrTy, i: nat)
    requires
        at_line(p, lines),
    ensures
        ({
            let p1 = say(say(say_def(p, dst), "load "@), ty_text(t));
            at_line(
                say(say_num(say(p1, ", ptr %v"@), i), "\n"@),
                lines.push(load_line(dst, t, var_word(i))),
            )
        }),
{
    lemma_load_front(p, lines, dst, t);
    reveal_strlit(", ptr %v");
    reveal_strlit("ptr");
    reveal_strlit(", ");
    reveal_strlit("%v");
    let w1 = def(dst) + seq!["load"@];
    let p0 = say(say(say_def(p, dst), "load "@), ty_text(t));
    assert(", ptr %v"@ =~= ", "@ + "ptr"@ + seq![' '] + "%v"@);
    said1(p0, lines, w1, ty_text(t), ", ptr %v"@, ", "@, "ptr"@, "%v"@);
    let w2 = w1.push(ty_text(t)).push("ptr"@);
    let p1 = say(p0, ", ptr %v"@);
    said_num(p1, lines, w2, "%v"@, i);
    lemma_dec_solid(i);
    said_newline(say_num(p1, i), lines, w2, var_word(i));
    assert(w2.push(var_word(i)) =~= load_line(dst, t, var_word(i)));
}

pub open spec fn load_byte_lines(dst: nat, aw: Seq<char>) -> Seq<Line> {
    let x = aux_word(dst, ".b"@);
    seq![
        seq![x, "="@, "load"@, "i8"@, "ptr"@, aw],
        def(dst) + seq!["zext"@, "i8"@, x, "to"@, "i64"@],
    ]
}

pub proof fn lemma_load_byte(p: Page, lines: Seq<Line>, dst: nat, a: OpndV)
    requires
        at_line(p, lines),
        is_writable(a),
    ensures
        ({
            let p1 = say(say_num(say(p, "  %r"@), dst), ".b = load i8, ptr "@);
            let p2 = say(say_opnd(p1, a), "\n"@);
            let q = say(say_num(say(say_def(p2, dst), "zext i8 %r"@), dst), ".b to i64\n"@);
            &&& at_line(q, lines + load_byte_lines(dst, opnd_word(p.strs.len(), a)))
            &&& q.strs == strs_with(p.strs, a)
        }),
{
    reveal_strlit(".b = load i8, ptr ");
    reveal_strlit(".b");
    reveal_strlit(" ");
    reveal_strlit("=");
    reveal_strlit("load");
    reveal_strlit("i8");
    reveal_strlit("ptr");
    reveal_strlit(", ");
    let x = aux_word(dst, ".b"@);
    let s1 = ".b"@ + " "@ + "="@ + seq![' '] + "load"@ + seq![' '] + "i8"@ + ", "@;
    lemma_aux(p, lines, dst, s1, ".b"@, "load"@, "i8"@, ", "@);
    let p0 = say_num(say(p, "  %r"@), dst);
    let w1 = seq![x, "="@, "load"@, "i8"@];
    let s2 = none() + "ptr"@ + seq![' '];
    lemma_then(say(p0, s1), lines, w1, none(), s2, none(), "ptr"@);
    let p1 = say(p0, ".b = load i8, ptr "@);
    assert(say(say(p0, s1), s2).text =~= p1.text);
    lemma_same_text(say(say(p0, s1), s2), p1);
    lemma_opnd(p1, lines, w1.push("ptr"@), a);
    let aw = opnd_word(p.strs.len(), a);
    said_newline(say_opnd(p1, a), lines, w1.push("ptr"@), aw);
    let l1 = w1.push("ptr"@).push(aw);
    lemma_load_byte_end(say(say_opnd(p1, a), "\n"@), lines.push(l1), dst);
    assert(l1 =~= seq![x, "="@, "load"@, "i8"@, "ptr"@, aw]);
    assert(lines.push(l1).push(def(dst) + seq!["zext"@, "i8"@, x, "to"@, "i64"@]) =~= lines
        + load_byte_lines(dst, aw));
}

proof fn lemma_load_byte_end(p: Page, lines: Seq<Line>, dst: nat)
    requires
        at_line(p, lines),
    ensures
        at_line(
            say(say_num(say(say_def(p, dst), "zext i8 %r"@), dst), ".b to i64\n"@),
            lines.push(
                def(dst) + seq!["zext"@, "i8"@, aux_word(dst, ".b"@), "to"@, "i64"@],
            ),
        ),
{
    lemma_def(p, lines, dst);
    reveal_strlit(".b");
    reveal_strlit("i8");
    reveal_strlit("zext i8 %r");
    reveal_strlit("zext");
    reveal_strlit("%r");
    reveal_strlit(".b to i64\n");
    reveal_strlit(" ");
    reveal_strlit("to");
    reveal_strlit("i64");
    let x = aux_word(dst, ".b"@);
    let p3 = say_def(p, dst);
    let s3 = "zext"@ + seq![' '] + "i8"@ + seq![' '];
    lemma_front2(p3, lines, def(dst), s3, "zext"@, "i8"@);
    let w3 = def(dst) + seq!["zext"@, "i8"@];
    assert("%r"@ =~= none() + "%r"@);
    lemma_reg(say(p3, s3), lines, w3, none(), "%r"@, none(), dst);
    let p4 = say_num(say(p3, "zext i8 %r"@), dst);
    assert(say_num(say(say(p3, s3), "%r"@), dst).text =~= p4.text);
    lemma_same_text(say_num(say(say(p3, s3), "%r"@), dst), p4);
    said_on(p4, lines, w3, reg_word(dst), ".b"@);
    let s5 = " "@ + "to"@ + seq![' '] + "i64"@ + seq!['\n'];
    lemma_to(say(p4, ".b"@), lines, w3, x, s5, "i64"@);
    assert(say(say(p4, ".b"@), s5).text =~= say(p4, ".b to i64\n"@).text);
    lemma_same_text(say(say(p4, ".b"@), s5), say(p4, ".b to i64\n"@));
    assert(w3.push(x) + seq!["to"@, "i64"@] =~= def(dst) + seq!["zext"@, "i8"@, x, "to"@, "i64"@]);
}

/// `store type value, ptr place`.
pub open spec fn store_line(t: IrTy, v: Seq<char>, place: Seq<char>) -> Line {
    seq!["store"@, ty_text(t), v, "ptr"@, place]
}

pub open spec fn store_front(t: IrTy, v: Seq<char>) -> Line {
    seq!["store"@, ty_text(t), v, "ptr"@]
}

proof fn lemma_store_front(p: Page, lines: Seq<Line>, w: Around, v: OpndV)
    requires
        at_line(p, lines),
        is_writable(v),
    ensures
        page_read(say_store(p, w, v)) == in_word(
            lines,
            store_front(opnd_ty(w.regs, v), opnd_word(p.strs.len(), v)),
            none(),
        ),
        say_store(p, w, v).strs == strs_with(p.strs, v),
{
    reveal_strlit("  store ");
    reveal_strlit("store");
    reveal_strlit("  ");
    reveal_strlit(", ptr ");
    reveal_strlit("ptr");
    reveal_strlit(", ");
    assert("  store "@ =~= "  "@ + "store"@ + seq![' ']);
    lemma_then(p, lines, Seq::empty(), none(), "  store "@, "  "@, "store"@);
    let w1 = Seq::<Seq<char>>::empty().push("store"@);
    let p1 = say(p, "  store "@);
    lemma_typed(p1, lines, w1, w.regs, v);
    let t = ty_text(opnd_ty(w.regs, v));
    let vw = opnd_word(p.strs.len(), v);
    assert(", ptr "@ =~= ", "@ + "ptr"@ + seq![' ']);
    lemma_then(say_typed(p1, w.regs, v), lines, w1.push(t), vw, ", ptr "@, ", "@, "ptr"@);
    assert(w1.push(t).push(vw).push("ptr"@) =~= store_front(opnd_ty(w.regs, v), vw));
}

pub proof fn lemma_store(p: Page, lines: Seq<Line>, w: Around, a: OpndV, b: OpndV)
    requires
        at_line(p, lines),
        is_writable(a),
        is_writable(b),
    ensures
        ({
            let q = say(say_opnd(say_store(p, w, b), a), "\n"@);
            &&& at_line(
                q,
                lines.push(
                    store_line(
                        opnd_ty(w.regs, b),
                        opnd_word(p.strs.len(), b),
                        second_word(p.strs, b, a),
                    ),
                ),
            )
            &&& q.strs == strs_with(strs_with(p.strs, b), a)
        }),
{
    lemma_store_front(p, lines, w, b);
    let f = store_front(opnd_ty(w.regs, b), opnd_word(p.strs.len(), b));
    let p1 = say_store(p, w, b);
    lemma_opnd(p1, lines, f, a);
    let aw = second_word(p.strs, b, a);
    said_newline(say_opnd(p1, a), lines, f, aw);
    assert(f.push(aw) =~= store_line(opnd_ty(w.regs, b), opnd_word(p.strs.len(), b), aw));
}

pub proof fn lemma_set_var(p: Page, lines: Seq<Line>, w: Around, a: OpndV, i: nat)
    requires
        at_line(p, lines),
        is_writable(a),
    ensures
        ({
            let q = say(say_num(say(say_store(p, w, a), "%v"@), i), "\n"@);
            &&& at_line(
                q,
                lines.push(
                    store_line(opnd_ty(w.regs, a), opnd_word(p.strs.len(), a), var_word(i)),
                ),
            )
            &&& q.strs == strs_with(p.strs, a)
        }),
{
    lemma_store_front(p, lines, w, a);
    let f = store_front(opnd_ty(w.regs, a), opnd_word(p.strs.len(), a));
    let p1 = say_store(p, w, a);
    reveal_strlit("%v");
    lemma_word(p1, lines, f, "%v"@);
    said_num(say(p1, "%v"@), lines, f, "%v"@, i);
    lemma_dec_solid(i);
    said_newline(say_num(say(p1, "%v"@), i), lines, f, var_word(i));
    assert(f.push(var_word(i)) =~= store_line(
        opnd_ty(w.regs, a),
        opnd_word(p.strs.len(), a),
        var_word(i),
    ));
}

pub open spec fn store_byte_lines(dst: nat, bw: Seq<char>, aw: Seq<char>) -> Seq<Line> {
    let x = aux_word(dst, ".b"@);
    seq![
        seq![x, "="@, "trunc"@, "i64"@, bw, "to"@, "i8"@],
        seq!["store"@, "i8"@, x, "ptr"@, aw],
    ]
}

pub proof fn lemma_store_byte(p: Page, lines: Seq<Line>, dst: nat, a: OpndV, b: OpndV)
    requires
        at_line(p, lines),
        is_writable(a),
        is_writable(b),
    ensures
        ({
            let p1 = say(say_num(say(p, "  %r"@), dst), ".b = trunc i64 "@);
            let p2 = say(say_opnd(p1, b), " to i8\n  store i8 %r"@);
            let q = say(say_opnd(say(say_num(p2, dst), ".b, ptr "@), a), "\n"@);
            &&& at_line(
                q,
                lines + store_byte_lines(
                    dst,
                    opnd_word(p.strs.len(), b),
                    second_word(p.strs, b, a),
                ),
            )
            &&& q.strs == strs_with(strs_with(p.strs, b), a)
        }),
{
    reveal_strlit(".b = trunc i64 ");
    reveal_strlit(".b");
    reveal_strlit(" ");
    reveal_strlit("=");
    reveal_strlit("trunc");
    reveal_strlit("i64");
    reveal_strlit("to");
    reveal_strlit("i8");
    let x = aux_word(dst, ".b"@);
    assert(".b = trunc i64 "@ =~= ".b"@ + " "@ + "="@ + seq![' '] + "trunc"@ + seq![' '] + "i64"@
        + " "@);
    lemma_aux(p, lines, dst, ".b = trunc i64 "@, ".b"@, "trunc"@, "i64"@, " "@);
    let w1 = seq![x, "="@, "trunc"@, "i64"@];
    let p1 = say(say_num(say(p, "  %r"@), dst), ".b = trunc i64 "@);
    lemma_opnd(p1, lines, w1, b);
    let bw = opnd_word(p.strs.len(), b);
    let s2 = " "@ + "to"@ + seq![' '] + "i8"@ + seq!['\n'];
    lemma_to(say_opnd(p1, b), lines, w1, bw, s2, "i8"@);
    let l1 = w1.push(bw) + seq!["to"@, "i8"@];
    let q = say(say_opnd(p1, b), s2);
    lemma_store_byte_end(q, lines.push(l1), dst, a);
    assert(l1 =~= seq![x, "="@, "trunc"@, "i64"@, bw, "to"@, "i8"@]);
    let p2 = say(say_opnd(p1, b), " to i8\n  store i8 %r"@);
    reveal_strlit(" to i8\n  store i8 %r");
    reveal_strlit("  store i8 %r");
    assert(say(q, "  store i8 %r"@).text =~= p2.text);
    assert(say(q, "  store i8 %r"@) == p2);
    let aw = second_word(p.strs, b, a);
    assert(lines.push(l1).push(seq!["store"@, "i8"@, x, "ptr"@, aw]) =~= lines + store_byte_lines(
        dst,
        bw,
        aw,
    ));
}

proof fn lemma_store_byte_end(p: Page, lines: Seq<Line>, dst: nat, a: OpndV)
    requires
        at_line(p, lines),
        is_writable(a),
    ensures
        ({
            let q = say(
                say_opnd(say(say_num(say(p, "  store i8 %r"@), dst), ".b, ptr "@), a),
                "\n"@,
            );
            &&& at_line(
                q,
                lines.push(
                    seq![
                        "store"@,
                        "i8"@,
                        aux_word(dst, ".b"@),
                        "ptr"@,
                        opnd_word(p.strs.len(), a),
                    ],
                ),
            )
            &&& q.strs == strs_with(p.strs, a)
        }),
{
    reveal_strlit("  store i8 %r");
    reveal_strlit("  ");
    reveal_strlit("store");
    reveal_strlit("i8");
    reveal_strlit("%r");
    reveal_strlit(".b");
    reveal_strlit(".b, ptr ");
    reveal_strlit(", ");
    reveal_strlit("ptr");
    let x = aux_word(dst, ".b"@);
    assert("  store i8 %r"@ =~= "  "@ + "store"@ + seq![' '] + "i8"@ + seq![' '] + "%r"@);
    said2(
        p,
        lines,
        Seq::empty(),
        none(),
        "  store i8 %r"@,
        "  "@,
        "store"@,
        "i8"@,
        "%r"@,
    );
    let w = Seq::<Seq<char>>::empty().push("store"@).push("i8"@);
    let p1 = say(p, "  store i8 %r"@);
    said_num(p1, lines, w, "%r"@, dst);
    lemma_dec_solid(dst);
    let p2 = say_num(p1, dst);
    said_on(p2, lines, w, reg_word(dst), ".b"@);
    let s3 = ", "@ + "ptr"@ + seq![' '];
    lemma_then(say(p2, ".b"@), lines, w, x, s3, ", "@, "ptr"@);
    let p3 = say(p2, ".b, ptr "@);
    assert(say(say(p2, ".b"@), s3).text =~= p3.text);
    lemma_same_text(say(say(p2, ".b"@), s3), p3);
    lemma_opnd(p3, lines, w.push(x).push("ptr"@), a);
    let aw = opnd_word(p.strs.len(), a);
    said_newline(say_opnd(p3, a), lines, w.push(x).push("ptr"@), aw);
    assert(w.push(x).push("ptr"@).push(aw) =~= seq!["store"@, "i8"@, x, "ptr"@, aw]);
}

// Calls.

/// The operands from `i` on, each behind its type.
pub open spec fn arg_words(
    strs: Seq<Seq<char>>,
    regs: Seq<IrTy>,
    args: Seq<OpndV>,
    i: int,
) -> Line
    decreases args.len() - i,
{
    if !(0 <= i < args.len()) {
        Seq::empty()
    } else {
        seq![ty_text(opnd_ty(regs, args[i])), opnd_word(strs.len(), args[i])] + arg_words(
            strs_with(strs, args[i]),
            regs,
            args,
            i + 1,
        )
    }
}

/// The string constants after the operands from `i` on.
pub open spec fn strs_with_all(strs: Seq<Seq<char>>, args: Seq<OpndV>, i: int) -> Seq<Seq<char>>
    decreases args.len() - i,
{
    if !(0 <= i < args.len()) {
        strs
    } else {
        strs_with_all(strs_with(strs, args[i]), args, i + 1)
    }
}

pub open spec fn are_writable(args: Seq<OpndV>) -> bool {
    forall|i: int| 0 <= i < args.len() ==> is_writable(#[trigger] args[i])
}

/// Writes out the operands of a call, to the end of the line.
proof fn lemma_args(
    p: Page,
    lines: Seq<Line>,
    w: Line,
    cur: Seq<char>,
    regs: Seq<IrTy>,
    args: Seq<OpndV>,
    i: int,
)
    requires
        page_read(p) == in_word(lines, w, cur),
        are_writable(args),
        0 <= i <= args.len(),
        i == 0 ==> cur.len() == 0,
        i > 0 ==> cur.len() > 0,
    ensures
        at_line(
            say(say_args(p, regs, args, i), ")\n"@),
            lines.push(ended(w, cur) + arg_words(p.strs, regs, args, i)),
        ),
        say_args(p, regs, args, i).strs == strs_with_all(p.strs, args, i),
    decreases args.len() - i,
{
    if i == args.len() {
        reveal_strlit(")\n");
        assert(")\n"@ =~= seq![')'] + none() + seq!['\n']);
        said_end(p, lines, w, cur, ")\n"@, seq![')'], none());
        assert(ended(w, cur) + arg_words(p.strs, regs, args, i) =~= ended(w, cur));
    } else {
        let q = if i == 0 {
            p
        } else {
            say(p, ", "@)
        };
        if i > 0 {
            lemma_next(p, lines, w, cur);
        } else {
            assert(cur =~= none());
        }
        let w1 = ended(w, cur);
        lemma_typed(q, lines, w1, regs, args[i]);
        let t = ty_text(opnd_ty(regs, args[i]));
        let aw = opnd_word(p.strs.len(), args[i]);
        lemma_args(say_typed(q, regs, args[i]), lines, w1.push(t), aw, regs, args, i + 1);
        assert(w1.push(t).push(aw) + arg_words(strs_with(p.strs, args[i]), regs, args, i + 1)
            =~= w1 + arg_words(p.strs, regs, args, i));
    }
}

/// `call type name(operands)`.
pub open spec fn call_line(
    strs: Seq<Seq<char>>,
    regs: Seq<IrTy>,
    dst: nat,
    name: Seq<char>,
    args: Seq<OpndV>,
) -> Line {
    def(dst) + seq!["call"@, ty_text(ty_at(regs, dst as int)), name] + arg_words(
        strs,
        regs,
        args,
        0,
    )
}

pub proof fn lemma_call_front(p: Page, lines: Seq<Line>, regs: Seq<IrTy>, dst: nat)
    requires
        at_line(p, lines),
    ensures
        page_read(
            say(say(say(say_def(p, dst), "call "@), ty_text(ty_at(regs, dst as int))), " @"@),
        ) == in_word(lines, def(dst) + seq!["call"@, ty_text(ty_at(regs, dst as int))], "@"@),
{
    lemma_def(p, lines, dst);
    reveal_strlit("call ");
    reveal_strlit("call");
    reveal_strlit(" @");
    reveal_strlit("@");
    reveal_strlit(" ");
    let t = ty_at(regs, dst as int);
    lemma_ty_text(t);
    let p0 = say_def(p, dst);
    assert("call "@ =~= none() + "call"@ + seq![' ']);
    lemma_then(p0, lines, def(dst), none(), "call "@, none(), "call"@);
    let w1 = def(dst).push("call"@);
    let p1 = say(p0, "call "@);
    lemma_word(p1, lines, w1, ty_text(t));
    assert(" @"@ =~= " "@ + "@"@);
    said(say(p1, ty_text(t)), lines, w1, ty_text(t), " @"@, " "@, "@"@);
    assert(w1.push(ty_text(t)) =~= def(dst) + seq!["call"@, ty_text(t)]);
}

/// The operands behind the name of a function.
pub proof fn lemma_call_back(
    p: Page,
    lines: Seq<Line>,
    regs: Seq<IrTy>,
    dst: nat,
    name: Seq<char>,
    args: Seq<OpndV>,
)
    requires
        page_read(p) == in_word(
            lines,
            def(dst) + seq!["call"@, ty_text(ty_at(regs, dst as int))],
            name,
        ),
        name.len() > 0,
        are_writable(args),
    ensures
        ({
            let q = say(say_args(say(p, "("@), regs, args, 0), ")\n"@);
            &&& at_line(q, lines.push(call_line(p.strs, regs, dst, name, args)))
            &&& q.strs == strs_with_all(p.strs, args, 0)
        }),
{
    reveal_strlit("(");
    let w1 = def(dst) + seq!["call"@, ty_text(ty_at(regs, dst as int))];
    lemma_gapped(p, lines, w1, name, "("@);
    lemma_args(say(p, "("@), lines, w1.push(name), none(), regs, args, 0);
    assert(w1.push(name) =~= def(dst) + seq![
        "call"@,
        ty_text(ty_at(regs, dst as int)),
        name,
    ]);
}

pub proof fn lemma_call(
    p: Page,
    lines: Seq<Line>,
    w: Around,
    dst: nat,
    name: Seq<char>,
    args: Seq<OpndV>,
)
    requires
        at_line(p, lines),
        is_solid(name),
        are_writable(args),
    ensures
        at_line(
            say_call(p, w, dst, name, args),
            lines.push(call_line(p.strs, w.regs, dst, "@"@ + name, args)),
        ),
        say_call(p, w, dst, name, args).strs == strs_with_all(p.strs, args, 0),
{
    lemma_call_front(p, lines, w.regs, dst);
    reveal_strlit("@");
    let p1 = say(
        say(say(say_def(p, dst), "call "@), ty_text(ty_at(w.regs, dst as int))),
        " @"@,
    );
    let w1 = def(dst) + seq!["call"@, ty_text(ty_at(w.regs, dst as int))];
    said_on(p1, lines, w1, "@"@, name);
    lemma_call_back(say(p1, name), lines, w.regs, dst, "@"@ + name, args);
}

} // verus!
