//! What the text of an instruction does.
use crate::ir::Op;
use vstd::prelude::*;
#[allow(unused_imports)]
use crate::assembly::{arg, one_text, opnd_ty, rt_text, say_op, ty_at, two_text, Around, Page};
#[allow(unused_imports)]
use crate::ir::OpndV;
#[allow(unused_imports)]
use crate::laws::emitted::{is_writable, opnd_word, reg_word, strs_with, var_word};
#[allow(unused_imports)]
use crate::laws::lines::{is_solid, Line};
#[allow(unused_imports)]
use crate::laws::phrases::{
    float_test_line, lemma_float_test, lemma_int_test, lemma_select, lemma_shift, select_line,
    shift_lines, test_line,
};
#[allow(unused_imports)]
use crate::laws::places::{
    are_writable, call_line, gep, lemma_call, lemma_get_var, lemma_load, lemma_load_byte, lemma_new,
    lemma_offset, lemma_set_var, lemma_slot, lemma_store, lemma_store_byte, load_byte_lines,
    load_line, new_line, store_byte_lines, store_line, strs_with_all,
};
#[allow(unused_imports)]
use crate::laws::vocabulary::{lemma_rt_solid, lemma_rt_word, rt_word};
#[allow(unused_imports)]
use crate::laws::wording::{
    are_two, at_line, lemma_one, lemma_two, lemma_two_words, one_line, second_word, two_words,
};
#[allow(unused_imports)]
use crate::text::dec_text;

verus! {

/// How many operands an operation has. A call has as many as it is given.
pub open spec fn takes(op: Op, n: nat) -> bool {
    match op {
        Op::Rt(_) => true,
        Op::New(_) | Op::NewTagged(_) | Op::GetVar(_) => n == 0,
        Op::Select => n == 3,
        Op::Shl
        | Op::AShr
        | Op::ICmp(_)
        | Op::FCmp(_)
        | Op::Offset
        | Op::Store
        | Op::StoreByte => n == 2,
        _ => if two_text(op) is Some {
            n == 2
        } else {
            n == 1
        },
    }
}

/// The lines of an operation.
pub open spec fn op_lines(
    w: Around,
    strs: Seq<Seq<char>>,
    dst: nat,
    op: Op,
    args: Seq<OpndV>,
) -> Seq<Line> {
    let a = arg(args, 0);
    let b = arg(args, 1);
    let aw = opnd_word(strs.len(), a);
    let bw = opnd_word(strs.len(), b);
    if two_text(op) is Some {
        let (m, t) = two_words(op);
        seq![seq![reg_word(dst), "="@, m, t, aw, second_word(strs, a, b)]]
    } else if one_text(op) is Some {
        seq![one_line(dst, op, aw)]
    } else {
        match op {
            Op::Shl => shift_lines(strs, dst, "shl"@, a, b),
            Op::AShr => shift_lines(strs, dst, "ashr"@, a, b),
            Op::ICmp(pr) => seq![test_line(strs, w.regs, dst, pr, a, b)],
            Op::FCmp(pr) => seq![float_test_line(strs, dst, pr, a, b)],
            Op::Select => seq![select_line(strs, w.regs, dst, a, b, arg(args, 2))],
            Op::New(n) => seq![new_line(dst, "@lumo_new"@, n as nat)],
            Op::NewTagged(n) => seq![new_line(dst, "@lumo_new_tagged"@, n as nat)],
            Op::Slot(i) => seq![gep(dst, "i64"@, aw).push(dec_text(i as nat))],
            Op::Offset => seq![gep(dst, "i8"@, aw).push(second_word(strs, a, b))],
            Op::Load(t) => seq![load_line(dst, t, aw)],
            Op::LoadByte => load_byte_lines(dst, aw),
            Op::Store => seq![store_line(opnd_ty(w.regs, b), bw, second_word(strs, b, a))],
            Op::StoreByte => store_byte_lines(dst, bw, second_word(strs, b, a)),
            Op::GetVar(i) => seq![load_line(dst, ty_at(w.slots, i as int), var_word(i as nat))],
            Op::SetVar(i) => seq![store_line(opnd_ty(w.regs, a), aw, var_word(i as nat))],
            Op::Rt(f) => seq![call_line(strs, w.regs, dst, rt_word(f), args)],
            _ => seq![],
        }
    }
}

/// The string constants after an operation.
pub open spec fn op_strs(strs: Seq<Seq<char>>, op: Op, args: Seq<OpndV>) -> Seq<Seq<char>> {
    let a = arg(args, 0);
    let b = arg(args, 1);
    if two_text(op) is Some {
        strs_with(strs_with(strs, a), b)
    } else if one_text(op) is Some {
        strs_with(strs, a)
    } else {
        match op {
            Op::Shl | Op::AShr | Op::Store | Op::StoreByte => strs_with(strs_with(strs, b), a),
            Op::ICmp(_) | Op::FCmp(_) | Op::Offset => strs_with(strs_with(strs, a), b),
            Op::Select => strs_with(strs_with(strs_with(strs, a), b), arg(args, 2)),
            Op::Slot(_) | Op::Load(_) | Op::LoadByte | Op::SetVar(_) => strs_with(strs, a),
            Op::Rt(_) => strs_with_all(strs, args, 0),
            _ => strs,
        }
    }
}

proof fn lemma_new_text()
    ensures
        "call ptr @lumo_new(i64 "@ == "call"@ + seq![' '] + "ptr"@ + seq![' '] + "@lumo_new"@
            + seq!['('] + "i64"@ + seq![' '],
        "call ptr @lumo_new_tagged(i64 "@ == "call"@ + seq![' '] + "ptr"@ + seq![' ']
            + "@lumo_new_tagged"@ + seq!['('] + "i64"@ + seq![' '],
        is_solid("@lumo_new"@),
        is_solid("@lumo_new_tagged"@),
        "@lumo_new"@.len() > 0,
        "@lumo_new_tagged"@.len() > 0,
{
    reveal_strlit("call ptr @lumo_new(i64 ");
    reveal_strlit("call ptr @lumo_new_tagged(i64 ");
    reveal_strlit("call");
    reveal_strlit("ptr");
    reveal_strlit("@lumo_new");
    reveal_strlit("@lumo_new_tagged");
    reveal_strlit("i64");
    assert("call ptr @lumo_new(i64 "@ =~= "call"@ + seq![' '] + "ptr"@ + seq![' '] + "@lumo_new"@
        + seq!['('] + "i64"@ + seq![' ']);
    assert("call ptr @lumo_new_tagged(i64 "@ =~= "call"@ + seq![' '] + "ptr"@ + seq![' ']
        + "@lumo_new_tagged"@ + seq!['('] + "i64"@ + seq![' ']);
}

proof fn lemma_shift_text()
    ensures
        are_two("shl i64 "@, "shl"@, "i64"@),
        are_two("ashr i64 "@, "ashr"@, "i64"@),
{
    reveal_strlit("shl i64 ");
    reveal_strlit("shl");
    reveal_strlit("ashr i64 ");
    reveal_strlit("ashr");
    reveal_strlit("i64");
    assert("shl i64 "@ =~= "shl"@ + seq![' '] + "i64"@ + seq![' ']);
    assert("ashr i64 "@ =~= "ashr"@ + seq![' '] + "i64"@ + seq![' ']);
}

/// The lines that the text of an operation is.
pub proof fn lemma_op_text(
    p: Page,
    lines: Seq<Line>,
    w: Around,
    dst: nat,
    op: Op,
    args: Seq<OpndV>,
)
    requires
        at_line(p, lines),
        are_writable(args),
    ensures
        at_line(say_op(p, w, dst, op, args), lines + op_lines(w, p.strs, dst, op, args)),
        say_op(p, w, dst, op, args).strs == op_strs(p.strs, op, args),
{
    let a = arg(args, 0);
    let b = arg(args, 1);
    assert(is_writable(a));
    assert(is_writable(b));
    assert(is_writable(arg(args, 2)));
    let ls = op_lines(w, p.strs, dst, op, args);
    if two_text(op) is Some {
        lemma_two_words(op);
        let (m, t) = two_words(op);
        lemma_two(p, lines, dst, two_text(op)->0, m, t, a, b);
        assert(lines.push(ls[0]) =~= lines + ls);
    } else if one_text(op) is Some {
        lemma_one(p, lines, dst, op, a);
        assert(lines.push(ls[0]) =~= lines + ls);
    } else {
        match op {
            Op::Shl => {
                lemma_shift_text();
                lemma_shift(p, lines, dst, "shl i64 "@, "shl"@, a, b);
            },
            Op::AShr => {
                lemma_shift_text();
                lemma_shift(p, lines, dst, "ashr i64 "@, "ashr"@, a, b);
            },
            Op::ICmp(pr) => {
                lemma_int_test(p, lines, w, dst, pr, a, b);
                assert(lines.push(ls[0]) =~= lines + ls);
            },
            Op::FCmp(pr) => {
                lemma_float_test(p, lines, dst, pr, a, b);
                assert(lines.push(ls[0]) =~= lines + ls);
            },
            Op::Select => {
                lemma_select(p, lines, w, dst, a, b, arg(args, 2));
                assert(lines.push(ls[0]) =~= lines + ls);
            },
            Op::New(n) => {
                lemma_new_text();
                lemma_new(
                    p,
                    lines,
                    dst,
                    "call ptr @lumo_new(i64 "@,
                    "@lumo_new"@,
                    n as nat,
                );
                assert(lines.push(ls[0]) =~= lines + ls);
            },
            Op::NewTagged(n) => {
                lemma_new_text();
                lemma_new(
                    p,
                    lines,
                    dst,
                    "call ptr @lumo_new_tagged(i64 "@,
                    "@lumo_new_tagged"@,
                    n as nat,
                );
                assert(lines.push(ls[0]) =~= lines + ls);
            },
            Op::Slot(i) => {
                lemma_slot(p, lines, dst, a, i as nat);
                assert(lines.push(ls[0]) =~= lines + ls);
            },
            Op::Offset => {
                lemma_offset(p, lines, dst, a, b);
                assert(lines.push(ls[0]) =~= lines + ls);
            },
            Op::Load(t) => {
                lemma_load(p, lines, dst, t, a);
                assert(lines.push(ls[0]) =~= lines + ls);
            },
            Op::LoadByte => {
                lemma_load_byte(p, lines, dst, a);
            },
            Op::Store => {
                lemma_store(p, lines, w, a, b);
                assert(lines.push(ls[0]) =~= lines + ls);
            },
            Op::StoreByte => {
                lemma_store_byte(p, lines, dst, a, b);
            },
            Op::GetVar(i) => {
                lemma_get_var(p, lines, dst, ty_at(w.slots, i as int), i as nat);
                assert(lines.push(ls[0]) =~= lines + ls);
            },
            Op::SetVar(i) => {
                lemma_set_var(p, lines, w, a, i as nat);
                assert(lines.push(ls[0]) =~= lines + ls);
            },
            Op::Rt(f) => {
                lemma_rt_solid(f);
                lemma_rt_word(f);
                lemma_call(p, lines, w, dst, rt_text(f), args);
                assert(lines.push(ls[0]) =~= lines + ls);
            },
            _ => {
                assert(lines =~= lines + ls);
            },
        }
    }
}

} // verus!
