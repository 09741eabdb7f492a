//! What becomes of strings.
use vstd::prelude::*;
#[allow(unused_imports)]
use crate::ast::BinOp;
#[allow(unused_imports)]
use crate::ir::{Op, Rt};
#[allow(unused_imports)]
use crate::lowering::pred_of;
#[allow(unused_imports)]
use crate::meaning::{
    bound_parts, byte_get_row, chr_row, infix_row, row, row_from, slice_row, src_vals, substr_row,
    value_of, Base, Done, Part, RowEnd, Src, Srcs, Value,
};
#[allow(unused_imports)]
use crate::memory::heap::{
    bytes, compares, is_heap, kept_but, lemma_check, lemma_do, lemma_wrapped, machine_op,
    on_machine, order, text_at, with_bytes, wrapped, written, zero_from, Block, Heap, Word,
};
#[allow(unused_imports)]
use crate::memory::runtime::{is_new_text, lemma_new_text, outcome, runtime_op};
#[allow(unused_imports)]
use crate::runtime::arrays::{bytes_no_later, bytes_order_is_strict};
#[allow(unused_imports)]
use crate::types::Ty;

verus! {

pub proof fn lemma_zero_from(s: Seq<u8>, i: int)
    requires
        0 <= i <= s.len(),
    ensures
        i <= zero_from(s, i) <= s.len(),
        forall|j: int| i <= j < zero_from(s, i) ==> s[j] != 0,
        zero_from(s, i) < s.len() ==> s[zero_from(s, i)] == 0,
    decreases s.len() - i,
{
    if i < s.len() && s[i] != 0 {
        lemma_zero_from(s, i + 1);
    }
}

pub proof fn lemma_zero_is(s: Seq<u8>, i: int, e: int)
    requires
        0 <= i <= e < s.len(),
        forall|j: int| i <= j < e ==> s[j] != 0,
        s[e] == 0,
    ensures
        zero_from(s, i) == e,
    decreases e - i,
{
    if i < e {
        lemma_zero_is(s, i + 1, e);
    }
}

/// A string holds no zero, and stays where no block changes.
pub proof fn lemma_text(h: Heap, g: Heap, v: Word, t: Seq<u8>)
    requires
        text_at(h, v) == Some(t),
    ensures
        forall|j: int| 0 <= j < t.len() ==> t[j] != 0,
        kept_but(h, g, Set::empty()) ==> text_at(g, v) == Some(t),
{
    let k = v->At_0;
    let at = v->At_1;
    let s = bytes(h, k)->0;
    lemma_zero_from(s, at);
    assert forall|j: int| 0 <= j < t.len() implies t[j] != 0 by {
        assert(t[j] == s[at + j]);
    }
    if kept_but(h, g, Set::empty()) {
        assert(h.blocks.contains_key(k));
    }
}

/// A string written to a block of bytes is there.
pub proof fn lemma_written(h: Heap, k: nat, at: int, t: Seq<u8>, before: Seq<u8>)
    requires
        bytes(h, k) is Some,
        before.len() == at,
        at + t.len() < bytes(h, k)->0.len(),
        forall|j: int| 0 <= j < at ==> bytes(h, k)->0[j] == before[j],
        forall|j: int| 0 <= j < at ==> before[j] != 0,
        forall|j: int| 0 <= j < t.len() ==> t[j] != 0,
    ensures
        written(h, k, at, t) matches Some(g) && text_at(g, Word::At(k, 0)) == Some(before + t)
            && bytes(g, k)->0.len() == bytes(h, k)->0.len() && forall|j: int|
            0 <= j < at + t.len() ==> bytes(g, k)->0[j] == (before + t)[j],
{
    let g = written(h, k, at, t)->0;
    let s = bytes(g, k)->0;
    let e = at + t.len();
    assert forall|j: int| 0 <= j < e implies s[j] == (before + t)[j] by {
        if j < at {
            assert(s[j] == bytes(h, k)->0[j]);
        } else {
            assert(s[j] == t[j - at]);
        }
    }
    assert forall|j: int| 0 <= j < e implies s[j] != 0 by {
        if j < at {
            assert((before + t)[j] == before[j]);
        } else {
            assert((before + t)[j] == t[j - at]);
        }
    }
    lemma_zero_is(s, 0, e);
    assert(s.subrange(0, e) =~= before + t);
}

/// `a + b` of strings is a new string, of the bytes of `a` and then those of `b`.
pub proof fn strings_are_joined(
    other: Base<Word, Heap>,
    h: Heap,
    a: Word,
    b: Word,
    s: Seq<u8>,
    t: Seq<u8>,
    ty: Ty,
)
    requires
        is_heap(h),
        text_at(h, a) == Some(s),
        text_at(h, b) == Some(t),
        s.len() + t.len() < i64::MAX,
        ty is Str,
    ensures
        value_of(on_machine(other), infix_row(BinOp::Add, ty), seq![a, b], h) matches Value::Is(v, g)
            && text_at(g, v) == Some(s + t) && is_heap(g) && kept_but(h, g, Set::empty()),
{
    reveal(value_of);
    reveal(row);
    reveal(infix_row);
    let ps = infix_row(BinOp::Add, ty).parts;
    let ins = seq![a, b];
    let n = s.len() as int;
    let m = t.len() as int;
    let k = h.next;
    let v = Word::At(k, 0);
    let h1 = Heap {
        blocks: h.blocks.insert(
            k,
            Block::Bytes(Seq::new((n + m + 1) as nat, |i: int| 0u8)),
        ),
        next: k + 1,
    };
    let r0 = Seq::<Word>::empty();
    let r1 = r0.push(Word::Int(n as i64));
    let r2 = r1.push(Word::Int(m as i64));
    let r3 = r2.push(Word::Int((n + m) as i64));
    let r4 = r3.push(Word::Int((n + m + 1) as i64));
    let r5 = r4.push(v);
    let r6 = r5.push(v);
    let r7 = r6.push(v);
    lemma_wrapped(n);
    lemma_do(other, ps, 0, ins, r0, h, r1.last(), h);
    lemma_wrapped(m);
    lemma_do(other, ps, 1, ins, r1, h, r2.last(), h);
    lemma_wrapped(n + m);
    lemma_do(other, ps, 2, ins, r2, h, r3.last(), h);
    lemma_wrapped(n + m + 1);
    lemma_do(other, ps, 3, ins, r3, h, r4.last(), h);
    lemma_do(other, ps, 4, ins, r4, h, v, h1);
    assert(kept_but(h, h1, Set::empty()));
    lemma_text(h, h1, a, s);
    lemma_text(h, h1, b, t);
    assert(bytes(h1, k) is Some);
    lemma_written(h1, k, 0, s, Seq::empty());
    assert(Seq::<u8>::empty() + s =~= s);
    let h2 = written(h1, k, 0, s)->0;
    lemma_do(other, ps, 5, ins, r5, h1, v, h2);
    assert(kept_but(h, h2, Set::empty()));
    lemma_text(h, h2, b, t);
    lemma_written(h2, k, n, t, s);
    let h3 = written(h2, k, n, t)->0;
    lemma_do(other, ps, 6, ins, r6, h2, v, h3);
    assert(kept_but(h, h3, Set::empty()));
}

/// Strings are compared byte by byte.
pub proof fn strings_are_compared(
    other: Base<Word, Heap>,
    h: Heap,
    a: Word,
    b: Word,
    s: Seq<u8>,
    t: Seq<u8>,
    op: BinOp,
    ty: Ty,
)
    requires
        text_at(h, a) == Some(s),
        text_at(h, b) == Some(t),
        pred_of(op) is Some,
        ty is Str,
    ensures
        value_of(on_machine(other), infix_row(op, ty), seq![a, b], h) == Value::<Word, Heap>::Is(
            Word::Bit(
                match op {
                    BinOp::Eq => s == t,
                    BinOp::Ne => s != t,
                    BinOp::Lt => !bytes_no_later(t, s),
                    BinOp::Le => bytes_no_later(s, t),
                    BinOp::Gt => !bytes_no_later(s, t),
                    _ => bytes_no_later(t, s),
                },
            ),
            h,
        ),
{
    reveal(value_of);
    reveal(row);
    reveal(infix_row);
    let ps = infix_row(op, ty).parts;
    let ins = seq![a, b];
    let n = order(s, t);
    lemma_total(s, t);
    lemma_total(s, s);
    if bytes_no_later(s, t) && bytes_no_later(t, s) {
        bytes_order_is_strict(s, t);
    }
    let r1 = Seq::<Word>::empty().push(Word::Int(n as i64));
    let v = Word::Bit(compares(pred_of(op)->0, n, 0));
    lemma_wrapped(n);
    lemma_do(other, ps, 0, ins, Seq::empty(), h, r1.last(), h);
    lemma_do(other, ps, 1, ins, r1, h, v, h);
}

proof fn lemma_total(a: Seq<u8>, b: Seq<u8>)
    ensures
        bytes_no_later(a, b) || bytes_no_later(b, a),
    decreases a.len(),
{
    if a.len() > 0 && b.len() > 0 {
        lemma_total(a.drop_first(), b.drop_first());
    }
}

/// `s[i]` is the byte at `i`; an index below zero or not below the length ends the program.
pub proof fn bytes_are_read(other: Base<Word, Heap>, h: Heap, a: Word, s: Seq<u8>, i: i64)
    requires
        text_at(h, a) == Some(s),
        s.len() <= i64::MAX,
    ensures
        value_of(on_machine(other), byte_get_row(), seq![a, Word::Int(i)], h) == if 0 <= i
            < s.len() {
            Value::Is(Word::Int(s[i as int] as i64), h)
        } else {
            Value::Halt("lumo: index out of bounds\n"@, h)
        },
{
    reveal(value_of);
    reveal(row);
    reveal(byte_get_row);
    let ps = byte_get_row().parts;
    let ins = seq![a, Word::Int(i)];
    let n = s.len() as int;
    let k = a->At_0;
    let at = a->At_1;
    let r0 = Seq::<Word>::empty();
    let r1 = r0.push(Word::Int(n as i64));
    let r2 = r1.push(Word::Bit(!(0 <= i < n)));
    lemma_wrapped(n);
    lemma_do(other, ps, 0, ins, r0, h, r1.last(), h);
    lemma_do(other, ps, 1, ins, r1, h, r2.last(), h);
    lemma_check(other, ps, 2, ins, r2, h);
    if 0 <= i < n {
        let r3 = r2.push(Word::At(k, at + i));
        lemma_do(other, ps, 3, ins, r2, h, r3.last(), h);
        lemma_zero_from(bytes(h, k)->0, at);
        assert(s[i as int] == bytes(h, k)->0[at + i]);
        lemma_do(other, ps, 4, ins, r3, h, Word::Int(s[i as int] as i64), h);
    }
}

/// `chr(n)` is a new string of the one byte that `n` is modulo 256; of none where that is
/// zero, which ends a string.
pub proof fn bytes_become_strings(other: Base<Word, Heap>, h: Heap, n: i64)
    requires
        is_heap(h),
    ensures
        ({
            let byte = (n as int % 256) as u8;
            value_of(on_machine(other), chr_row(), seq![Word::Int(n)], h) matches Value::Is(v, g)
                && text_at(g, v) == Some(
                if byte == 0 {
                    Seq::<u8>::empty()
                } else {
                    seq![byte]
                },
            ) && is_heap(g) && kept_but(h, g, Set::empty())
        }),
{
    reveal(value_of);
    reveal(row);
    let ps = chr_row().parts;
    let ins = seq![Word::Int(n)];
    let byte = (n as int % 256) as u8;
    let k = h.next;
    let v = Word::At(k, 0);
    let empty = Seq::new(2, |i: int| 0u8);
    let h1 = Heap { blocks: h.blocks.insert(k, Block::Bytes(empty)), next: k + 1 };
    let s2 = empty.update(0, byte);
    let s3 = s2.update(1, 0u8);
    let h2 = with_bytes(h1, k, s2);
    let h3 = with_bytes(h2, k, s3);
    let r0 = Seq::<Word>::empty();
    let r1 = r0.push(v);
    let r2 = r1.push(Word::Int(0));
    let r3 = r2.push(Word::At(k, 1));
    let r4 = r3.push(Word::Int(0));
    lemma_do(other, ps, 0, ins, r0, h, v, h1);
    lemma_do(other, ps, 1, ins, r1, h1, r2.last(), h2);
    lemma_do(other, ps, 2, ins, r2, h2, r3.last(), h2);
    lemma_do(other, ps, 3, ins, r3, h2, r4.last(), h3);
    assert(bytes(h3, k) == Some(s3));
    if byte == 0 {
        lemma_zero_is(s3, 0, 0);
        assert(s3.subrange(0, 0) =~= Seq::empty());
    } else {
        lemma_zero_is(s3, 0, 1);
        assert(s3.subrange(0, 1) =~= seq![byte]);
    }
}

/// `s[lo:hi]` of a string is a new string of the bytes from `lo` up to `hi`, and bounds that
/// are not in order or not in the string end the program.
pub proof fn slices_are_substrings(
    other: Base<Word, Heap>,
    h: Heap,
    a: Word,
    s: Seq<u8>,
    lo: i64,
    hi: i64,
    ty: Ty,
)
    requires
        is_heap(h),
        text_at(h, a) == Some(s),
        s.len() <= i64::MAX,
        ty is Str,
    ensures
        ({
            let len = Word::Int(s.len() as i64);
            match value_of(
                on_machine(other),
                slice_row(ty),
                seq![a, Word::Int(lo), Word::Int(hi), len],
                h,
            ) {
                Value::Is(v, g) => {
                    &&& 0 <= lo <= hi <= s.len()
                    &&& is_new_text(h, g, v, s.subrange(lo as int, hi as int))
                },
                Value::Halt(msg, g) => {
                    &&& !(0 <= lo <= hi <= s.len())
                    &&& msg == "lumo: slice out of range\n"@
                    &&& g == h
                },
                Value::Stop(_) => false,
            }
        }),
{
    lemma_slice(other, h, a, lo, hi, s.len() as i64, ty);
    if 0 <= lo <= hi <= s.len() {
        lemma_substring(other, h, a, s, lo, (hi - lo) as i64);
    }
}

/// The part of a string that is asked for is a new string.
proof fn lemma_substring(
    other: Base<Word, Heap>,
    h: Heap,
    a: Word,
    s: Seq<u8>,
    start: i64,
    count: i64,
)
    requires
        is_heap(h),
        text_at(h, a) == Some(s),
        start >= 0,
        count >= 0,
        start + count <= s.len(),
    ensures
        machine_op(
            other,
            Op::Rt(Rt::Substr),
            seq![a, Word::Int(start), Word::Int(count)],
            h,
        ) matches Done::Go(v, g) && is_new_text(h, g, v, s.subrange(start as int, start + count)),
{
    reveal(runtime_op);
    let t = s.subrange(start as int, start + count);
    lemma_text(h, h, a, s);
    assert forall|j: int| 0 <= j < t.len() implies t[j] != 0 by {
        assert(t[j] == s[start + j]);
    }
    lemma_new_text(t, h);
}

proof fn lemma_slice(
    other: Base<Word, Heap>,
    h: Heap,
    a: Word,
    lo: i64,
    hi: i64,
    len: i64,
    ty: Ty,
)
    requires
        ty is Str,
    ensures
        value_of(
            on_machine(other),
            slice_row(ty),
            seq![a, Word::Int(lo), Word::Int(hi), Word::Int(len)],
            h,
        ) == if 0 <= lo <= hi <= len {
            outcome(
                machine_op(
                    other,
                    Op::Rt(Rt::Substr),
                    seq![a, Word::Int(lo), Word::Int((hi - lo) as i64)],
                    h,
                ),
            )
        } else {
            Value::Halt("lumo: slice out of range\n"@, h)
        },
{
    reveal(value_of);
    reveal(row);
    reveal(slice_row);
    let ps = slice_row(ty).parts;
    let ins = seq![a, Word::Int(lo), Word::Int(hi), Word::Int(len)];
    assert(ps.take(6) =~= bound_parts());
    lemma_bounds(other, ps, ins, h, a, lo, hi, len);
    if 0 <= lo <= hi <= len {
        let r5 = bound_bits(lo, hi, len);
        let count = Word::Int((hi - lo) as i64);
        let r6 = r5.push(count);
        lemma_wrapped(hi - lo);
        lemma_do(other, ps, 6, ins, r5, h, count, h);
        let args = src_vals(
            on_machine(other),
            ins,
            r6,
            Srcs::S3(Src::In(0), Src::In(1), Src::Res(5)),
        );
        assert(args =~= seq![a, Word::Int(lo), count]);
        if let Done::Go(v, g) = machine_op(other, Op::Rt(Rt::Substr), args, h) {
            lemma_do(other, ps, 7, ins, r6, h, v, g);
        }
    }
}

/// What the checks of the bounds of a slice come to.
pub open spec fn bound_bits(lo: i64, hi: i64, len: i64) -> Seq<Word> {
    Seq::<Word>::empty().push(Word::Bit(lo >= 0)).push(Word::Bit(lo <= hi)).push(
        Word::Bit(hi <= len),
    ).push(Word::Bit(lo >= 0 && lo <= hi)).push(Word::Bit(lo >= 0 && lo <= hi && hi <= len))
}

/// The checks of the bounds of a slice.
pub proof fn lemma_bounds(
    other: Base<Word, Heap>,
    ps: Seq<Part>,
    ins: Seq<Word>,
    h: Heap,
    a: Word,
    lo: i64,
    hi: i64,
    len: i64,
)
    requires
        ps.len() > 6,
        ps.take(6) == bound_parts(),
        ins == seq![a, Word::Int(lo), Word::Int(hi), Word::Int(len)],
    ensures
        row_from(on_machine(other), ps, 0, ins, Seq::empty(), h) == if 0 <= lo <= hi <= len {
            row_from(on_machine(other), ps, 6, ins, bound_bits(lo, hi, len), h)
        } else {
            RowEnd::Halt("lumo: slice out of range\n"@, h)
        },
{
    assert forall|i: int| 0 <= i < 6 implies ps[i] == bound_parts()[i] by {
        assert(ps.take(6)[i] == ps[i]);
    }
    let r0 = Seq::<Word>::empty();
    let r1 = r0.push(Word::Bit(lo >= 0));
    let r2 = r1.push(Word::Bit(lo <= hi));
    let r3 = r2.push(Word::Bit(hi <= len));
    let r4 = r3.push(Word::Bit(lo >= 0 && lo <= hi));
    let r5 = r4.push(Word::Bit(lo >= 0 && lo <= hi && hi <= len));
    lemma_do(other, ps, 0, ins, r0, h, r1.last(), h);
    lemma_do(other, ps, 1, ins, r1, h, r2.last(), h);
    lemma_do(other, ps, 2, ins, r2, h, r3.last(), h);
    lemma_do(other, ps, 3, ins, r3, h, r4.last(), h);
    lemma_do(other, ps, 4, ins, r4, h, r5.last(), h);
    lemma_check(other, ps, 5, ins, r5, h);
}

/// `substr(s, start, count)` is a new string of that part of `s`; where the part does not
/// lie in the string, the program ends.
pub proof fn substrings_lie_in_the_string(
    other: Base<Word, Heap>,
    h: Heap,
    a: Word,
    s: Seq<u8>,
    start: i64,
    count: i64,
)
    requires
        is_heap(h),
        text_at(h, a) == Some(s),
        s.len() <= i64::MAX,
    ensures
        match value_of(
            on_machine(other),
            substr_row(),
            seq![a, Word::Int(start), Word::Int(count)],
            h,
        ) {
            Value::Is(v, g) => {
                &&& start >= 0 && count >= 0 && start + count <= s.len()
                &&& is_new_text(h, g, v, s.subrange(start as int, start + count))
            },
            Value::Halt(msg, g) => {
                &&& !(start >= 0 && count >= 0 && start + count <= s.len())
                &&& msg == "lumo: substr out of range\n"@
                &&& g == h
            },
            Value::Stop(_) => false,
        },
{
    reveal(value_of);
    reveal(row);
    let ps = substr_row().parts;
    let ins = seq![a, Word::Int(start), Word::Int(count)];
    let n = s.len() as int;
    let rest = wrapped(n - start);
    let within = start >= 0 && count >= 0 && count <= rest;
    let r0 = Seq::<Word>::empty();
    let r1 = r0.push(Word::Int(n as i64));
    let r2 = r1.push(Word::Bit(start >= 0));
    let r3 = r2.push(Word::Bit(count >= 0));
    let r4 = r3.push(Word::Int(rest));
    let r5 = r4.push(Word::Bit(count <= rest));
    let r6 = r5.push(Word::Bit(start >= 0 && count >= 0));
    let r7 = r6.push(Word::Bit(within));
    lemma_wrapped(n);
    lemma_do(other, ps, 0, ins, r0, h, r1.last(), h);
    lemma_do(other, ps, 1, ins, r1, h, r2.last(), h);
    lemma_do(other, ps, 2, ins, r2, h, r3.last(), h);
    lemma_do(other, ps, 3, ins, r3, h, r4.last(), h);
    lemma_do(other, ps, 4, ins, r4, h, r5.last(), h);
    lemma_do(other, ps, 5, ins, r5, h, r6.last(), h);
    lemma_do(other, ps, 6, ins, r6, h, r7.last(), h);
    lemma_check(other, ps, 7, ins, r7, h);
    if start >= 0 {
        lemma_wrapped(n - start);
    }
    if within {
        let args = src_vals(
            on_machine(other),
            ins,
            r7,
            Srcs::S3(Src::In(0), Src::In(1), Src::In(2)),
        );
        assert(args =~= ins);
        lemma_substring(other, h, a, s, start, count);
        let d = machine_op(other, Op::Rt(Rt::Substr), args, h);
        lemma_do(other, ps, 8, ins, r7, h, d->Go_0, d->Go_1);
    }
}

} // verus!
