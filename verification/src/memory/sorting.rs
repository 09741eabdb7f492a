//! What becomes of arrays that are sliced, turned around and sorted.
use vstd::prelude::*;
#[allow(unused_imports)]
use crate::builtins::Builtin;
#[allow(unused_imports)]
use crate::ir::{Op, Rt};
#[allow(unused_imports)]
use crate::lowering::{elem_of, sort_fn};
#[allow(unused_imports)]
use crate::meaning::{
    bound_parts, builtin_row, row, slice_row, src_vals, value_of, Base, Done, Src, Srcs, Value,
};
#[allow(unused_imports)]
use crate::memory::arrays::is_array;
#[allow(unused_imports)]
use crate::memory::heap::{lemma_do, machine_op, on_machine, text_at, Heap, Word};
#[allow(unused_imports)]
use crate::memory::runtime::{
    ints_of, is_new_array, is_texts, lemma_checked, lemma_elems, lemma_new_array, new_array,
    order_of, outcome, runtime_op, texts_at,
};
#[allow(unused_imports)]
use crate::memory::strings::{bound_bits, lemma_bounds, lemma_text};
#[allow(unused_imports)]
use crate::runtime::arrays::{is_order, orders_are_there, picked, sorts_before};
#[allow(unused_imports)]
use crate::runtime::strings::texts_view;
#[allow(unused_imports)]
use crate::types::Ty;

verus! {

/// `a[lo:hi]` of an array is a new array of the elements from `lo` up to `hi`, and bounds
/// that are not in order or not in the array end the program.
pub proof fn slices_are_copied(
    other: Base<Word, Heap>,
    h: Heap,
    a: Word,
    xs: Seq<Word>,
    lo: i64,
    hi: i64,
    ty: Ty,
)
    requires
        is_array(h, a, xs),
        !(ty is Str),
    ensures
        ({
            let len = Word::Int(xs.len() as i64);
            match value_of(
                on_machine(other),
                slice_row(ty),
                seq![a, Word::Int(lo), Word::Int(hi), len],
                h,
            ) {
                Value::Is(v, g) => {
                    &&& 0 <= lo <= hi <= xs.len()
                    &&& is_new_array(h, g, v, xs.subrange(lo as int, hi as int))
                },
                Value::Halt(msg, g) => {
                    &&& !(0 <= lo <= hi <= xs.len())
                    &&& msg == "lumo: slice out of range\n"@
                    &&& g == h
                },
                Value::Stop(_) => false,
            }
        }),
{
    lemma_slice(other, h, a, lo, hi, xs.len() as i64, ty);
    if 0 <= lo <= hi <= xs.len() {
        let ys = xs.subrange(lo as int, hi as int);
        lemma_elems(h, a, xs);
        lemma_new_array(ys, h);
        assert(machine_op(
            other,
            Op::Rt(Rt::ArraySlice),
            seq![a, Word::Int(lo), Word::Int(hi)],
            h,
        ) == new_array(ys, h)) by {
            reveal(runtime_op);
        }
    }
}

proof fn lemma_slice(
    other: Base<Word, Heap>,
    h: Heap,
    a: Word,
    lo: i64,
    hi: i64,
    len: i64,
    ty: Ty,
)
    requires
        !(ty is Str),
    ensures
        value_of(
            on_machine(other),
            slice_row(ty),
            seq![a, Word::Int(lo), Word::Int(hi), Word::Int(len)],
            h,
        ) == if 0 <= lo <= hi <= len {
            outcome(
                machine_op(
                    other,
                    Op::Rt(Rt::ArraySlice),
                    seq![a, Word::Int(lo), Word::Int(hi)],
                    h,
                ),
            )
        } else {
            Value::Halt("lumo: slice out of range\n"@, h)
        },
{
    reveal(value_of);
    reveal(row);
    reveal(slice_row);
    let ps = slice_row(ty).parts;
    let ins = seq![a, Word::Int(lo), Word::Int(hi), Word::Int(len)];
    assert(ps.take(6) =~= bound_parts());
    lemma_bounds(other, ps, ins, h, a, lo, hi, len);
    if 0 <= lo <= hi <= len {
        let r5 = bound_bits(lo, hi, len);
        let args = src_vals(
            on_machine(other),
            ins,
            r5,
            Srcs::S3(Src::In(0), Src::In(1), Src::In(2)),
        );
        assert(args =~= seq![a, Word::Int(lo), Word::Int(hi)]);
        if let Done::Go(v, g) = machine_op(other, Op::Rt(Rt::ArraySlice), args, h) {
            lemma_do(other, ps, 6, ins, r5, h, v, g);
        }
    }
}

/// `reversed(a)` is a new array of the elements of `a`, the last first.
pub proof fn arrays_are_reversed(
    other: Base<Word, Heap>,
    h: Heap,
    a: Word,
    xs: Seq<Word>,
    ty: Ty,
)
    requires
        is_array(h, a, xs),
    ensures
        value_of(on_machine(other), builtin_row(Builtin::Reversed, ty), seq![a], h) matches Value::Is(
            v,
            g,
        ) && is_new_array(h, g, v, xs.reverse()),
{
    lemma_elems(h, a, xs);
    lemma_new_array(xs.reverse(), h);
    assert(machine_op(other, Op::Rt(Rt::Reverse), seq![a], h) == new_array(xs.reverse(), h)) by {
        reveal(runtime_op);
    }
    reveal(builtin_row);
    lemma_checked(other, Rt::Reverse, a, h);
}

/// `sorted(a)` of integers is a new array of these integers, each as often as in `a`, in
/// ascending order.
pub proof fn integers_are_sorted(
    other: Base<Word, Heap>,
    h: Heap,
    a: Word,
    xs: Seq<Word>,
    ns: Seq<i64>,
    ty: Ty,
)
    requires
        is_array(h, a, xs),
        ints_of(xs) == Some(ns),
        xs.len() <= usize::MAX,
        elem_of(ty) is Int,
    ensures
        exists|order: Seq<usize>| #[trigger]
            is_order(ns, 0, ns.len() as int, order) && (value_of(
                on_machine(other),
                builtin_row(Builtin::Sorted, ty),
                seq![a],
                h,
            ) matches Value::Is(v, g) && is_new_array(h, g, v, picked(xs, order))),
{
    let order = order_of(ns);
    let there = orders_are_there(ns, ns.len() as int);
    assert(is_order(ns, 0, ns.len() as int, order));
    lemma_elems(h, a, xs);
    lemma_new_array(picked(xs, order), h);
    assert(machine_op(other, Op::Rt(Rt::SortInt), seq![a], h) == new_array(picked(xs, order), h))
        by {
        reveal(runtime_op);
    }
    reveal(builtin_row);
    lemma_checked(other, Rt::SortInt, a, h);
}

/// `sorted(a)` of strings is a new array of these strings, each as often as in `a`, in the
/// order of their bytes; equal strings keep their order.
pub proof fn strings_are_sorted(
    other: Base<Word, Heap>,
    h: Heap,
    a: Word,
    xs: Seq<Word>,
    ts: Seq<Seq<u8>>,
    ty: Ty,
)
    requires
        is_array(h, a, xs),
        texts_at(h, xs) == Some(ts),
        xs.len() <= usize::MAX,
        sort_fn(elem_of(ty)) == Rt::SortStr,
    ensures
        exists|order: Seq<usize>| #[trigger]
            is_order(ts, 0, ts.len() as int, order) && (value_of(
                on_machine(other),
                builtin_row(Builtin::Sorted, ty),
                seq![a],
                h,
            ) matches Value::Is(v, g) && is_new_array(h, g, v, picked(xs, order)) && is_texts(
                g,
                v,
                picked(ts, order),
            )),
{
    let order = order_of(ts);
    let there = orders_are_there(ts, ts.len() as int);
    assert(is_order(ts, 0, ts.len() as int, order));
    let ys = picked(xs, order);
    lemma_elems(h, a, xs);
    lemma_new_array(ys, h);
    assert(machine_op(other, Op::Rt(Rt::SortStr), seq![a], h) == new_array(ys, h)) by {
        reveal(runtime_op);
    }
    reveal(builtin_row);
    lemma_checked(other, Rt::SortStr, a, h);
    let (v, g) = (new_array(ys, h)->Go_0, new_array(ys, h)->Go_1);
    lemma_elems(g, v, ys);
    assert forall|i: int| 0 <= i < ys.len() implies text_at(g, #[trigger] ys[i]) == Some(
        picked(ts, order)[i],
    ) by {
        let j = order[i] as int;
        assert(0 <= j < xs.len());
        assert(text_at(h, xs[j]) == Some(ts[j]));
        lemma_text(h, g, xs[j], ts[j]);
    }
    assert(texts_at(g, ys)->0 =~= picked(ts, order));
}

/// The order of strings is that of the rows of bytes that they are.
pub proof fn orders_of_rows(vs: Seq<Vec<u8>>, order: Seq<usize>)
    ensures
        is_order(vs, 0, vs.len() as int, order) <==> is_order(
            texts_view(vs),
            0,
            vs.len() as int,
            order,
        ),
{
    let ts = texts_view(vs);
    let n = vs.len() as int;
    if is_order(vs, 0, n, order) {
        assert forall|i: int, j: int| 0 <= i < j < order.len() implies #[trigger] sorts_before(
            ts,
            order[i] as int,
            order[j] as int,
        ) by {
            assert(order[i] < n && order[j] < n);
            assert(sorts_before(vs, order[i] as int, order[j] as int));
        }
    }
    if is_order(ts, 0, n, order) {
        assert forall|i: int, j: int| 0 <= i < j < order.len() implies #[trigger] sorts_before(
            vs,
            order[i] as int,
            order[j] as int,
        ) by {
            assert(order[i] < n && order[j] < n);
            assert(sorts_before(ts, order[i] as int, order[j] as int));
        }
    }
}

} // verus!
