//! What becomes of arrays.
use vstd::prelude::*;
#[allow(unused_imports)]
use crate::ast::{ExprV, ProgramV};
#[allow(unused_imports)]
use crate::ir::{IrTy, Op, OpndV, Rt};
#[allow(unused_imports)]
use crate::meaning::{
    append_row, appended, array_data, array_row, elem_get_row, elem_set_row, elements, expr,
    grow_row, length_row, place_parts, pop_row, pushed, room_row, row, row_from, single, src_val,
    src_vals, store_row, value_of, Base, Names, Part, RowEnd, Src, Srcs, Value,
};
#[allow(unused_imports)]
use crate::memory::heap::{
    is_heap, kept_but, lemma_check, lemma_do, lemma_wrapped, machine_op, on_machine, slot_there,
    slots, with_slots, zeros, Block, Heap, Word,
};
#[allow(unused_imports)]
use crate::types::Ty;

verus! {

/// How much room an array has, and where its elements are.
pub open spec fn header(h: Heap, a: Word) -> Option<Seq<Word>> {
    match a {
        Word::At(k, at) => match slots(h, k) {
            Some(s) => if at == 0 && s.len() == 3 {
                Some(s)
            } else {
                None
            },
            None => None,
        },
        _ => None,
    }
}

/// The room of an array.
pub open spec fn room(h: Heap, a: Word) -> int {
    header(h, a)->0[1]->Int_0 as int
}

/// The block of an array.
pub open spec fn head_block(a: Word) -> nat {
    a->At_0
}

/// The block of the elements of an array that has room.
pub open spec fn data_block(h: Heap, a: Word) -> nat {
    header(h, a)->0[2]->At_0
}

/// `a` is an array of the elements `xs`: its header holds how many there are, how many there
/// is room for, and where they are.
pub open spec fn is_array(h: Heap, a: Word, xs: Seq<Word>) -> bool {
    &&& is_heap(h)
    &&& header(h, a) is Some
    &&& header(h, a)->0[0] == Word::Int(xs.len() as i64)
    &&& header(h, a)->0[1] is Int
    &&& xs.len() <= room(h, a)
    &&& if room(h, a) == 0 {
        header(h, a)->0[2] is Null
    } else {
        let d = data_block(h, a);
        &&& header(h, a)->0[2] == Word::At(d, 0)
        &&& d != head_block(a)
        &&& slots(h, d) is Some
        &&& slots(h, d)->0.len() == room(h, a)
        &&& slots(h, d)->0.take(xs.len() as int) == xs
    }
}

/// The blocks of an array.
pub open spec fn array_blocks(h: Heap, a: Word) -> Set<nat> {
    set![head_block(a), data_block(h, a)]
}

/// `len(a)` is the number of elements.
pub proof fn len_counts_elements(other: Base<Word, Heap>, h: Heap, a: Word, xs: Seq<Word>, t: Ty)
    requires
        is_array(h, a, xs),
        !(t is Str),
    ensures
        value_of(on_machine(other), length_row(t), seq![a], h) == Value::Is(
            Word::Int(xs.len() as i64),
            h,
        ),
{
    reveal(value_of);
    reveal(row);
    reveal(length_row);
    reveal(single);
    let n = Word::Int(xs.len() as i64);
    lemma_do(other, length_row(t).parts, 0, seq![a], Seq::empty(), h, n, h);
}

/// The value and the room of an array are read.
proof fn lemma_room(other: Base<Word, Heap>, h: Heap, a: Word, xs: Seq<Word>)
    requires
        is_array(h, a, xs),
    ensures
        row(on_machine(other), room_row(), seq![a], h) matches RowEnd::Done(res, g) && g == h
            && res.len() == 4 && res[0] == Word::Int(xs.len() as i64) && res[2] == Word::Int(
            room(h, a) as i64,
        ) && res[3] == Word::Bit(xs.len() < room(h, a)),
{
    reveal(row);
    reveal(room_row);
    let ps = room_row();
    let ins = seq![a];
    let k = head_block(a);
    let r0 = Seq::<Word>::empty();
    let r1 = r0.push(Word::Int(xs.len() as i64));
    let r2 = r1.push(Word::At(k, 8));
    let r3 = r2.push(Word::Int(room(h, a) as i64));
    let r4 = r3.push(Word::Bit(xs.len() < room(h, a)));
    lemma_do(other, ps, 0, ins, r0, h, r1.last(), h);
    lemma_do(other, ps, 1, ins, r1, h, r2.last(), h);
    lemma_do(other, ps, 2, ins, r2, h, r3.last(), h);
    lemma_do(other, ps, 3, ins, r3, h, r4.last(), h);
}

/// A value is written behind the last element.
proof fn lemma_append(other: Base<Word, Heap>, h: Heap, a: Word, xs: Seq<Word>, x: Word)
    requires
        is_array(h, a, xs),
        xs.len() < room(h, a),
        room(h, a) * 8 <= i64::MAX,
    ensures
        appended(on_machine(other), a, x, Word::Int(xs.len() as i64), h) matches Value::Is(v, g)
            && v == a && is_array(g, a, xs.push(x)) && room(g, a) == room(h, a) && data_block(g, a)
            == data_block(h, a) && kept_but(h, g, array_blocks(h, a)),
{
    reveal(row);
    reveal(append_row);
    let ps = append_row();
    let n = xs.len() as i64;
    let ins = seq![a, x, Word::Int(n)];
    let k = head_block(a);
    let d = data_block(h, a);
    let h1 = with_slots(h, d, slots(h, d)->0.update(n as int, x));
    let h2 = with_slots(h1, k, slots(h, k)->0.update(0, Word::Int((n + 1) as i64)));
    let r0 = Seq::<Word>::empty();
    let r1 = r0.push(Word::At(k, 16));
    let r2 = r1.push(Word::At(d, 0));
    let r3 = r2.push(Word::Int((n * 8) as i64));
    let r4 = r3.push(Word::At(d, n * 8));
    let r5 = r4.push(Word::Int(0));
    let r6 = r5.push(Word::Int((n + 1) as i64));
    let r7 = r6.push(Word::Int(0));
    lemma_do(other, ps, 0, ins, r0, h, r1.last(), h);
    lemma_do(other, ps, 1, ins, r1, h, r2.last(), h);
    lemma_wrapped(n * 8);
    lemma_do(other, ps, 2, ins, r2, h, r3.last(), h);
    lemma_do(other, ps, 3, ins, r3, h, r4.last(), h);
    lemma_do(other, ps, 4, ins, r4, h, r5.last(), h1);
    lemma_wrapped(n + 1);
    lemma_do(other, ps, 5, ins, r5, h1, r6.last(), h1);
    lemma_do(other, ps, 6, ins, r6, h1, r7.last(), h2);
    assert(slots(h2, d)->0.take(n + 1) =~= xs.push(x)) by {
        assert(slots(h, d)->0.take(n as int) == xs);
        assert forall|i: int| 0 <= i < n implies slots(h, d)->0[i] == xs[i] by {
            assert(slots(h, d)->0.take(n as int)[i] == xs[i]);
        }
    }
}

/// How much room an array gets that has this much.
pub open spec fn more_room(cap: int) -> int {
    if cap == 0 {
        4
    } else {
        cap * 2
    }
}

/// What comes of finding out how much room an array gets.
spec fn size_words(h: Heap, a: Word) -> Seq<Word> {
    let cap = room(h, a);
    Seq::<Word>::empty().push(Word::At(head_block(a), 16)).push(header(h, a)->0[2]).push(
        Word::Bit(cap == 0),
    ).push(Word::Int((cap * 2) as i64)).push(Word::Int(more_room(cap) as i64)).push(
        Word::Int((more_room(cap) * 8) as i64),
    )
}

proof fn lemma_size(other: Base<Word, Heap>, h: Heap, a: Word, xs: Seq<Word>)
    requires
        is_array(h, a, xs),
        room(h, a) * 16 <= i64::MAX,
    ensures
        ({
            let ins = seq![a, Word::Int(room(h, a) as i64)];
            row_from(on_machine(other), grow_row(), 0, ins, Seq::empty(), h) == row_from(
                on_machine(other),
                grow_row(),
                6,
                ins,
                size_words(h, a),
                h,
            )
        }),
{
    reveal(grow_row);
    let ps = grow_row();
    let cap = room(h, a);
    let ins = seq![a, Word::Int(cap as i64)];
    let more = more_room(cap);
    let r0 = Seq::<Word>::empty();
    let r1 = r0.push(Word::At(head_block(a), 16));
    let r2 = r1.push(header(h, a)->0[2]);
    let r3 = r2.push(Word::Bit(cap == 0));
    let r4 = r3.push(Word::Int((cap * 2) as i64));
    let r5 = r4.push(Word::Int(more as i64));
    let r6 = r5.push(Word::Int((more * 8) as i64));
    lemma_do(other, ps, 0, ins, r0, h, r1.last(), h);
    lemma_do(other, ps, 1, ins, r1, h, r2.last(), h);
    lemma_do(other, ps, 2, ins, r2, h, r3.last(), h);
    lemma_wrapped(cap * 2);
    lemma_do(other, ps, 3, ins, r3, h, r4.last(), h);
    lemma_do(other, ps, 4, ins, r4, h, r5.last(), h);
    lemma_wrapped(more * 8);
    lemma_do(other, ps, 5, ins, r5, h, r6.last(), h);
}

/// An array gets more room, and keeps its elements.
proof fn lemma_grow(other: Base<Word, Heap>, h: Heap, a: Word, xs: Seq<Word>)
    requires
        is_array(h, a, xs),
        xs.len() == room(h, a),
        room(h, a) * 16 <= i64::MAX,
    ensures
        row(
            on_machine(other),
            grow_row(),
            seq![a, Word::Int(room(h, a) as i64)],
            h,
        ) matches RowEnd::Done(_, g) && is_array(g, a, xs) && room(g, a) == more_room(
            room(h, a),
        ) && data_block(g, a) == h.next && kept_but(h, g, array_blocks(h, a)) && g.next == h.next
            + 1,
{
    reveal(row);
    reveal(grow_row);
    let ps = grow_row();
    let cap = room(h, a);
    let ins = seq![a, Word::Int(cap as i64)];
    let k = head_block(a);
    let hd = header(h, a)->0;
    let more = more_room(cap);
    let fresh = Word::At(h.next, 0);
    let r6 = size_words(h, a);
    let r7 = r6.push(fresh);
    let r8 = r7.push(Word::At(k, 16));
    let r9 = r8.push(Word::Int(0));
    let r10 = r9.push(Word::At(k, 8));
    let r11 = r10.push(Word::Int(0));
    lemma_size(other, h, a, xs);
    let g1 = machine_op(
        other,
        Op::Rt(Rt::Realloc),
        seq![hd[2], Word::Int((more * 8) as i64)],
        h,
    )->Go_1;
    let args = src_vals(on_machine(other), ins, r6, Srcs::S2(Src::Res(1), Src::Res(5)));
    assert(args =~= seq![hd[2], Word::Int((more * 8) as i64)]);
    lemma_do(other, ps, 6, ins, r6, h, r7.last(), g1);
    assert(slots(g1, k) == Some(hd));
    let g2 = with_slots(g1, k, hd.update(2, fresh));
    let g3 = with_slots(g2, k, hd.update(2, fresh).update(1, Word::Int(more as i64)));
    lemma_do(other, ps, 7, ins, r7, g1, r8.last(), g1);
    lemma_do(other, ps, 8, ins, r8, g1, r9.last(), g2);
    lemma_do(other, ps, 9, ins, r9, g2, r10.last(), g2);
    lemma_do(other, ps, 10, ins, r10, g2, r11.last(), g3);
    assert(slots(g3, h.next) is Some);
    assert(slots(g3, h.next)->0.take(xs.len() as int) =~= xs) by {
        if cap > 0 {
            let s = slots(h, data_block(h, a))->0;
            assert(s.take(xs.len() as int) == xs);
            assert forall|i: int| 0 <= i < xs.len() implies slots(g3, h.next)->0[i] == xs[i] by {
                assert(s.take(xs.len() as int)[i] == s[i]);
            }
        }
    }
}

/// `push(a, x)` is `a`, whose elements are then those it had and `x`. No block of memory
/// but those of the array changes, and an array under another name is the same array.
pub proof fn push_appends(other: Base<Word, Heap>, h: Heap, a: Word, xs: Seq<Word>, x: Word)
    requires
        is_array(h, a, xs),
        room(h, a) * 16 <= i64::MAX,
    ensures
        pushed(on_machine(other), a, x, h) matches Value::Is(v, g) && v == a && is_array(
            g,
            a,
            xs.push(x),
        ) && kept_but(h, g, array_blocks(h, a)) && room(g, a) <= (if room(h, a) == 0 {
            4
        } else if xs.len() < room(h, a) {
            room(h, a)
        } else {
            2 * room(h, a)
        }),
{
    let b = on_machine(other);
    lemma_room(other, h, a, xs);
    if xs.len() < room(h, a) {
        lemma_append(other, h, a, xs, x);
    } else {
        lemma_grow(other, h, a, xs);
        let g = row(b, grow_row(), seq![a, Word::Int(room(h, a) as i64)], h)->Done_1;
        lemma_append(other, g, a, xs, x);
    }
}

/// What the checks of `pop` come to.
spec fn pop_bits(n: i64) -> Seq<Word> {
    Seq::<Word>::empty().push(Word::Bit(false)).push(Word::Int(n)).push(Word::Bit(n == 0))
}

proof fn lemma_pop_checks(other: Base<Word, Heap>, h: Heap, a: Word, xs: Seq<Word>, t: Ty)
    requires
        is_array(h, a, xs),
    ensures
        row_from(on_machine(other), pop_row(t).parts, 0, seq![a], Seq::empty(), h) == if xs.len()
            == 0 {
            RowEnd::Halt("lumo: pop from empty array\n"@, h)
        } else {
            row_from(
                on_machine(other),
                pop_row(t).parts,
                5,
                seq![a],
                pop_bits(xs.len() as i64),
                h,
            )
        },
{
    let ps = pop_row(t).parts;
    let ins = seq![a];
    let n = xs.len() as i64;
    let r0 = Seq::<Word>::empty();
    let r1 = r0.push(Word::Bit(false));
    let r2 = r1.push(Word::Int(n));
    let r3 = r2.push(Word::Bit(n == 0));
    lemma_do(other, ps, 0, ins, r0, h, r1.last(), h);
    lemma_check(other, ps, 1, ins, r1, h);
    lemma_do(other, ps, 2, ins, r1, h, r2.last(), h);
    lemma_do(other, ps, 3, ins, r2, h, r3.last(), h);
    lemma_check(other, ps, 4, ins, r3, h);
}

/// `pop(a)` is the last element, and takes it off; of an array without elements it ends the
/// program.
pub proof fn pop_takes_the_last(
    other: Base<Word, Heap>,
    h: Heap,
    a: Word,
    xs: Seq<Word>,
    t: Ty,
)
    requires
        is_array(h, a, xs),
        room(h, a) * 8 <= i64::MAX,
    ensures
        match value_of(on_machine(other), pop_row(t), seq![a], h) {
            Value::Is(v, g) => {
                &&& xs.len() > 0
                &&& v == xs.last()
                &&& is_array(g, a, xs.drop_last())
                &&& kept_but(h, g, set![head_block(a)])
            },
            Value::Halt(msg, g) => xs.len() == 0 && msg == "lumo: pop from empty array\n"@ && g
                == h,
            Value::Stop(_) => false,
        },
{
    reveal(value_of);
    reveal(row);
    let ps = pop_row(t).parts;
    let ins = seq![a];
    let n = xs.len() as i64;
    let k = head_block(a);
    let d = data_block(h, a);
    let r3 = pop_bits(n);
    lemma_pop_checks(other, h, a, xs, t);
    if n > 0 {
        let g = with_slots(h, k, slots(h, k)->0.update(0, Word::Int((n - 1) as i64)));
        let r4 = r3.push(Word::Int((n - 1) as i64));
        let r5 = r4.push(Word::Int(0));
        let r6 = r5.push(Word::At(k, 16));
        let r7 = r6.push(Word::At(d, 0));
        let r8 = r7.push(Word::Int(((n - 1) * 8) as i64));
        let r9 = r8.push(Word::At(d, (n - 1) * 8));
        let r10 = r9.push(xs.last());
        lemma_wrapped(n - 1);
        lemma_do(other, ps, 5, ins, r3, h, r4.last(), h);
        lemma_do(other, ps, 6, ins, r4, h, r5.last(), g);
        lemma_do(other, ps, 7, ins, r5, g, r6.last(), g);
        lemma_do(other, ps, 8, ins, r6, g, r7.last(), g);
        lemma_wrapped((n - 1) * 8);
        lemma_do(other, ps, 9, ins, r7, g, r8.last(), g);
        lemma_do(other, ps, 10, ins, r8, g, r9.last(), g);
        assert(slots(h, d)->0.take(n as int)[n - 1] == xs[n - 1]);
        lemma_do(other, ps, 11, ins, r9, g, r10.last(), g);
        assert(slots(g, d)->0.take(n - 1) =~= xs.drop_last()) by {
            assert(slots(h, d)->0.take(n as int).drop_last() =~= slots(h, d)->0.take(n - 1));
        }
    }
}

/// What the rows that find an element do before they use it.
proof fn lemma_place(
    other: Base<Word, Heap>,
    h: Heap,
    a: Word,
    xs: Seq<Word>,
    i: i64,
    ps: Seq<Part>,
    ins: Seq<Word>,
)
    requires
        is_array(h, a, xs),
        room(h, a) * 8 <= i64::MAX,
        ps.len() == 8,
        ps.take(7) == place_parts(),
        ins.len() >= 2,
        ins[0] == a,
        ins[1] == Word::Int(i),
    ensures
        0 <= i < xs.len() ==> {
            let d = data_block(h, a);
            let res = seq![
                Word::Int(xs.len() as i64),
                Word::Bit(false),
                Word::At(head_block(a), 16),
                Word::At(d, 0),
                Word::Int((i * 8) as i64),
                Word::At(d, i * 8),
            ];
            &&& row_from(on_machine(other), ps, 0, ins, Seq::empty(), h) == row_from(
                on_machine(other),
                ps,
                7,
                ins,
                res,
                h,
            )
            &&& slot_there(h, d, i * 8)
            &&& slots(h, d)->0[i as int] == xs[i as int]
        },
        !(0 <= i < xs.len()) ==> row_from(on_machine(other), ps, 0, ins, Seq::empty(), h)
            == RowEnd::<Word, Heap>::Halt("lumo: index out of bounds\n"@, h),
{
    let n = xs.len() as i64;
    let k = head_block(a);
    let d = data_block(h, a);
    assert forall|j: int| 0 <= j < 7 implies #[trigger] ps[j] == place_parts()[j] by {
        assert(ps[j] == ps.take(7)[j]);
    }
    let r0 = Seq::<Word>::empty();
    let r1 = r0.push(Word::Int(n));
    let r2 = r1.push(Word::Bit(!(0 <= i < n)));
    lemma_do(other, ps, 0, ins, r0, h, r1.last(), h);
    lemma_do(other, ps, 1, ins, r1, h, r2.last(), h);
    lemma_check(other, ps, 2, ins, r2, h);
    if 0 <= i < n {
        let r3 = r2.push(Word::At(k, 16));
        let r4 = r3.push(Word::At(d, 0));
        let r5 = r4.push(Word::Int((i * 8) as i64));
        let r6 = r5.push(Word::At(d, i * 8));
        lemma_do(other, ps, 3, ins, r2, h, r3.last(), h);
        lemma_do(other, ps, 4, ins, r3, h, r4.last(), h);
        lemma_wrapped(i * 8);
        lemma_do(other, ps, 5, ins, r4, h, r5.last(), h);
        lemma_do(other, ps, 6, ins, r5, h, r6.last(), h);
        assert(r6 =~= seq![
            Word::Int(n),
            Word::Bit(false),
            Word::At(k, 16),
            Word::At(d, 0),
            Word::Int((i * 8) as i64),
            Word::At(d, i * 8),
        ]);
        assert(slots(h, d)->0.take(n as int)[i as int] == xs[i as int]);
    }
}

/// `a[i]` is the element at `i`; an index below zero or not below the length ends the
/// program.
pub proof fn elements_are_read(
    other: Base<Word, Heap>,
    h: Heap,
    a: Word,
    xs: Seq<Word>,
    i: i64,
    ty: IrTy,
)
    requires
        is_array(h, a, xs),
        room(h, a) * 8 <= i64::MAX,
    ensures
        value_of(on_machine(other), elem_get_row(ty), seq![a, Word::Int(i)], h) == if 0 <= i
            < xs.len() {
            Value::Is(xs[i as int], h)
        } else {
            Value::Halt("lumo: index out of bounds\n"@, h)
        },
{
    reveal(value_of);
    reveal(row);
    reveal(elem_get_row);
    let ps = elem_get_row(ty).parts;
    let ins = seq![a, Word::Int(i)];
    assert(ps.take(7) =~= place_parts());
    lemma_place(other, h, a, xs, i, ps, ins);
    if 0 <= i < xs.len() {
        let d = data_block(h, a);
        let res = seq![
            Word::Int(xs.len() as i64),
            Word::Bit(false),
            Word::At(head_block(a), 16),
            Word::At(d, 0),
            Word::Int((i * 8) as i64),
            Word::At(d, i * 8),
        ];
        lemma_do(other, ps, 7, ins, res, h, xs[i as int], h);
    }
}

/// `a[i] = v` makes `v` the element at `i` and leaves the others as they are; an index below
/// zero or not below the length ends the program.
pub proof fn elements_are_written(
    other: Base<Word, Heap>,
    h: Heap,
    a: Word,
    xs: Seq<Word>,
    i: i64,
    v: Word,
)
    requires
        is_array(h, a, xs),
        room(h, a) * 8 <= i64::MAX,
    ensures
        match row(on_machine(other), elem_set_row(), seq![a, Word::Int(i), v], h) {
            RowEnd::Done(_, g) => {
                &&& 0 <= i < xs.len()
                &&& is_array(g, a, xs.update(i as int, v))
                &&& kept_but(h, g, set![data_block(h, a)])
            },
            RowEnd::Halt(msg, g) => !(0 <= i < xs.len()) && msg == "lumo: index out of bounds\n"@
                && g == h,
            RowEnd::Stop(_) => false,
        },
{
    reveal(row);
    reveal(elem_set_row);
    let ps = elem_set_row();
    let ins = seq![a, Word::Int(i), v];
    assert(ps.take(7) =~= place_parts());
    lemma_place(other, h, a, xs, i, ps, ins);
    if 0 <= i < xs.len() {
        let d = data_block(h, a);
        let res = seq![
            Word::Int(xs.len() as i64),
            Word::Bit(false),
            Word::At(head_block(a), 16),
            Word::At(d, 0),
            Word::Int((i * 8) as i64),
            Word::At(d, i * 8),
        ];
        let s = slots(h, d)->0;
        let g = with_slots(h, d, s.update(i as int, v));
        lemma_do(other, ps, 7, ins, res, h, Word::Int(0), g);
        assert(slots(g, d)->0.take(xs.len() as int) =~= xs.update(i as int, v)) by {
            assert forall|j: int| 0 <= j < xs.len() implies s[j] == xs[j] by {
                assert(s.take(xs.len() as int)[j] == xs[j]);
            }
        }
    }
}

/// A new array without elements.
proof fn lemma_new_empty(other: Base<Word, Heap>, h: Heap)
    requires
        is_heap(h),
    ensures
        row(on_machine(other), array_row(0).parts, Seq::empty(), h) matches RowEnd::Done(res, g)
            && res.len() > 0 && is_array(g, res[0], Seq::empty()) && kept_but(h, g, Set::empty()),
{
    reveal(row);
    reveal(array_row);
    let ps = array_row(0).parts;
    let size = Word::Int(0);
    let k = h.next;
    assert(ps =~= seq![
        Part::Do(IrTy::Ptr, Op::New(3), Srcs::S0),
        Part::Do(
            IrTy::I64,
            Op::Store,
            Srcs::S2(Src::Res(0), Src::Konst(OpndV::Size(0))),
        ),
        Part::Do(IrTy::Ptr, Op::Slot(1), Srcs::S1(Src::Res(0))),
        Part::Do(
            IrTy::I64,
            Op::Store,
            Srcs::S2(Src::Res(2), Src::Konst(OpndV::Size(0))),
        ),
        Part::Do(IrTy::Ptr, Op::Slot(2), Srcs::S1(Src::Res(0))),
        Part::Do(IrTy::I64, Op::Store, Srcs::S2(Src::Res(4), Src::Konst(OpndV::Null))),
    ]);
    let ins = Seq::<Word>::empty();
    let h1 = Heap { blocks: h.blocks.insert(k, Block::Slots(zeros(3))), next: k + 1 };
    let s2 = zeros(3).update(0, size);
    let s3 = s2.update(1, size);
    let s4 = s3.update(2, Word::Null);
    let h2 = with_slots(h1, k, s2);
    let h3 = with_slots(h2, k, s3);
    let h4 = with_slots(h3, k, s4);
    let r0 = Seq::<Word>::empty();
    let r1 = r0.push(Word::At(k, 0));
    let r2 = r1.push(Word::Int(0));
    let r3 = r2.push(Word::At(k, 8));
    let r4 = r3.push(Word::Int(0));
    let r5 = r4.push(Word::At(k, 16));
    let r6 = r5.push(Word::Int(0));
    lemma_do(other, ps, 0, ins, r0, h, r1.last(), h1);
    lemma_do(other, ps, 1, ins, r1, h1, r2.last(), h2);
    lemma_do(other, ps, 2, ins, r2, h2, r3.last(), h2);
    lemma_do(other, ps, 3, ins, r3, h2, r4.last(), h3);
    lemma_do(other, ps, 4, ins, r4, h3, r5.last(), h3);
    lemma_do(other, ps, 5, ins, r5, h3, r6.last(), h4);
    assert(slots(h4, k) == Some(s4));
}

/// A new array for `n` elements.
proof fn lemma_new_array(other: Base<Word, Heap>, h: Heap, n: usize)
    requires
        is_heap(h),
        0 < n <= i64::MAX,
    ensures
        row(on_machine(other), array_row(n).parts, Seq::empty(), h) matches RowEnd::Done(res, g)
            && res.len() > 1 && is_array(g, res[0], zeros(n as nat)) && room(g, res[0]) == n
            && res[1] == header(g, res[0])->0[2] && data_block(g, res[0]) == h.next + 1 && kept_but(
            h,
            g,
            Set::empty(),
        ) && g.next == h.next + 2,
{
    reveal(row);
    reveal(array_row);
    let ps = array_row(n).parts;
    let size = Word::Int(n as i64);
    let k = h.next;
    let data = Word::At(k + 1, 0);
    assert(ps =~= seq![
        Part::Do(IrTy::Ptr, Op::New(3), Srcs::S0),
        Part::Do(IrTy::Ptr, Op::New(n), Srcs::S0),
        Part::Do(
            IrTy::I64,
            Op::Store,
            Srcs::S2(Src::Res(0), Src::Konst(OpndV::Size(n))),
        ),
        Part::Do(IrTy::Ptr, Op::Slot(1), Srcs::S1(Src::Res(0))),
        Part::Do(
            IrTy::I64,
            Op::Store,
            Srcs::S2(Src::Res(3), Src::Konst(OpndV::Size(n))),
        ),
        Part::Do(IrTy::Ptr, Op::Slot(2), Srcs::S1(Src::Res(0))),
        Part::Do(IrTy::I64, Op::Store, Srcs::S2(Src::Res(5), Src::Res(1))),
    ]);
    let ins = Seq::<Word>::empty();
    let h1 = Heap { blocks: h.blocks.insert(k, Block::Slots(zeros(3))), next: k + 1 };
    let g1 = Heap {
        blocks: h1.blocks.insert(k + 1, Block::Slots(zeros(n as nat))),
        next: k + 2,
    };
    let s2 = zeros(3).update(0, size);
    let s3 = s2.update(1, size);
    let s4 = s3.update(2, data);
    let h2 = with_slots(g1, k, s2);
    let h3 = with_slots(h2, k, s3);
    let h4 = with_slots(h3, k, s4);
    let r0 = Seq::<Word>::empty();
    let r1 = r0.push(Word::At(k, 0));
    let r2 = r1.push(data);
    let r3 = r2.push(Word::Int(0));
    let r4 = r3.push(Word::At(k, 8));
    let r5 = r4.push(Word::Int(0));
    let r6 = r5.push(Word::At(k, 16));
    let r7 = r6.push(Word::Int(0));
    lemma_do(other, ps, 0, ins, r0, h, r1.last(), h1);
    lemma_do(other, ps, 1, ins, r1, h1, data, g1);
    lemma_do(other, ps, 2, ins, r2, g1, r3.last(), h2);
    lemma_do(other, ps, 3, ins, r3, h2, r4.last(), h2);
    lemma_do(other, ps, 4, ins, r4, h2, r5.last(), h3);
    lemma_do(other, ps, 5, ins, r5, h3, r6.last(), h3);
    lemma_do(other, ps, 6, ins, r6, h3, r7.last(), h4);
    assert(slots(h4, k) == Some(s4));
    assert(slots(h4, k + 1) == Some(zeros(n as nat)));
    assert(zeros(n as nat).take(n as int) =~= zeros(n as nat));
}

/// What comes of an expression.
#[verifier::opaque]
spec fn value(
    other: Base<Word, Heap>,
    p: ProgramV,
    names: Names,
    vals: Seq<Word>,
    e: ExprV,
    h: Heap,
) -> Value<Word, Heap> {
    expr(on_machine(other), p, names, vals, e, h)
}

/// What comes of the elements of a literal.
#[verifier::opaque]
spec fn values(
    other: Base<Word, Heap>,
    p: ProgramV,
    names: Names,
    vals: Seq<Word>,
    data: Word,
    es: Seq<ExprV>,
    i: int,
    whole: Word,
    h: Heap,
) -> Value<Word, Heap> {
    elements(on_machine(other), p, names, vals, data, es, i, whole, h)
}

proof fn lemma_values(
    other: Base<Word, Heap>,
    p: ProgramV,
    names: Names,
    vals: Seq<Word>,
    data: Word,
    es: Seq<ExprV>,
    i: int,
    whole: Word,
    h: Heap,
)
    requires
        0 <= i <= es.len(),
    ensures
        i == es.len() ==> values(other, p, names, vals, data, es, i, whole, h) == Value::Is(
            whole,
            h,
        ),
        i < es.len() ==> (value(other, p, names, vals, es[i], h) matches Value::Is(v, h1) ==> (row(
            on_machine(other),
            store_row(i as usize),
            seq![data, v],
            h1,
        ) matches RowEnd::Done(_, h2) ==> values(other, p, names, vals, data, es, i, whole, h)
            == values(other, p, names, vals, data, es, i + 1, whole, h2))),
{
    reveal(value);
    reveal(values);
}

/// An element is written to the data of an array.
proof fn lemma_filled(other: Base<Word, Heap>, h: Heap, a: Word, xs: Seq<Word>, i: int, v: Word)
    requires
        is_array(h, a, xs),
        0 <= i < xs.len(),
        i <= usize::MAX,
    ensures
        row(
            on_machine(other),
            store_row(i as usize),
            seq![header(h, a)->0[2], v],
            h,
        ) matches RowEnd::Done(_, g) && is_array(g, a, xs.update(i, v)) && header(g, a) == header(
            h,
            a,
        ) && kept_but(h, g, set![data_block(h, a)]),
{
    reveal(row);
    reveal(store_row);
    let ps = store_row(i as usize);
    let d = data_block(h, a);
    let ins = seq![header(h, a)->0[2], v];
    let s = slots(h, d)->0;
    let g = with_slots(h, d, s.update(i, v));
    let r1 = Seq::<Word>::empty().push(Word::At(d, 8 * i));
    lemma_do(other, ps, 0, ins, Seq::empty(), h, Word::At(d, 8 * i), h);
    lemma_do(other, ps, 1, ins, r1, h, Word::Int(0), g);
    assert(slots(g, d)->0.take(xs.len() as int) =~= xs.update(i, v)) by {
        assert forall|j: int| 0 <= j < xs.len() implies s[j] == xs[j] by {
            assert(s.take(xs.len() as int)[j] == xs[j]);
        }
    }
}

/// The elements of a literal from `i` on are written to a new array.
proof fn lemma_elements(
    other: Base<Word, Heap>,
    p: ProgramV,
    names: Names,
    vals: Seq<Word>,
    es: Seq<ExprV>,
    vs: Seq<Word>,
    i: int,
    h: Heap,
    a: Word,
    xs: Seq<Word>,
)
    requires
        is_array(h, a, xs),
        xs.len() == es.len() == vs.len(),
        0 <= i <= es.len() <= usize::MAX,
        xs.take(i) == vs.take(i),
        forall|j: int, g: Heap|
            0 <= j < es.len() ==> #[trigger] value(other, p, names, vals, es[j], g) == Value::Is(
                vs[j],
                g,
            ),
    ensures
        values(other, p, names, vals, header(h, a)->0[2], es, i, a, h) matches Value::Is(v, g) && v
            == a && is_array(g, a, vs) && kept_but(h, g, set![data_block(h, a)]),
    decreases es.len() - i,
{
    let data = header(h, a)->0[2];
    lemma_values(other, p, names, vals, data, es, i, a, h);
    if i < es.len() {
        assert(value(other, p, names, vals, es[i], h) == Value::Is(vs[i], h));
        lemma_filled(other, h, a, xs, i, vs[i]);
        let g = row(on_machine(other), store_row(i as usize), seq![data, vs[i]], h)->Done_1;
        let ys = xs.update(i, vs[i]);
        assert(ys.take(i + 1) =~= vs.take(i + 1)) by {
            assert forall|j: int| 0 <= j < i implies xs[j] == vs[j] by {
                assert(xs.take(i)[j] == xs[j]);
                assert(vs.take(i)[j] == vs[j]);
            }
        }
        lemma_elements(other, p, names, vals, es, vs, i + 1, g, a, ys);
    } else {
        assert(xs.take(i) =~= xs);
        assert(vs.take(i) =~= vs);
    }
}

/// What comes of an array literal.
proof fn lemma_literal(
    other: Base<Word, Heap>,
    p: ProgramV,
    names: Names,
    vals: Seq<Word>,
    e: ExprV,
    h: Heap,
)
    requires
        e.kind is Array,
    ensures
        ({
            let es = e.kind->Array_0;
            let n = es.len() as usize;
            row(on_machine(other), array_row(n).parts, Seq::empty(), h) matches RowEnd::Done(res, g)
                ==> value(other, p, names, vals, e, h) == values(
                other,
                p,
                names,
                vals,
                src_val(on_machine(other), Seq::empty(), res, array_data(n)),
                es,
                0,
                res[0],
                g,
            )
        }),
{
    reveal(value);
    reveal(values);
}

/// An array literal whose elements have values and change nothing is a new array of these
/// values.
pub proof fn literals_hold_their_elements(
    other: Base<Word, Heap>,
    p: ProgramV,
    names: Names,
    vals: Seq<Word>,
    e: ExprV,
    vs: Seq<Word>,
    h: Heap,
)
    requires
        is_heap(h),
        e.kind is Array,
        e.kind->Array_0.len() == vs.len(),
        vs.len() <= usize::MAX,
        vs.len() <= i64::MAX,
        forall|j: int, g: Heap|
            0 <= j < vs.len() ==> #[trigger] expr(
                on_machine(other),
                p,
                names,
                vals,
                e.kind->Array_0[j],
                g,
            ) == Value::Is(vs[j], g),
    ensures
        expr(on_machine(other), p, names, vals, e, h) matches Value::Is(a, g) && is_array(g, a, vs)
            && kept_but(h, g, Set::empty()),
{
    let es = e.kind->Array_0;
    assert forall|j: int, g: Heap| 0 <= j < es.len() implies #[trigger] value(
        other,
        p,
        names,
        vals,
        es[j],
        g,
    ) == Value::Is(vs[j], g) by {
        reveal(value);
    }
    lemma_new_literal(other, p, names, vals, e, vs, h);
    assert(value(other, p, names, vals, e, h) == expr(on_machine(other), p, names, vals, e, h)) by {
        reveal(value);
    }
}

proof fn lemma_new_literal(
    other: Base<Word, Heap>,
    p: ProgramV,
    names: Names,
    vals: Seq<Word>,
    e: ExprV,
    vs: Seq<Word>,
    h: Heap,
)
    requires
        is_heap(h),
        e.kind is Array,
        e.kind->Array_0.len() == vs.len(),
        vs.len() <= usize::MAX,
        vs.len() <= i64::MAX,
        forall|j: int, g: Heap|
            0 <= j < vs.len() ==> #[trigger] value(
                other,
                p,
                names,
                vals,
                e.kind->Array_0[j],
                g,
            ) == Value::Is(vs[j], g),
    ensures
        value(other, p, names, vals, e, h) matches Value::Is(a, g) && is_array(g, a, vs)
            && kept_but(h, g, Set::empty()),
{
    let es = e.kind->Array_0;
    let n = es.len() as usize;
    let b = on_machine(other);
    lemma_literal(other, p, names, vals, e, h);
    if n == 0 {
        lemma_new_empty(other, h);
        let end = row(b, array_row(n).parts, Seq::empty(), h);
        let data = src_val(b, Seq::empty(), end->Done_0, array_data(n));
        lemma_values(other, p, names, vals, data, es, 0, end->Done_0[0], end->Done_1);
        assert(vs =~= Seq::empty());
    } else {
        lemma_new_array(other, h, n);
        let end = row(b, array_row(n).parts, Seq::empty(), h);
        let res = end->Done_0;
        let g = end->Done_1;
        assert(zeros(n as nat).take(0) =~= vs.take(0));
        lemma_elements(other, p, names, vals, es, vs, 0, g, res[0], zeros(n as nat));
    }
}

} // verus!
