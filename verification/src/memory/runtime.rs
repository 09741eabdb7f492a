//! What the functions that compiled code calls do to memory.
use vstd::prelude::*;
#[allow(unused_imports)]
use crate::ir::{IrTy, Op, OpndV, Rt};
#[allow(unused_imports)]
use crate::meaning::{
    checked_row, konsts, row, row_from, single, src_vals, value_of, Base, Done, Srcs, Value,
};
#[allow(unused_imports)]
use crate::memory::arrays::{data_block, header, is_array, room};
#[allow(unused_imports)]
use crate::memory::heap::{
    allocated, is_heap, kept_but, lemma_check, lemma_do, machine_op, number, on_machine, slots,
    table_at, text_at, written, Block, Heap, Word,
};
#[allow(unused_imports)]
use crate::memory::strings::lemma_zero_is;
#[allow(unused_imports)]
use crate::runtime::arrays::{is_order, picked, Ordered};
#[allow(unused_imports)]
use crate::runtime::maps::{
    del_of, empty_buckets, entries, hash_of, keys_of, lookup, put_of, Buckets, FIRST_BUCKETS,
};
#[allow(unused_imports)]
use crate::runtime::numbers::{int_of, text_of, writes_fraction};
#[allow(unused_imports)]
use crate::runtime::strings::{affix_of, case_of, first_from, join_of, repeat_of, split_of, trim_of};

verus! {

/// A new string.
pub open spec fn new_text(t: Seq<u8>, h: Heap) -> Done<Word, Heap> {
    allocated(Block::Bytes(t.push(0)), h)
}

/// A new array: its elements, where it has any, and then its header.
pub open spec fn new_array(xs: Seq<Word>, h: Heap) -> Done<Word, Heap> {
    let n = Word::Int(xs.len() as i64);
    if xs.len() == 0 {
        allocated(Block::Slots(seq![n, n, Word::Null]), h)
    } else {
        let g = Heap { blocks: h.blocks.insert(h.next, Block::Slots(xs)), next: h.next + 1 };
        allocated(Block::Slots(seq![n, n, Word::At(h.next, 0)]), g)
    }
}

/// Memory with new strings in it, one after the other.
pub open spec fn with_texts(ts: Seq<Seq<u8>>, h: Heap) -> Heap {
    Heap {
        blocks: Map::new(
            |k: nat| h.blocks.contains_key(k) || h.next <= k < h.next + ts.len(),
            |k: nat|
                if h.next <= k < h.next + ts.len() {
                    Block::Bytes(ts[k - h.next].push(0))
                } else {
                    h.blocks[k]
                },
        ),
        next: h.next + ts.len(),
    }
}

/// Where these strings are.
pub open spec fn text_places(n: nat, h: Heap) -> Seq<Word> {
    Seq::new(n, |i: int| Word::At((h.next + i) as nat, 0))
}

/// A new array of new strings.
pub open spec fn new_texts(ts: Seq<Seq<u8>>, h: Heap) -> Done<Word, Heap> {
    new_array(text_places(ts.len(), h), with_texts(ts, h))
}

/// The elements of the array at a place.
pub open spec fn elems_at(h: Heap, a: Word) -> Option<Seq<Word>> {
    match header(h, a) {
        Some(s) => match (s[0], s[2]) {
            (Word::Int(n), Word::At(k, at)) => match slots(h, k) {
                Some(xs) => if at == 0 && 0 <= n <= xs.len() {
                    Some(xs.take(n as int))
                } else {
                    None
                },
                None => None,
            },
            (Word::Int(n), Word::Null) => if n == 0 {
                Some(Seq::empty())
            } else {
                None
            },
            _ => None,
        },
        None => None,
    }
}

/// The strings at these places.
pub open spec fn texts_at(h: Heap, vs: Seq<Word>) -> Option<Seq<Seq<u8>>> {
    if forall|i: int| 0 <= i < vs.len() ==> text_at(h, #[trigger] vs[i]) is Some {
        Some(Seq::new(vs.len(), |i: int| text_at(h, vs[i])->0))
    } else {
        None
    }
}

/// The numbers that these values are.
pub open spec fn ints_of(vs: Seq<Word>) -> Option<Seq<i64>> {
    if forall|i: int| 0 <= i < vs.len() ==> (#[trigger] vs[i]) is Int {
        Some(Seq::new(vs.len(), |i: int| vs[i]->Int_0))
    } else {
        None
    }
}

/// The order of these elements.
pub open spec fn order_of<T: Ordered>(xs: Seq<T>) -> Seq<usize> {
    choose|order: Seq<usize>| is_order(xs, 0, xs.len() as int, order)
}

/// The map at a place with other entries.
pub open spec fn with_table(h: Heap, m: Word, t: Buckets<Word>) -> Heap {
    Heap { blocks: h.blocks.insert(m->At_0, Block::Table(t)), next: h.next }
}

/// What comes of a function of a string.
pub open spec fn on_text(
    h: Heap,
    v: Word,
    f: spec_fn(Seq<u8>) -> Done<Word, Heap>,
) -> Done<Word, Heap> {
    match text_at(h, v) {
        Some(s) => f(s),
        None => Done::Stop(h),
    }
}

/// What comes of a function of two strings.
pub open spec fn on_texts(
    h: Heap,
    v: Word,
    u: Word,
    f: spec_fn(Seq<u8>, Seq<u8>) -> Done<Word, Heap>,
) -> Done<Word, Heap> {
    match (text_at(h, v), text_at(h, u)) {
        (Some(s), Some(t)) => f(s, t),
        _ => Done::Stop(h),
    }
}

/// What comes of a function of an array.
pub open spec fn on_elems(
    h: Heap,
    a: Word,
    f: spec_fn(Seq<Word>) -> Done<Word, Heap>,
) -> Done<Word, Heap> {
    match elems_at(h, a) {
        Some(xs) => f(xs),
        None => Done::Stop(h),
    }
}

/// What comes of a function of a map and a key.
pub open spec fn on_entry(
    h: Heap,
    m: Word,
    key: Word,
    f: spec_fn(Buckets<Word>, Seq<u8>) -> Done<Word, Heap>,
) -> Done<Word, Heap> {
    match (table_at(h, m), text_at(h, key)) {
        (Some(t), Some(k)) => f(t, k),
        _ => Done::Stop(h),
    }
}

/// The functions on strings.
pub open spec fn text_op(
    other: Base<Word, Heap>,
    f: Rt,
    args: Seq<Word>,
    h: Heap,
) -> Done<Word, Heap> {
    match f {
        Rt::FormatInt => match (args[0], args[2]) {
            (Word::At(k, at), Word::Int(n)) => match written(h, k, at, text_of(n as int)) {
                Some(g) => Done::Go(args[0], g),
                None => Done::Stop(h),
            },
            _ => Done::Stop(h),
        },
        Rt::ParseInt => on_text(
            h,
            args[0],
            |s: Seq<u8>|
                match int_of(s) {
                    Some(n) => number(n, h),
                    None => Done::Stop(h),
                },
        ),
        Rt::IsInt => on_text(
            h,
            args[0],
            |s: Seq<u8>| Done::Go(Word::Bit(int_of(s) is Some), h),
        ),
        Rt::IsFloat => on_text(
            h,
            args[0],
            |s: Seq<u8>| Done::Go(Word::Bit(writes_fraction(s)), h),
        ),
        Rt::NewlinePos => on_text(
            h,
            args[0],
            |s: Seq<u8>|
                match first_from(s, seq![10u8], 0) {
                    Some(i) => number(i, h),
                    None => number(s.len() as int, h),
                },
        ),
        Rt::Substr => match (args[1], args[2]) {
            (Word::Int(start), Word::Int(n)) => on_text(
                h,
                args[0],
                |s: Seq<u8>|
                    if 0 <= start && 0 <= n && start + n <= s.len() {
                        new_text(s.subrange(start as int, start + n), h)
                    } else {
                        Done::Stop(h)
                    },
            ),
            _ => Done::Stop(h),
        },
        Rt::Split => on_texts(
            h,
            args[0],
            args[1],
            |s: Seq<u8>, sep: Seq<u8>| new_texts(split_of(s, sep), h),
        ),
        Rt::Join => match elems_at(h, args[0]) {
            Some(vs) => match (texts_at(h, vs), text_at(h, args[1])) {
                (Some(ts), Some(sep)) => new_text(join_of(ts, sep), h),
                _ => Done::Stop(h),
            },
            None => Done::Stop(h),
        },
        Rt::ToCase => match args[1] {
            Word::Bit(upper) => on_text(
                h,
                args[0],
                |s: Seq<u8>| new_text(Seq::new(s.len(), |i: int| case_of(s[i], upper)), h),
            ),
            _ => Done::Stop(h),
        },
        Rt::Trim => on_text(h, args[0], |s: Seq<u8>| new_text(trim_of(s), h)),
        Rt::Find => on_texts(
            h,
            args[0],
            args[1],
            |s: Seq<u8>, sub: Seq<u8>|
                match first_from(s, sub, 0) {
                    Some(i) => number(i, h),
                    None => number(-1, h),
                },
        ),
        Rt::HasAffix => match args[2] {
            Word::Bit(at_end) => on_texts(
                h,
                args[0],
                args[1],
                |s: Seq<u8>, affix: Seq<u8>| Done::Go(Word::Bit(affix_of(s, affix, at_end)), h),
            ),
            _ => Done::Stop(h),
        },
        Rt::Repeat => match args[1] {
            Word::Int(n) => on_text(
                h,
                args[0],
                |s: Seq<u8>| new_text(repeat_of(s, n as int), h),
            ),
            _ => Done::Stop(h),
        },
        _ => (other.op)(Op::Rt(f), args, h),
    }
}

/// The functions on arrays.
pub open spec fn array_op(
    other: Base<Word, Heap>,
    f: Rt,
    args: Seq<Word>,
    h: Heap,
) -> Done<Word, Heap> {
    match f {
        Rt::ArraySlice => match (args[1], args[2]) {
            (Word::Int(lo), Word::Int(hi)) => on_elems(
                h,
                args[0],
                |xs: Seq<Word>|
                    if 0 <= lo <= hi <= xs.len() {
                        new_array(xs.subrange(lo as int, hi as int), h)
                    } else {
                        Done::Stop(h)
                    },
            ),
            _ => Done::Stop(h),
        },
        Rt::SortInt => on_elems(
            h,
            args[0],
            |xs: Seq<Word>|
                match ints_of(xs) {
                    Some(ns) => new_array(picked(xs, order_of(ns)), h),
                    None => Done::Stop(h),
                },
        ),
        Rt::SortStr => on_elems(
            h,
            args[0],
            |xs: Seq<Word>|
                match texts_at(h, xs) {
                    Some(ts) => new_array(picked(xs, order_of(ts)), h),
                    None => Done::Stop(h),
                },
        ),
        Rt::Reverse => on_elems(h, args[0], |xs: Seq<Word>| new_array(xs.reverse(), h)),
        _ => (other.op)(Op::Rt(f), args, h),
    }
}

/// The functions on maps.
pub open spec fn map_op(
    other: Base<Word, Heap>,
    f: Rt,
    args: Seq<Word>,
    h: Heap,
) -> Done<Word, Heap> {
    match f {
        Rt::StrHash => on_text(h, args[0], |s: Seq<u8>| number(hash_of(s) as int, h)),
        Rt::MapNew => allocated(Block::Table(empty_buckets(FIRST_BUCKETS as nat)), h),
        Rt::MapPut => on_entry(
            h,
            args[0],
            args[1],
            |t: Buckets<Word>, key: Seq<u8>|
                if entries(t) < usize::MAX {
                    Done::Go(Word::Int(0), with_table(h, args[0], put_of(t, key, args[3])))
                } else {
                    Done::Stop(h)
                },
        ),
        Rt::MapGet => on_entry(
            h,
            args[0],
            args[1],
            |t: Buckets<Word>, key: Seq<u8>|
                match lookup(t, key) {
                    Some(v) => Done::Go(v, h),
                    None => Done::Stop(h),
                },
        ),
        Rt::MapHas => on_entry(
            h,
            args[0],
            args[1],
            |t: Buckets<Word>, key: Seq<u8>| Done::Go(Word::Bit(lookup(t, key) is Some), h),
        ),
        Rt::MapDel => on_entry(
            h,
            args[0],
            args[1],
            |t: Buckets<Word>, key: Seq<u8>|
                Done::Go(Word::Int(0), with_table(h, args[0], del_of(t, key))),
        ),
        Rt::MapKeys => match table_at(h, args[0]) {
            Some(t) => new_texts(keys_of(t), h),
            None => Done::Stop(h),
        },
        _ => (other.op)(Op::Rt(f), args, h),
    }
}

/// What a function that compiled code calls does; `other` says what those do that work on
/// fractions, or on what is outside the machine.
#[verifier::opaque]
pub open spec fn runtime_op(
    other: Base<Word, Heap>,
    f: Rt,
    args: Seq<Word>,
    h: Heap,
) -> Done<Word, Heap> {
    match f {
        Rt::ArraySlice | Rt::SortInt | Rt::SortStr | Rt::Reverse => array_op(other, f, args, h),
        Rt::StrHash
        | Rt::MapNew
        | Rt::MapPut
        | Rt::MapGet
        | Rt::MapHas
        | Rt::MapDel
        | Rt::MapKeys => map_op(other, f, args, h),
        _ => text_op(other, f, args, h),
    }
}

// What is new in memory.

/// A new string, with nothing else changed.
pub open spec fn is_new_text(h: Heap, g: Heap, v: Word, t: Seq<u8>) -> bool {
    &&& text_at(g, v) == Some(t)
    &&& is_heap(g)
    &&& kept_but(h, g, Set::empty())
}

/// A new array, with nothing else changed.
pub open spec fn is_new_array(h: Heap, g: Heap, v: Word, xs: Seq<Word>) -> bool {
    is_array(g, v, xs) && kept_but(h, g, Set::empty())
}

/// An array of strings.
pub open spec fn is_texts(h: Heap, a: Word, ts: Seq<Seq<u8>>) -> bool {
    elems_at(h, a) matches Some(vs) && is_array(h, a, vs) && texts_at(h, vs) == Some(ts)
}

/// What comes of one operation.
pub open spec fn outcome(d: Done<Word, Heap>) -> Value<Word, Heap> {
    match d {
        Done::Go(v, g) => Value::Is(v, g),
        Done::Stop(g) => Value::Stop(g),
    }
}

/// No zero is in these bytes.
pub open spec fn is_text(t: Seq<u8>) -> bool {
    forall|j: int| 0 <= j < t.len() ==> t[j] != 0
}

pub proof fn lemma_new_text(t: Seq<u8>, h: Heap)
    requires
        is_heap(h),
        is_text(t),
    ensures
        new_text(t, h) matches Done::Go(v, g) && is_new_text(h, g, v, t),
{
    let s = t.push(0);
    lemma_zero_is(s, 0, t.len() as int);
    assert(s.subrange(0, t.len() as int) =~= t);
}

pub proof fn lemma_new_array(xs: Seq<Word>, h: Heap)
    requires
        is_heap(h),
        xs.len() <= i64::MAX,
    ensures
        new_array(xs, h) matches Done::Go(v, g) && is_new_array(h, g, v, xs),
{
    let g = new_array(xs, h)->Go_1;
    let v = new_array(xs, h)->Go_0;
    if xs.len() > 0 {
        assert(data_block(g, v) == h.next);
        assert(slots(g, h.next) == Some(xs));
        assert(xs.take(xs.len() as int) =~= xs);
    }
}

pub proof fn lemma_elems(h: Heap, a: Word, xs: Seq<Word>)
    requires
        is_array(h, a, xs),
    ensures
        elems_at(h, a) == Some(xs),
{
    if room(h, a) == 0 {
        assert(xs =~= Seq::empty());
    }
}

pub proof fn lemma_new_texts(ts: Seq<Seq<u8>>, h: Heap)
    requires
        is_heap(h),
        ts.len() <= i64::MAX,
        forall|i: int| 0 <= i < ts.len() ==> is_text(#[trigger] ts[i]),
    ensures
        new_texts(ts, h) matches Done::Go(v, g) && is_texts(g, v, ts) && is_heap(g) && kept_but(
            h,
            g,
            Set::empty(),
        ),
{
    let vs = text_places(ts.len(), h);
    let h1 = with_texts(ts, h);
    assert(is_heap(h1)) by {
        assert forall|k: nat| #[trigger] h1.blocks.contains_key(k) implies k < h1.next by {
            if !(h.next <= k < h.next + ts.len()) {
                assert(h.blocks.contains_key(k));
            }
        }
    }
    lemma_new_array(vs, h1);
    let v = new_array(vs, h1)->Go_0;
    let g = new_array(vs, h1)->Go_1;
    lemma_elems(g, v, vs);
    assert forall|i: int| 0 <= i < vs.len() implies text_at(g, #[trigger] vs[i]) == Some(ts[i]) by {
        let k = (h.next + i) as nat;
        assert(h1.blocks.contains_key(k));
        assert(g.blocks[k] == h1.blocks[k]);
        let s = ts[i].push(0);
        assert(is_text(ts[i]));
        lemma_zero_is(s, 0, ts[i].len() as int);
        assert(s.subrange(0, ts[i].len() as int) =~= ts[i]);
    }
    assert(texts_at(g, vs)->0 =~= ts);
    assert forall|k: nat| #[trigger] h.blocks.contains_key(k) implies g.blocks.contains_key(k)
        && g.blocks[k] == h.blocks[k] by {
        assert(h1.blocks.contains_key(k));
    }
}

/// A call of one function.
pub proof fn lemma_single(
    other: Base<Word, Heap>,
    ty: IrTy,
    op: Op,
    more: Seq<OpndV>,
    ins: Seq<Word>,
    args: Seq<Word>,
    h: Heap,
)
    requires
        args == ins + konsts(on_machine(other), more),
    ensures
        value_of(on_machine(other), single(ty, op, Srcs::All(more)), ins, h) == outcome(
            machine_op(other, op, args, h),
        ),
{
    reveal(value_of);
    reveal(row);
    reveal(single);
    reveal_with_fuel(row_from, 2);
    let ps = single(ty, op, Srcs::All(more)).parts;
    assert(src_vals(on_machine(other), ins, Seq::empty(), Srcs::All(more)) == args);
}

/// A call of a function on something that is not null.
pub proof fn lemma_checked(other: Base<Word, Heap>, f: Rt, a: Word, h: Heap)
    requires
        !(a is Null),
    ensures
        value_of(on_machine(other), checked_row(f), seq![a], h) == outcome(
            machine_op(other, Op::Rt(f), seq![a], h),
        ),
{
    reveal(value_of);
    reveal(row);
    let ps = checked_row(f).parts;
    let ins = seq![a];
    let r0 = Seq::<Word>::empty();
    let r1 = r0.push(Word::Bit(false));
    lemma_do(other, ps, 0, ins, r0, h, Word::Bit(false), h);
    lemma_check(other, ps, 1, ins, r1, h);
    let args = src_vals(on_machine(other), ins, r1, Srcs::All(Seq::empty()));
    assert(args =~= ins);
    if let Done::Go(v, g) = machine_op(other, Op::Rt(f), args, h) {
        lemma_do(other, ps, 2, ins, r1, h, v, g);
    }
}

} // verus!
