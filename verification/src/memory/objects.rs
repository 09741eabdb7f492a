//! What becomes of structures and values of sum types.
use vstd::prelude::*;
#[allow(unused_imports)]
use crate::ast::{BinOp, ProgramV};
#[allow(unused_imports)]
use crate::ir::IrTy;
#[allow(unused_imports)]
use crate::lowering::max_arity;
#[allow(unused_imports)]
use crate::meaning::{
    fill, load_row, null_row, refs_row, row, store_row, value_of, variant, variant_row, Base,
    RowEnd, Value,
};
#[allow(unused_imports)]
use crate::memory::heap::{
    is_heap, is_place, kept_but, lemma_check, lemma_do, on_machine, slots, with_slots, zeros, Block,
    Heap, Word,
};
#[allow(unused_imports)]
use crate::typing::{variant_home, variant_index};

verus! {

/// `o` is a block that holds these values.
pub open spec fn is_object(h: Heap, o: Word, vs: Seq<Word>) -> bool {
    &&& is_heap(h)
    &&& o matches Word::At(k, at) && at == 0 && slots(h, k) == Some(vs)
}

/// `r == null` and `r != null` tell whether a reference is `null`.
pub proof fn null_is_told(other: Base<Word, Heap>, h: Heap, r: Word, op: BinOp)
    requires
        is_place(r),
        op == BinOp::Eq || op == BinOp::Ne,
    ensures
        value_of(on_machine(other), refs_row(op), seq![r, Word::Null], h) == Value::<Word, Heap>::Is(
            Word::Bit((r is Null) == (op == BinOp::Eq)),
            h,
        ),
{
    reveal(value_of);
    reveal(row);
    reveal(refs_row);
    let ps = refs_row(op).parts;
    let ins = seq![r, Word::Null];
    let r0 = Seq::<Word>::empty();
    let r1 = r0.push(r);
    let r2 = r1.push(Word::Null);
    lemma_do(other, ps, 0, ins, r0, h, r, h);
    lemma_do(other, ps, 1, ins, r1, h, Word::Null, h);
    let v = Word::Bit((r is Null) == (op == BinOp::Eq));
    lemma_do(other, ps, 2, ins, r2, h, v, h);
}

/// A use of `null` ends the program; any other value passes.
pub proof fn null_is_caught(other: Base<Word, Heap>, h: Heap, v: Word)
    ensures
        value_of(on_machine(other), null_row(), seq![v], h) == if v is Null {
            Value::Halt("lumo: null reference\n"@, h)
        } else {
            Value::Is(v, h)
        },
{
    reveal(value_of);
    reveal(row);
    reveal(null_row);
    let ps = null_row().parts;
    let r1 = Seq::<Word>::empty().push(Word::Bit(v is Null));
    lemma_do(other, ps, 0, seq![v], Seq::empty(), h, r1.last(), h);
    lemma_check(other, ps, 1, seq![v], r1, h);
}

/// A field is read.
pub proof fn fields_are_read(
    other: Base<Word, Heap>,
    h: Heap,
    o: Word,
    vs: Seq<Word>,
    i: usize,
    ty: IrTy,
)
    requires
        is_object(h, o, vs),
        i < vs.len(),
    ensures
        value_of(on_machine(other), load_row(ty, i), seq![o], h) == Value::Is(vs[i as int], h),
{
    reveal(value_of);
    reveal(row);
    reveal(load_row);
    let ps = load_row(ty, i).parts;
    let r1 = Seq::<Word>::empty().push(Word::At(o->At_0, 8 * i));
    lemma_do(other, ps, 0, seq![o], Seq::empty(), h, r1.last(), h);
    lemma_do(other, ps, 1, seq![o], r1, h, vs[i as int], h);
}

/// A field is written, and the others stay as they are.
pub proof fn fields_are_written(
    other: Base<Word, Heap>,
    h: Heap,
    o: Word,
    vs: Seq<Word>,
    i: usize,
    v: Word,
)
    requires
        is_object(h, o, vs),
        i < vs.len(),
    ensures
        row(on_machine(other), store_row(i), seq![o, v], h) matches RowEnd::Done(_, g)
            && is_object(g, o, vs.update(i as int, v)) && kept_but(h, g, set![o->At_0]),
{
    reveal(row);
    reveal(store_row);
    let ps = store_row(i);
    let k = o->At_0;
    let g = with_slots(h, k, vs.update(i as int, v));
    let r1 = Seq::<Word>::empty().push(Word::At(k, 8 * i));
    lemma_do(other, ps, 0, seq![o, v], Seq::empty(), h, r1.last(), h);
    lemma_do(other, ps, 1, seq![o, v], r1, h, Word::Int(0), g);
}

/// The slots of a variant after the first `i` values of its payload were written.
pub open spec fn tagged(tag: Word, vs: Seq<Word>, i: int, n: nat) -> Seq<Word> {
    Seq::new(
        n + 1,
        |j: int|
            if j == 0 {
                tag
            } else if j <= i {
                vs[j - 1]
            } else {
                Word::Int(0)
            },
    )
}

proof fn lemma_fill(
    other: Base<Word, Heap>,
    h: Heap,
    o: Word,
    tag: Word,
    vs: Seq<Word>,
    i: int,
    n: nat,
)
    requires
        0 <= i <= vs.len() <= n,
        vs.len() < usize::MAX,
        is_object(h, o, tagged(tag, vs, i, n)),
    ensures
        fill(on_machine(other), o, vs, i, h) matches Value::Is(v, g) && v == o && is_object(
            g,
            o,
            tagged(tag, vs, vs.len() as int, n),
        ) && kept_but(h, g, set![o->At_0]),
    decreases vs.len() - i,
{
    if i < vs.len() {
        fields_are_written(other, h, o, tagged(tag, vs, i, n), (i + 1) as usize, vs[i]);
        assert(tagged(tag, vs, i, n).update(i + 1, vs[i]) =~= tagged(tag, vs, i + 1, n));
        let g = row(on_machine(other), store_row((i + 1) as usize), seq![o, vs[i]], h)->Done_1;
        lemma_fill(other, g, o, tag, vs, i + 1, n);
    }
}

/// A value of a sum type is a new block with the index of its variant and then its payload.
pub proof fn variants_hold_their_payload(
    other: Base<Word, Heap>,
    p: ProgramV,
    name: Seq<char>,
    vs: Seq<Word>,
    h: Heap,
)
    requires
        is_heap(h),
        ({
            let variants = p.enums[variant_home(p, name, 0)].variants;
            &&& vs.len() <= max_arity(variants) < usize::MAX
            &&& 0 <= variant_index(variants, name, 0) <= usize::MAX
        }),
    ensures
        ({
            let variants = p.enums[variant_home(p, name, 0)].variants;
            let tag = Word::Int((variant_index(variants, name, 0) as usize) as i64);
            variant(on_machine(other), p, name, vs, h) matches Value::Is(o, g) && is_object(
                g,
                o,
                tagged(tag, vs, vs.len() as int, max_arity(variants)),
            ) && kept_but(h, g, Set::empty())
        }),
{
    reveal(value_of);
    reveal(row);
    reveal(variant_row);
    let variants = p.enums[variant_home(p, name, 0)].variants;
    let n = max_arity(variants) as usize;
    let i = variant_index(variants, name, 0) as usize;
    let tag = Word::Int(i as i64);
    let ps = variant_row(n, i).parts;
    let k = h.next;
    let o = Word::At(k, 0);
    let h1 = Heap {
        blocks: h.blocks.insert(k, Block::Slots(zeros(n as nat + 1))),
        next: k + 1,
    };
    let h2 = with_slots(h1, k, zeros(n as nat + 1).update(0, tag));
    let ins = Seq::<Word>::empty();
    let r1 = Seq::<Word>::empty().push(o);
    lemma_do(other, ps, 0, ins, Seq::empty(), h, o, h1);
    lemma_do(other, ps, 1, ins, r1, h1, Word::Int(0), h2);
    assert(zeros(n as nat + 1).update(0, tag) =~= tagged(tag, vs, 0, n as nat));
    assert(value_of(on_machine(other), variant_row(n, i), ins, h) == Value::Is(o, h2));
    assert(kept_but(h, h2, Set::empty()));
    assert(is_object(h2, o, tagged(tag, vs, 0, n as nat)));
    lemma_fill(other, h2, o, tag, vs, 0, n as nat);
    let g = fill(on_machine(other), o, vs, 0, h2)->Is_1;
    assert(kept_but(h, g, Set::empty()));
}

} // verus!
