//! What becomes of maps.
use vstd::prelude::*;
#[allow(unused_imports)]
use crate::ast::{ExprV, ProgramV};
#[allow(unused_imports)]
use crate::builtins::Builtin;
#[allow(unused_imports)]
use crate::ir::{IrTy, Op, Rt};
#[allow(unused_imports)]
use crate::meaning::{
    builtin_row, expr, length_row, map_get_row, map_put_row, pairs, row, row_from, second_row,
    single, typ, value_of, Base, Done, Names, Part, RowEnd, Src, Srcs, Value,
};
#[allow(unused_imports)]
use crate::memory::heap::{
    is_heap, kept_but, lemma_do, lemma_wrapped, machine_op, on_machine, table_at, text_at, wrapped,
    Block, Heap, Word,
};
#[allow(unused_imports)]
use crate::memory::runtime::{
    is_text, is_texts, lemma_checked, lemma_new_texts, new_texts, runtime_op, with_table,
};
#[allow(unused_imports)]
use crate::memory::strings::lemma_text;
#[allow(unused_imports)]
use crate::runtime::maps::{
    del_of, del_takes_one_key_out, empty_buckets, entries, hash_of, is_table, keys_are_counted,
    keys_are_named_once, keys_are_those_with_values, keys_of, lookup, new_map_is_empty,
    put_gives_one_key_its_value, put_of, Buckets, FIRST_BUCKETS,
};
#[allow(unused_imports)]
use crate::types::Ty;

verus! {

/// `m` is a map of these entries.
pub open spec fn is_map(h: Heap, m: Word, t: Buckets<Word>) -> bool {
    &&& is_heap(h)
    &&& table_at(h, m) == Some(t)
    &&& is_table(t)
    &&& forall|key: Seq<u8>| #[trigger] lookup(t, key) is Some ==> is_text(key)
}

/// The block of a map.
pub open spec fn map_block(m: Word) -> nat {
    m->At_0
}

/// A value of type `t`.
pub open spec fn is_value(t: Ty, v: Word) -> bool {
    match t {
        Ty::Int => v is Int,
        Ty::Bool => v is Bit,
        _ => true,
    }
}

/// The slot that holds a value of type `t`.
pub open spec fn slot_of(t: Ty, v: Word) -> Word {
    match (t, v) {
        (Ty::Bool, Word::Bit(x)) => Word::Int(
            if x {
                1
            } else {
                0
            },
        ),
        _ => v,
    }
}

/// The slots of a map hold values of type `t`.
pub open spec fn holds(t: Buckets<Word>, ty: Ty) -> bool {
    forall|key: Seq<u8>| #[trigger]
        lookup(t, key) is Some ==> exists|v: Word|
            is_value(ty, v) && lookup(t, key)->0 == #[trigger] slot_of(ty, v)
}

/// The value of type `t` that a slot holds.
pub open spec fn value_in(t: Ty, slot: Word) -> Word {
    match (t, slot) {
        (Ty::Bool, Word::Int(n)) => Word::Bit(n != 0),
        _ => slot,
    }
}

/// The hash of a key.
pub open spec fn hash_word(key: Seq<u8>) -> Word {
    Word::Int(wrapped(hash_of(key) as int))
}

/// A string stays where only a map changes.
proof fn lemma_text_stays(h: Heap, g: Heap, m: Word, v: Word, s: Seq<u8>)
    requires
        table_at(h, m) is Some,
        text_at(h, v) == Some(s),
        kept_but(h, g, set![map_block(m)]),
    ensures
        text_at(g, v) == Some(s),
{
    assert(h.blocks.contains_key(v->At_0));
}

/// `{}` is a new map that has no value for any key.
pub proof fn maps_start_empty(other: Base<Word, Heap>, h: Heap)
    requires
        is_heap(h),
    ensures
        value_of(
            on_machine(other),
            single(IrTy::Ptr, Op::Rt(Rt::MapNew), Srcs::S0),
            Seq::empty(),
            h,
        ) matches Value::Is(m, g) && kept_but(h, g, Set::empty()) && (table_at(
            g,
            m,
        ) matches Some(t) && is_map(g, m, t) && entries(t) == 0 && forall|key: Seq<u8>|
            lookup(t, key) is None),
{
    lemma_new_map(other, h);
    let t = empty_buckets::<Word>(FIRST_BUCKETS as nat);
    new_map_is_empty::<Word>(FIRST_BUCKETS as nat, Seq::empty());
    assert forall|key: Seq<u8>| lookup(t, key) is None by {
        new_map_is_empty::<Word>(FIRST_BUCKETS as nat, key);
    }
}

/// `m[k] = v` gives the key its value, and changes nothing but the map.
pub proof fn values_are_put(
    other: Base<Word, Heap>,
    h: Heap,
    m: Word,
    t: Buckets<Word>,
    k: Word,
    key: Seq<u8>,
    ty: Ty,
    v: Word,
)
    requires
        is_map(h, m, t),
        text_at(h, k) == Some(key),
        is_value(ty, v),
        entries(t) < usize::MAX,
    ensures
        row(on_machine(other), map_put_row(ty), seq![m, k, v], h) matches RowEnd::Done(_, g)
            && kept_but(h, g, set![map_block(m)]) && is_map(
            g,
            m,
            put_of(t, key, slot_of(ty, v)),
        ) && forall|j: Seq<u8>|
            lookup(put_of(t, key, slot_of(ty, v)), j) == if j == key {
                Some(slot_of(ty, v))
            } else {
                lookup(t, j)
            },
{
    reveal(row);
    reveal(map_put_row);
    let ps = map_put_row(ty);
    let ins = seq![m, k, v];
    let slot = slot_of(ty, v);
    let t1 = put_of(t, key, slot);
    let g = with_table(h, m, t1);
    let r0 = Seq::<Word>::empty();
    let r1 = r0.push(hash_word(key));
    lemma_hash(other, ps, ins, h, k, key);
    if ty is Int {
        lemma_put(other, h, m, t, k, key, slot);
        lemma_do(other, ps, 1, ins, r1, h, Word::Int(0), g);
    } else {
        let r2 = r1.push(slot);
        lemma_do(other, ps, 1, ins, r1, h, slot, h);
        lemma_put(other, h, m, t, k, key, slot);
        lemma_do(other, ps, 2, ins, r2, h, Word::Int(0), g);
    }
    lemma_text(h, h, k, key);
    assert forall|j: Seq<u8>| lookup(t1, j) == if j == key {
        Some(slot)
    } else {
        lookup(t, j)
    } by {
        put_gives_one_key_its_value(t, key, slot, j);
    }
    put_gives_one_key_its_value(t, key, slot, key);
}

/// The hash of a key comes first.
proof fn lemma_hash(
    other: Base<Word, Heap>,
    ps: Seq<Part>,
    ins: Seq<Word>,
    h: Heap,
    k: Word,
    key: Seq<u8>,
)
    requires
        ps.len() > 0,
        ps[0] == Part::Do(IrTy::I64, Op::Rt(Rt::StrHash), Srcs::S1(Src::In(1))),
        ins.len() > 1,
        ins[1] == k,
        text_at(h, k) == Some(key),
    ensures
        row_from(on_machine(other), ps, 0, ins, Seq::empty(), h) == row_from(
            on_machine(other),
            ps,
            1,
            ins,
            Seq::empty().push(hash_word(key)),
            h,
        ),
{
    reveal(runtime_op);
    lemma_do(other, ps, 0, ins, Seq::empty(), h, hash_word(key), h);
}

proof fn lemma_put(
    other: Base<Word, Heap>,
    h: Heap,
    m: Word,
    t: Buckets<Word>,
    k: Word,
    key: Seq<u8>,
    slot: Word,
)
    requires
        table_at(h, m) == Some(t),
        text_at(h, k) == Some(key),
        entries(t) < usize::MAX,
    ensures
        machine_op(other, Op::Rt(Rt::MapPut), seq![m, k, hash_word(key), slot], h) == Done::Go(
            Word::Int(0),
            with_table(h, m, put_of(t, key, slot)),
        ),
{
    reveal(runtime_op);
}

/// `m[k]` is the value of the key; where it has none, the program ends.
pub proof fn values_are_got(
    other: Base<Word, Heap>,
    h: Heap,
    m: Word,
    t: Buckets<Word>,
    k: Word,
    key: Seq<u8>,
    ty: Ty,
)
    requires
        is_map(h, m, t),
        text_at(h, k) == Some(key),
        holds(t, ty),
    ensures
        value_of(on_machine(other), map_get_row(ty), seq![m, k], h) == match lookup(t, key) {
            Some(slot) => Value::Is(value_in(ty, slot), h),
            None => Value::Stop(h),
        },
{
    reveal(value_of);
    reveal(row);
    reveal(map_get_row);
    reveal(runtime_op);
    let ps = map_get_row(ty).parts;
    let ins = seq![m, k];
    let r1 = Seq::<Word>::empty().push(hash_word(key));
    lemma_hash(other, ps, ins, h, k, key);
    match lookup(t, key) {
        Some(slot) => {
            let r2 = r1.push(slot);
            lemma_do(other, ps, 1, ins, r1, h, slot, h);
            if !(ty is Int) {
                let v = choose|v: Word| is_value(ty, v) && slot == #[trigger] slot_of(ty, v);
                lemma_do(other, ps, 2, ins, r2, h, value_in(ty, slot), h);
            }
        },
        None => {},
    }
}

/// After `m[k] = v`, `m[k]` is `v`, and `m[j]` of another key `j` is what it was.
pub proof fn puts_are_read_back(
    other: Base<Word, Heap>,
    h: Heap,
    m: Word,
    t: Buckets<Word>,
    k: Word,
    key: Seq<u8>,
    j: Word,
    name: Seq<u8>,
    ty: Ty,
    v: Word,
)
    requires
        is_map(h, m, t),
        text_at(h, k) == Some(key),
        text_at(h, j) == Some(name),
        is_value(ty, v),
        holds(t, ty),
        entries(t) < usize::MAX,
    ensures
        row(on_machine(other), map_put_row(ty), seq![m, k, v], h) matches RowEnd::Done(_, g)
            && value_of(on_machine(other), map_get_row(ty), seq![m, j], g) == if name == key {
            Value::Is(v, g)
        } else {
            match value_of(on_machine(other), map_get_row(ty), seq![m, j], h) {
                Value::Is(x, _) => Value::Is(x, g),
                _ => Value::Stop(g),
            }
        },
{
    values_are_put(other, h, m, t, k, key, ty, v);
    let g = row(on_machine(other), map_put_row(ty), seq![m, k, v], h)->Done_1;
    let t1 = put_of(t, key, slot_of(ty, v));
    assert(holds(t1, ty)) by {
        assert forall|x: Seq<u8>| #[trigger] lookup(t1, x) is Some implies exists|u: Word|
            is_value(ty, u) && lookup(t1, x)->0 == #[trigger] slot_of(ty, u) by {
            if x != key {
                assert(lookup(t, x) is Some);
                let u = choose|u: Word|
                    is_value(ty, u) && lookup(t, x)->0 == #[trigger] slot_of(ty, u);
                assert(lookup(t1, x)->0 == slot_of(ty, u));
            } else {
                assert(lookup(t1, x)->0 == slot_of(ty, v));
            }
        }
    }
    lemma_text_stays(h, g, m, j, name);
    values_are_got(other, h, m, t, j, name, ty);
    values_are_got(other, g, m, t1, j, name, ty);
}

/// `has(m, k)` tells whether the key has a value.
pub proof fn has_tells_of_values(
    other: Base<Word, Heap>,
    h: Heap,
    m: Word,
    t: Buckets<Word>,
    k: Word,
    key: Seq<u8>,
)
    requires
        is_map(h, m, t),
        text_at(h, k) == Some(key),
    ensures
        value_of(on_machine(other), second_row(Builtin::Has), seq![m, k], h) == Value::<
            Word,
            Heap,
        >::Is(Word::Bit(lookup(t, key) is Some), h),
{
    reveal(value_of);
    reveal(row);
    reveal(second_row);
    reveal(runtime_op);
    let ps = second_row(Builtin::Has).parts;
    let ins = seq![m, k];
    let r1 = Seq::<Word>::empty().push(hash_word(key));
    lemma_hash(other, ps, ins, h, k, key);
    lemma_do(other, ps, 1, ins, r1, h, Word::Bit(lookup(t, key) is Some), h);
}

/// `delete(m, k)` takes the value of the key out, where it has one; nothing but the map
/// changes.
pub proof fn deletes_take_out(
    other: Base<Word, Heap>,
    h: Heap,
    m: Word,
    t: Buckets<Word>,
    k: Word,
    key: Seq<u8>,
)
    requires
        is_map(h, m, t),
        text_at(h, k) == Some(key),
    ensures
        value_of(on_machine(other), second_row(Builtin::Delete), seq![m, k], h) matches Value::Is(
            _,
            g,
        ) && kept_but(h, g, set![map_block(m)]) && is_map(g, m, del_of(t, key)) && forall|
            j: Seq<u8>,
        |
            lookup(del_of(t, key), j) == if j == key {
                None
            } else {
                lookup(t, j)
            },
{
    reveal(value_of);
    reveal(row);
    reveal(second_row);
    reveal(runtime_op);
    let ps = second_row(Builtin::Delete).parts;
    let ins = seq![m, k];
    let t1 = del_of(t, key);
    let g = with_table(h, m, t1);
    let r1 = Seq::<Word>::empty().push(hash_word(key));
    lemma_hash(other, ps, ins, h, k, key);
    lemma_do(other, ps, 1, ins, r1, h, Word::Int(0), g);
    assert forall|j: Seq<u8>| lookup(t1, j) == if j == key {
        None
    } else {
        lookup(t, j)
    } by {
        del_takes_one_key_out(t, key, j);
    }
    del_takes_one_key_out(t, key, key);
}

/// `len(m)` is the number of keys that have values.
pub proof fn len_counts_keys(
    other: Base<Word, Heap>,
    h: Heap,
    m: Word,
    t: Buckets<Word>,
    ty: Ty,
)
    requires
        is_map(h, m, t),
        entries(t) <= i64::MAX,
        !(ty is Str),
    ensures
        value_of(on_machine(other), length_row(ty), seq![m], h) == Value::<Word, Heap>::Is(
            Word::Int(keys_of(t).len() as i64),
            h,
        ),
{
    reveal(value_of);
    reveal(row);
    reveal(length_row);
    reveal(single);
    keys_are_counted(t);
    lemma_wrapped(entries(t) as int);
    let n = Word::Int(entries(t) as i64);
    lemma_do(other, length_row(ty).parts, 0, seq![m], Seq::empty(), h, n, h);
}

/// `keys(m)` is a new array of new strings: each key that has a value, once.
pub proof fn keys_are_listed(
    other: Base<Word, Heap>,
    h: Heap,
    m: Word,
    t: Buckets<Word>,
    ty: Ty,
)
    requires
        is_map(h, m, t),
        entries(t) <= i64::MAX,
    ensures
        value_of(on_machine(other), builtin_row(Builtin::Keys, ty), seq![m], h) matches Value::Is(
            a,
            g,
        ) && is_texts(g, a, keys_of(t)) && kept_but(h, g, Set::empty()) && is_heap(g),
        keys_of(t).no_duplicates(),
        forall|key: Seq<u8>| #[trigger] keys_of(t).contains(key) <==> lookup(t, key) is Some,
{
    keys_are_counted(t);
    keys_are_named_once(t);
    assert forall|key: Seq<u8>| #[trigger] keys_of(t).contains(key) <==> lookup(
        t,
        key,
    ) is Some by {
        keys_are_those_with_values(t, key);
    }
    assert forall|i: int| 0 <= i < keys_of(t).len() implies is_text(#[trigger] keys_of(t)[i]) by {
        assert(keys_of(t).contains(keys_of(t)[i]));
    }
    lemma_new_texts(keys_of(t), h);
    assert(machine_op(other, Op::Rt(Rt::MapKeys), seq![m], h) == new_texts(keys_of(t), h)) by {
        reveal(runtime_op);
    }
    reveal(builtin_row);
    lemma_checked(other, Rt::MapKeys, m, h);
}

// Literals.

/// The entries of a map that was given these values for these keys, one after the other.
pub open spec fn entered(keys: Seq<Seq<u8>>, given: Seq<Word>, n: int) -> Buckets<Word>
    decreases n,
{
    if n <= 0 {
        empty_buckets(FIRST_BUCKETS as nat)
    } else {
        put_of(entered(keys, given, n - 1), keys[n - 1], given[n - 1])
    }
}

/// The last value that a key was given.
pub open spec fn last_given(
    keys: Seq<Seq<u8>>,
    given: Seq<Word>,
    n: int,
    key: Seq<u8>,
) -> Option<Word>
    decreases n,
{
    if n <= 0 {
        None
    } else if keys[n - 1] == key {
        Some(given[n - 1])
    } else {
        last_given(keys, given, n - 1, key)
    }
}

proof fn lemma_entered(keys: Seq<Seq<u8>>, given: Seq<Word>, n: int, key: Seq<u8>)
    ensures
        is_table(entered(keys, given, n)),
        lookup(entered(keys, given, n), key) == last_given(keys, given, n, key),
    decreases n,
{
    if n <= 0 {
        new_map_is_empty::<Word>(FIRST_BUCKETS as nat, key);
    } else {
        lemma_entered(keys, given, n - 1, key);
        put_gives_one_key_its_value(
            entered(keys, given, n - 1),
            keys[n - 1],
            given[n - 1],
            key,
        );
    }
}

proof fn lemma_given(keys: Seq<Seq<u8>>, given: Seq<Word>, n: int, key: Seq<u8>)
    requires
        0 <= n <= keys.len(),
        last_given(keys, given, n, key) is Some,
    ensures
        keys.take(n).contains(key),
    decreases n,
{
    if keys[n - 1] == key {
        assert(keys.take(n)[n - 1] == key);
    } else {
        lemma_given(keys, given, n - 1, key);
        let fewer = keys.take(n - 1);
        let i = choose|i: int| 0 <= i < fewer.len() && fewer[i] == key;
        assert(keys.take(n)[i] == key);
    }
}

/// A map has no more entries than keys were given values.
proof fn lemma_few(keys: Seq<Seq<u8>>, given: Seq<Word>, n: int)
    requires
        0 <= n <= keys.len(),
    ensures
        entries(entered(keys, given, n)) <= n,
{
    let t = entered(keys, given, n);
    let named = keys_of(t);
    lemma_entered(keys, given, n, Seq::empty());
    keys_are_counted(t);
    keys_are_named_once(t);
    named.unique_seq_to_set();
    let all = keys.take(n);
    vstd::seq_lib::seq_to_set_is_finite(all);
    all.lemma_cardinality_of_set();
    assert(named.to_set().subset_of(all.to_set())) by {
        assert forall|key: Seq<u8>| named.to_set().contains(key) implies all.to_set().contains(
            key,
        ) by {
            keys_are_those_with_values(t, key);
            lemma_entered(keys, given, n, key);
            lemma_given(keys, given, n, key);
        }
    }
    vstd::set_lib::lemma_len_subset(named.to_set(), all.to_set());
}

/// What comes of the entries of a literal from `i` on.
#[verifier::opaque]
spec fn entering(
    other: Base<Word, Heap>,
    p: ProgramV,
    names: Names,
    vals: Seq<Word>,
    m: Word,
    es: Seq<(ExprV, ExprV)>,
    i: int,
    h: Heap,
) -> Value<Word, Heap> {
    pairs(on_machine(other), p, names, vals, m, es, i, h)
}

/// What comes of an expression.
#[verifier::opaque]
spec fn valued(
    other: Base<Word, Heap>,
    p: ProgramV,
    names: Names,
    vals: Seq<Word>,
    e: ExprV,
    h: Heap,
) -> Value<Word, Heap> {
    expr(on_machine(other), p, names, vals, e, h)
}

proof fn lemma_entering(
    other: Base<Word, Heap>,
    p: ProgramV,
    names: Names,
    vals: Seq<Word>,
    m: Word,
    es: Seq<(ExprV, ExprV)>,
    i: int,
    h: Heap,
    k: Word,
    v: Word,
)
    requires
        0 <= i <= es.len(),
        i < es.len() ==> valued(other, p, names, vals, es[i].0, h) == Value::Is(k, h),
        i < es.len() ==> valued(other, p, names, vals, es[i].1, h) == Value::Is(v, h),
    ensures
        i == es.len() ==> entering(other, p, names, vals, m, es, i, h) == Value::Is(m, h),
        i < es.len() ==> (row(
            on_machine(other),
            map_put_row(typ(p, names, es[i].1)),
            seq![m, k, v],
            h,
        ) matches RowEnd::Done(_, g) ==> entering(other, p, names, vals, m, es, i, h) == entering(
            other,
            p,
            names,
            vals,
            m,
            es,
            i + 1,
            g,
        )),
{
    reveal(entering);
    reveal(valued);
}

/// The keys and the values of a literal have values, and evaluating them changes nothing.
pub open spec fn is_settled(
    other: Base<Word, Heap>,
    p: ProgramV,
    names: Names,
    vals: Seq<Word>,
    es: Seq<(ExprV, ExprV)>,
    ks: Seq<Word>,
    vs: Seq<Word>,
) -> bool {
    &&& es.len() == ks.len() == vs.len()
    &&& forall|j: int, g: Heap|
        0 <= j < es.len() ==> #[trigger] expr(on_machine(other), p, names, vals, es[j].0, g)
            == Value::Is(ks[j], g)
    &&& forall|j: int, g: Heap|
        0 <= j < es.len() ==> #[trigger] expr(on_machine(other), p, names, vals, es[j].1, g)
            == Value::Is(vs[j], g)
}

proof fn lemma_settled(
    other: Base<Word, Heap>,
    p: ProgramV,
    names: Names,
    vals: Seq<Word>,
    es: Seq<(ExprV, ExprV)>,
    ks: Seq<Word>,
    vs: Seq<Word>,
    j: int,
    g: Heap,
)
    requires
        is_settled(other, p, names, vals, es, ks, vs),
        0 <= j < es.len(),
    ensures
        valued(other, p, names, vals, es[j].0, g) == Value::Is(ks[j], g),
        valued(other, p, names, vals, es[j].1, g) == Value::Is(vs[j], g),
{
    reveal(valued);
}

/// The slots of values of these types.
pub open spec fn slots_of(p: ProgramV, names: Names, es: Seq<(ExprV, ExprV)>, vs: Seq<Word>) -> Seq<
    Word,
> {
    Seq::new(es.len(), |j: int| slot_of(typ(p, names, es[j].1), vs[j]))
}

#[verifier::opaque]
spec fn are_keys(h: Heap, ks: Seq<Word>, keys: Seq<Seq<u8>>) -> bool {
    &&& ks.len() == keys.len()
    &&& forall|j: int| 0 <= j < ks.len() ==> text_at(h, #[trigger] ks[j]) == Some(keys[j])
}

/// The values of a literal from `i` on are put.
proof fn lemma_pairs(
    other: Base<Word, Heap>,
    p: ProgramV,
    names: Names,
    vals: Seq<Word>,
    m: Word,
    es: Seq<(ExprV, ExprV)>,
    ks: Seq<Word>,
    vs: Seq<Word>,
    keys: Seq<Seq<u8>>,
    i: int,
    h: Heap,
)
    requires
        forall|j: int, g: Heap|
            0 <= j < es.len() ==> #[trigger] valued(other, p, names, vals, es[j].0, g)
                == Value::Is(ks[j], g),
        forall|j: int, g: Heap|
            0 <= j < es.len() ==> #[trigger] valued(other, p, names, vals, es[j].1, g)
                == Value::Is(vs[j], g),
        es.len() == ks.len() == vs.len(),
        es.len() <= usize::MAX,
        0 <= i <= es.len(),
        are_keys(h, ks, keys),
        forall|j: int|
            0 <= j < es.len() ==> is_value(typ(p, names, (#[trigger] es[j]).1), vs[j]),
        is_map(h, m, entered(keys, slots_of(p, names, es, vs), i)),
    ensures
        entering(other, p, names, vals, m, es, i, h) matches Value::Is(v, g) && v == m && is_map(
            g,
            m,
            entered(keys, slots_of(p, names, es, vs), es.len() as int),
        ) && kept_but(h, g, set![map_block(m)]),
    decreases es.len() - i,
{
    if i < es.len() {
        let given = slots_of(p, names, es, vs);
        let t = entered(keys, given, i);
        let ty = typ(p, names, es[i].1);
        assert(valued(other, p, names, vals, es[i].0, h) == Value::Is(ks[i], h));
        assert(valued(other, p, names, vals, es[i].1, h) == Value::Is(vs[i], h));
        lemma_entering(other, p, names, vals, m, es, i, h, ks[i], vs[i]);
        assert(text_at(h, ks[i]) == Some(keys[i]) && keys.len() == es.len()) by {
            reveal(are_keys);
        }
        assert(is_value(ty, vs[i]));
        lemma_few(keys, given, i);
        values_are_put(other, h, m, t, ks[i], keys[i], ty, vs[i]);
        let g = row(on_machine(other), map_put_row(ty), seq![m, ks[i], vs[i]], h)->Done_1;
        assert(are_keys(g, ks, keys)) by {
            reveal(are_keys);
            assert forall|j: int| 0 <= j < ks.len() implies text_at(g, #[trigger] ks[j]) == Some(
                keys[j],
            ) by {
                lemma_text_stays(h, g, m, ks[j], keys[j]);
            }
        }
        assert(entered(keys, given, i + 1) == put_of(t, keys[i], slot_of(ty, vs[i])));
        lemma_pairs(other, p, names, vals, m, es, ks, vs, keys, i + 1, g);
    } else {
        lemma_entering(other, p, names, vals, m, es, i, h, m, m);
    }
}

/// A map literal whose keys and values have values and change nothing is a new map, in which
/// a key has the last value that the literal gives it.
pub proof fn literals_hold_their_entries(
    other: Base<Word, Heap>,
    p: ProgramV,
    names: Names,
    vals: Seq<Word>,
    e: ExprV,
    ks: Seq<Word>,
    vs: Seq<Word>,
    keys: Seq<Seq<u8>>,
    h: Heap,
)
    requires
        is_heap(h),
        e.kind is MapLit,
        is_settled(other, p, names, vals, e.kind->MapLit_0, ks, vs),
        ks.len() <= usize::MAX,
        ks.len() == keys.len(),
        forall|j: int| 0 <= j < ks.len() ==> text_at(h, #[trigger] ks[j]) == Some(keys[j]),
        forall|j: int|
            0 <= j < ks.len() ==> is_value(
                typ(p, names, (#[trigger] e.kind->MapLit_0[j]).1),
                vs[j],
            ),
    ensures
        expr(on_machine(other), p, names, vals, e, h) matches Value::Is(m, g) && kept_but(
            h,
            g,
            Set::empty(),
        ) && (table_at(g, m) matches Some(t) && is_map(g, m, t) && forall|key: Seq<u8>|
            lookup(t, key) == last_given(
                keys,
                slots_of(p, names, e.kind->MapLit_0, vs),
                ks.len() as int,
                key,
            )),
{
    let es = e.kind->MapLit_0;
    let given = slots_of(p, names, es, vs);
    let n = es.len() as int;
    assert forall|j: int, g: Heap| 0 <= j < es.len() implies #[trigger] valued(
        other,
        p,
        names,
        vals,
        es[j].0,
        g,
    ) == Value::Is(ks[j], g) by {
        lemma_settled(other, p, names, vals, es, ks, vs, j, g);
    }
    assert forall|j: int, g: Heap| 0 <= j < es.len() implies #[trigger] valued(
        other,
        p,
        names,
        vals,
        es[j].1,
        g,
    ) == Value::Is(vs[j], g) by {
        lemma_settled(other, p, names, vals, es, ks, vs, j, g);
    }
    lemma_start(other, p, names, vals, e, h);
    let m = Word::At(h.next, 0);
    let h1 = Heap {
        blocks: h.blocks.insert(h.next, Block::Table(entered(keys, given, 0))),
        next: h.next + 1,
    };
    assert(are_keys(h1, ks, keys)) by {
        reveal(are_keys);
        assert forall|j: int| 0 <= j < ks.len() implies text_at(h1, #[trigger] ks[j]) == Some(
            keys[j],
        ) by {
            lemma_text(h, h1, ks[j], keys[j]);
        }
    }
    assert forall|key: Seq<u8>| #[trigger] lookup(entered(keys, given, 0), key) is None by {
        lemma_entered(keys, given, 0, key);
    }
    lemma_entered(keys, given, 0, Seq::empty());
    lemma_pairs(other, p, names, vals, m, es, ks, vs, keys, 0, h1);
    let g = entering(other, p, names, vals, m, es, 0, h1)->Is_1;
    assert(kept_but(h, g, Set::empty())) by {
        assert forall|k: nat| #[trigger] h.blocks.contains_key(k) implies g.blocks.contains_key(k)
            && g.blocks[k] == h.blocks[k] by {
            assert(h1.blocks.contains_key(k));
        }
    }
    assert forall|key: Seq<u8>| lookup(entered(keys, given, n), key) == last_given(
        keys,
        given,
        n,
        key,
    ) by {
        lemma_entered(keys, given, n, key);
    }
}

/// A map literal starts with a map without entries.
proof fn lemma_start(
    other: Base<Word, Heap>,
    p: ProgramV,
    names: Names,
    vals: Seq<Word>,
    e: ExprV,
    h: Heap,
)
    requires
        e.kind is MapLit,
    ensures
        expr(on_machine(other), p, names, vals, e, h) == entering(
            other,
            p,
            names,
            vals,
            Word::At(h.next, 0),
            e.kind->MapLit_0,
            0,
            Heap {
                blocks: h.blocks.insert(
                    h.next,
                    Block::Table(empty_buckets(FIRST_BUCKETS as nat)),
                ),
                next: h.next + 1,
            },
        ),
{
    reveal(entering);
    lemma_new_map(other, h);
}

proof fn lemma_new_map(other: Base<Word, Heap>, h: Heap)
    ensures
        value_of(
            on_machine(other),
            single(IrTy::Ptr, Op::Rt(Rt::MapNew), Srcs::S0),
            Seq::empty(),
            h,
        ) == Value::Is(
            Word::At(h.next, 0),
            Heap {
                blocks: h.blocks.insert(
                    h.next,
                    Block::Table(empty_buckets(FIRST_BUCKETS as nat)),
                ),
                next: h.next + 1,
            },
        ),
{
    reveal(value_of);
    reveal(row);
    reveal(single);
    reveal(runtime_op);
    let t = empty_buckets::<Word>(FIRST_BUCKETS as nat);
    let m = Word::At(h.next, 0);
    let g = Heap { blocks: h.blocks.insert(h.next, Block::Table(t)), next: h.next + 1 };
    let ps = single(IrTy::Ptr, Op::Rt(Rt::MapNew), Srcs::S0).parts;
    lemma_do(other, ps, 0, Seq::empty(), Seq::empty(), h, m, g);
}

} // verus!
