//! What becomes of strings that the built-in functions work on.
use vstd::prelude::*;
#[allow(unused_imports)]
use crate::builtins::Builtin;
#[allow(unused_imports)]
use crate::ir::{Op, OpndV, Rt};
#[allow(unused_imports)]
use crate::lowering::plain_rt;
#[allow(unused_imports)]
use crate::meaning::{
    builtin_row, chomp_row, contains_row, convert_row, konsts, replace_row, row, second_row, single,
    src_vals, text_row, value_of, Base, Done, RowEnd, Src, Srcs, Value,
};
#[allow(unused_imports)]
use crate::memory::heap::{
    bytes, is_heap, kept_but, lemma_do, lemma_wrapped, machine_op, on_machine, text_at, with_bytes,
    written, Block, Heap, Word,
};
#[allow(unused_imports)]
use crate::memory::runtime::{
    elems_at, is_new_text, is_text, is_texts, lemma_new_text, lemma_new_texts, lemma_single,
    outcome, runtime_op,
};
#[allow(unused_imports)]
use crate::memory::strings::{lemma_text, lemma_written, lemma_zero_from, lemma_zero_is};
#[allow(unused_imports)]
use crate::runtime::numbers::{digits_of, int_of, int_round_trip, text_of, writes_fraction};
#[allow(unused_imports)]
use crate::runtime::strings::{
    affix_of, case_of, contains_is_found, first_from, join_of, join_undoes_split,
    lemma_first_occurs, lemma_spaces_end, lemma_spaces_start, occurs_at, pieces, repeat_of,
    spaces_end, spaces_start, split_of, trim_of,
};
#[allow(unused_imports)]
use crate::types::Ty;

verus! {

/// A built-in function that only hands its values on.
proof fn lemma_plain(
    other: Base<Word, Heap>,
    f: Builtin,
    t: Ty,
    ins: Seq<Word>,
    args: Seq<Word>,
    h: Heap,
)
    requires
        plain_rt(f) matches Some((rt, ty, more)) && args == ins + konsts(on_machine(other), more),
    ensures
        plain_rt(f) matches Some((rt, ty, more)) && value_of(
            on_machine(other),
            builtin_row(f, t),
            ins,
            h,
        ) == outcome(machine_op(other, Op::Rt(rt), args, h)),
{
    reveal(builtin_row);
    let (rt, ty, more) = plain_rt(f)->0;
    lemma_single(other, ty, Op::Rt(rt), more, ins, args, h);
}

proof fn lemma_part_text(s: Seq<u8>, i: int, j: int)
    requires
        is_text(s),
        0 <= i <= j <= s.len(),
    ensures
        is_text(s.subrange(i, j)),
{
    let t = s.subrange(i, j);
    assert forall|k: int| 0 <= k < t.len() implies t[k] != 0 by {
        assert(t[k] == s[i + k]);
    }
}

proof fn lemma_pieces_text(s: Seq<u8>, sep: Seq<u8>, start: int)
    requires
        is_text(s),
        sep.len() > 0,
        0 <= start <= s.len(),
    ensures
        pieces(s, sep, start).len() <= s.len() - start + 1,
        forall|i: int|
            0 <= i < pieces(s, sep, start).len() ==> is_text(#[trigger] pieces(s, sep, start)[i]),
    decreases s.len() - start,
{
    let all = pieces(s, sep, start);
    lemma_first_occurs(s, sep, start);
    match first_from(s, sep, start) {
        Some(i) => if start <= i && i + sep.len() <= s.len() {
            let rest = pieces(s, sep, i + sep.len());
            lemma_part_text(s, start, i);
            lemma_pieces_text(s, sep, i + sep.len());
            assert forall|k: int| 0 <= k < all.len() implies is_text(#[trigger] all[k]) by {
                if k > 0 {
                    assert(all[k] == rest[k - 1]);
                }
            }
        },
        None => {
            lemma_part_text(s, start, s.len() as int);
        },
    }
}

proof fn lemma_split_text(s: Seq<u8>, sep: Seq<u8>)
    requires
        is_text(s),
    ensures
        split_of(s, sep).len() <= s.len() + 1,
        forall|i: int|
            0 <= i < split_of(s, sep).len() ==> is_text(#[trigger] split_of(s, sep)[i]),
{
    if sep.len() > 0 {
        lemma_pieces_text(s, sep, 0);
    }
}

proof fn lemma_add_text(s: Seq<u8>, t: Seq<u8>)
    requires
        is_text(s),
        is_text(t),
    ensures
        is_text(s + t),
{
    let u = s + t;
    assert forall|k: int| 0 <= k < u.len() implies u[k] != 0 by {
        if k < s.len() {
            assert(u[k] == s[k]);
        } else {
            assert(u[k] == t[k - s.len()]);
        }
    }
}

proof fn lemma_join_text(ts: Seq<Seq<u8>>, sep: Seq<u8>)
    requires
        forall|i: int| 0 <= i < ts.len() ==> is_text(#[trigger] ts[i]),
        is_text(sep),
    ensures
        is_text(join_of(ts, sep)),
    decreases ts.len(),
{
    if ts.len() == 1 {
        assert(is_text(ts[0]));
    } else if ts.len() > 1 {
        let rest = ts.drop_first();
        assert forall|i: int| 0 <= i < rest.len() implies is_text(#[trigger] rest[i]) by {
            assert(is_text(ts[i + 1]));
        }
        lemma_join_text(rest, sep);
        assert(is_text(ts[0]));
        lemma_add_text(ts[0], sep);
        lemma_add_text(ts[0] + sep, join_of(rest, sep));
    }
}

proof fn lemma_repeat_text(s: Seq<u8>, n: int)
    requires
        is_text(s),
    ensures
        is_text(repeat_of(s, n)),
    decreases n,
{
    if n > 0 {
        lemma_repeat_text(s, n - 1);
        lemma_add_text(repeat_of(s, n - 1), s);
    }
}

/// `split(s, sep)` is a new array of new strings, the parts of `s` that `sep` parts.
pub proof fn strings_are_split(
    other: Base<Word, Heap>,
    h: Heap,
    a: Word,
    b: Word,
    s: Seq<u8>,
    sep: Seq<u8>,
    t: Ty,
)
    requires
        is_heap(h),
        text_at(h, a) == Some(s),
        text_at(h, b) == Some(sep),
        s.len() < i64::MAX,
    ensures
        value_of(on_machine(other), builtin_row(Builtin::Split, t), seq![a, b], h) matches Value::Is(
            v,
            g,
        ) && is_texts(g, v, split_of(s, sep)) && is_heap(g) && kept_but(h, g, Set::empty()),
{
    let args = seq![a, b];
    assert(args =~= args + konsts(on_machine(other), seq![]));
    lemma_plain(other, Builtin::Split, t, args, args, h);
    lemma_split(other, h, a, b, s, sep);
}

proof fn lemma_split(
    other: Base<Word, Heap>,
    h: Heap,
    a: Word,
    b: Word,
    s: Seq<u8>,
    sep: Seq<u8>,
)
    requires
        is_heap(h),
        text_at(h, a) == Some(s),
        text_at(h, b) == Some(sep),
        s.len() < i64::MAX,
    ensures
        machine_op(other, Op::Rt(Rt::Split), seq![a, b], h) matches Done::Go(v, g) && is_texts(
            g,
            v,
            split_of(s, sep),
        ) && is_heap(g) && kept_but(h, g, Set::empty()),
{
    reveal(runtime_op);
    lemma_text(h, h, a, s);
    lemma_split_text(s, sep);
    lemma_new_texts(split_of(s, sep), h);
}

/// `join(a, sep)` is a new string of the strings of `a`, with `sep` between them.
pub proof fn arrays_are_joined(
    other: Base<Word, Heap>,
    h: Heap,
    a: Word,
    b: Word,
    ts: Seq<Seq<u8>>,
    sep: Seq<u8>,
)
    requires
        is_texts(h, a, ts),
        text_at(h, b) == Some(sep),
    ensures
        value_of(on_machine(other), second_row(Builtin::Join), seq![a, b], h) matches Value::Is(
            v,
            g,
        ) && is_new_text(h, g, v, join_of(ts, sep)),
{
    reveal(value_of);
    reveal(row);
    reveal(second_row);
    reveal(single);
    let ps = second_row(Builtin::Join).parts;
    let ins = seq![a, b];
    lemma_join(other, h, a, b, ts, sep);
    let d = machine_op(other, Op::Rt(Rt::Join), ins, h);
    assert(src_vals(on_machine(other), ins, Seq::empty(), Srcs::S2(Src::In(0), Src::In(1)))
        =~= ins);
    lemma_do(other, ps, 0, ins, Seq::empty(), h, d->Go_0, d->Go_1);
}

proof fn lemma_join(
    other: Base<Word, Heap>,
    h: Heap,
    a: Word,
    b: Word,
    ts: Seq<Seq<u8>>,
    sep: Seq<u8>,
)
    requires
        is_texts(h, a, ts),
        text_at(h, b) == Some(sep),
    ensures
        machine_op(other, Op::Rt(Rt::Join), seq![a, b], h) matches Done::Go(v, g) && is_new_text(
            h,
            g,
            v,
            join_of(ts, sep),
        ),
{
    reveal(runtime_op);
    let vs = elems_at(h, a)->0;
    lemma_text(h, h, b, sep);
    assert forall|i: int| 0 <= i < ts.len() implies is_text(#[trigger] ts[i]) by {
        assert(text_at(h, vs[i]) == Some(ts[i]));
        lemma_text(h, h, vs[i], ts[i]);
    }
    lemma_join_text(ts, sep);
    lemma_new_text(join_of(ts, sep), h);
}

/// A string that was split is joined again.
pub proof fn split_strings_join_again(
    other: Base<Word, Heap>,
    h: Heap,
    a: Word,
    b: Word,
    s: Seq<u8>,
    sep: Seq<u8>,
    t: Ty,
)
    requires
        is_heap(h),
        text_at(h, a) == Some(s),
        text_at(h, b) == Some(sep),
        s.len() < i64::MAX,
    ensures
        value_of(on_machine(other), builtin_row(Builtin::Split, t), seq![a, b], h) matches Value::Is(
            v,
            g,
        ) && (value_of(on_machine(other), second_row(Builtin::Join), seq![v, b], g) matches Value::Is(
            u,
            k,
        ) && text_at(k, u) == Some(s)),
{
    strings_are_split(other, h, a, b, s, sep, t);
    let r = value_of(on_machine(other), builtin_row(Builtin::Split, t), seq![a, b], h);
    lemma_text(h, r->Is_1, b, sep);
    arrays_are_joined(other, r->Is_1, r->Is_0, b, split_of(s, sep), sep);
    join_undoes_split(s, sep);
}

/// `replace(s, from, to)` is a new string, with `to` in place of every `from`.
pub proof fn parts_are_replaced(
    other: Base<Word, Heap>,
    h: Heap,
    a: Word,
    b: Word,
    c: Word,
    s: Seq<u8>,
    from: Seq<u8>,
    to: Seq<u8>,
    t: Ty,
)
    requires
        is_heap(h),
        text_at(h, a) == Some(s),
        text_at(h, b) == Some(from),
        text_at(h, c) == Some(to),
        s.len() < i64::MAX,
    ensures
        value_of(on_machine(other), builtin_row(Builtin::Replace, t), seq![a, b, c], h) matches
            Value::Is(v, g) && is_new_text(h, g, v, join_of(split_of(s, from), to)),
{
    reveal(value_of);
    reveal(row);
    reveal(builtin_row);
    let ps = replace_row().parts;
    let ins = seq![a, b, c];
    let bm = on_machine(other);
    let r0 = Seq::<Word>::empty();
    lemma_split(other, h, a, b, s, from);
    let d = machine_op(other, Op::Rt(Rt::Split), seq![a, b], h);
    let (v, g) = (d->Go_0, d->Go_1);
    assert(src_vals(bm, ins, r0, Srcs::S2(Src::In(0), Src::In(1))) =~= seq![a, b]);
    lemma_do(other, ps, 0, ins, r0, h, v, g);
    let r1 = r0.push(v);
    lemma_text(h, g, c, to);
    lemma_join(other, g, v, c, split_of(s, from), to);
    let e = machine_op(other, Op::Rt(Rt::Join), seq![v, c], g);
    assert(src_vals(bm, ins, r1, Srcs::S2(Src::Res(0), Src::In(2))) =~= seq![v, c]);
    lemma_do(other, ps, 1, ins, r1, g, e->Go_0, e->Go_1);
    let k = e->Go_1;
    assert forall|n: nat| #[trigger] h.blocks.contains_key(n) implies k.blocks.contains_key(n)
        && k.blocks[n] == h.blocks[n] by {
        assert(g.blocks.contains_key(n));
    }
}

/// `to_upper(s)` and `to_lower(s)` are new strings, with the case of letters changed.
pub proof fn cases_are_changed(
    other: Base<Word, Heap>,
    h: Heap,
    a: Word,
    s: Seq<u8>,
    upper: bool,
    t: Ty,
)
    requires
        is_heap(h),
        text_at(h, a) == Some(s),
    ensures
        ({
            let f = if upper {
                Builtin::ToUpper
            } else {
                Builtin::ToLower
            };
            value_of(on_machine(other), builtin_row(f, t), seq![a], h) matches Value::Is(v, g)
                && is_new_text(h, g, v, Seq::new(s.len(), |i: int| case_of(s[i], upper)))
        }),
{
    let f = if upper {
        Builtin::ToUpper
    } else {
        Builtin::ToLower
    };
    let args = seq![a, Word::Bit(upper)];
    assert(args =~= seq![a] + konsts(on_machine(other), seq![OpndV::Bool(upper)]));
    lemma_plain(other, f, t, seq![a], args, h);
    reveal(runtime_op);
    lemma_text(h, h, a, s);
    lemma_new_text(Seq::new(s.len(), |i: int| case_of(s[i], upper)), h);
}

/// `trim(s)` is a new string without the spaces at the ends of `s`.
pub proof fn ends_are_trimmed(other: Base<Word, Heap>, h: Heap, a: Word, s: Seq<u8>, t: Ty)
    requires
        is_heap(h),
        text_at(h, a) == Some(s),
    ensures
        value_of(on_machine(other), builtin_row(Builtin::Trim, t), seq![a], h) matches Value::Is(
            v,
            g,
        ) && is_new_text(h, g, v, trim_of(s)),
{
    let args = seq![a];
    assert(args =~= args + konsts(on_machine(other), seq![]));
    lemma_plain(other, Builtin::Trim, t, args, args, h);
    reveal(runtime_op);
    lemma_text(h, h, a, s);
    let start = spaces_end(s, 0);
    lemma_spaces_end(s, 0);
    lemma_spaces_start(s, start, s.len() as int);
    lemma_part_text(s, start, spaces_start(s, start, s.len() as int));
    lemma_new_text(trim_of(s), h);
}

/// `repeat(s, n)` is a new string of `s`, `n` times.
pub proof fn strings_are_repeated(
    other: Base<Word, Heap>,
    h: Heap,
    a: Word,
    s: Seq<u8>,
    n: i64,
    t: Ty,
)
    requires
        is_heap(h),
        text_at(h, a) == Some(s),
    ensures
        value_of(on_machine(other), builtin_row(Builtin::Repeat, t), seq![a, Word::Int(n)], h)
            matches Value::Is(v, g) && is_new_text(h, g, v, repeat_of(s, n as int)),
{
    let args = seq![a, Word::Int(n)];
    assert(args =~= args + konsts(on_machine(other), seq![]));
    lemma_plain(other, Builtin::Repeat, t, args, args, h);
    reveal(runtime_op);
    lemma_text(h, h, a, s);
    lemma_repeat_text(s, n as int);
    lemma_new_text(repeat_of(s, n as int), h);
}

/// `find(s, sub)` is where `sub` first occurs in `s`, or `-1`.
pub proof fn strings_are_found(
    other: Base<Word, Heap>,
    h: Heap,
    a: Word,
    b: Word,
    s: Seq<u8>,
    sub: Seq<u8>,
    t: Ty,
)
    requires
        text_at(h, a) == Some(s),
        text_at(h, b) == Some(sub),
        s.len() <= i64::MAX,
    ensures
        value_of(on_machine(other), builtin_row(Builtin::Find, t), seq![a, b], h) == Value::<
            Word,
            Heap,
        >::Is(
            Word::Int(
                match first_from(s, sub, 0) {
                    Some(i) => i as i64,
                    None => -1i64,
                },
            ),
            h,
        ),
{
    let args = seq![a, b];
    assert(args =~= args + konsts(on_machine(other), seq![]));
    lemma_plain(other, Builtin::Find, t, args, args, h);
    lemma_find(other, h, a, b, s, sub);
}

proof fn lemma_find(
    other: Base<Word, Heap>,
    h: Heap,
    a: Word,
    b: Word,
    s: Seq<u8>,
    sub: Seq<u8>,
)
    requires
        text_at(h, a) == Some(s),
        text_at(h, b) == Some(sub),
        s.len() <= i64::MAX,
    ensures
        machine_op(other, Op::Rt(Rt::Find), seq![a, b], h) == Done::<Word, Heap>::Go(
            Word::Int(
                match first_from(s, sub, 0) {
                    Some(i) => i as i64,
                    None => -1i64,
                },
            ),
            h,
        ),
{
    reveal(runtime_op);
    lemma_first_occurs(s, sub, 0);
    lemma_wrapped(-1);
    match first_from(s, sub, 0) {
        Some(i) => {
            lemma_wrapped(i);
        },
        None => {},
    }
}

/// `contains(s, sub)` tells whether `sub` occurs in `s`.
pub proof fn occurrences_are_told(
    other: Base<Word, Heap>,
    h: Heap,
    a: Word,
    b: Word,
    s: Seq<u8>,
    sub: Seq<u8>,
    t: Ty,
)
    requires
        text_at(h, a) == Some(s),
        text_at(h, b) == Some(sub),
        s.len() <= i64::MAX,
    ensures
        value_of(on_machine(other), builtin_row(Builtin::Contains, t), seq![a, b], h) == Value::<
            Word,
            Heap,
        >::Is(Word::Bit(exists|i: int| occurs_at(s, sub, i)), h),
{
    reveal(value_of);
    reveal(row);
    reveal(builtin_row);
    let ps = contains_row().parts;
    let ins = seq![a, b];
    let r0 = Seq::<Word>::empty();
    lemma_find(other, h, a, b, s, sub);
    contains_is_found(s, sub);
    lemma_first_occurs(s, sub, 0);
    let at = machine_op(other, Op::Rt(Rt::Find), ins, h)->Go_0;
    assert(src_vals(on_machine(other), ins, r0, Srcs::All(Seq::empty())) =~= ins);
    lemma_do(other, ps, 0, ins, r0, h, at, h);
    let there = Word::Bit(first_from(s, sub, 0) is Some);
    lemma_do(other, ps, 1, ins, r0.push(at), h, there, h);
}

/// `starts_with(s, affix)` and `ends_with(s, affix)` tell whether `affix` stands there.
pub proof fn affixes_are_told(
    other: Base<Word, Heap>,
    h: Heap,
    a: Word,
    b: Word,
    s: Seq<u8>,
    affix: Seq<u8>,
    at_end: bool,
    t: Ty,
)
    requires
        text_at(h, a) == Some(s),
        text_at(h, b) == Some(affix),
    ensures
        ({
            let f = if at_end {
                Builtin::EndsWith
            } else {
                Builtin::StartsWith
            };
            value_of(on_machine(other), builtin_row(f, t), seq![a, b], h) == Value::<
                Word,
                Heap,
            >::Is(Word::Bit(affix_of(s, affix, at_end)), h)
        }),
{
    let f = if at_end {
        Builtin::EndsWith
    } else {
        Builtin::StartsWith
    };
    let args = seq![a, b, Word::Bit(at_end)];
    assert(args =~= seq![a, b] + konsts(on_machine(other), seq![OpndV::Bool(at_end)]));
    lemma_plain(other, f, t, seq![a, b], args, h);
    reveal(runtime_op);
}

/// `is_int(s)` and `is_float(s)` tell whether all of `s` writes out a number.
pub proof fn numbers_are_told(
    other: Base<Word, Heap>,
    h: Heap,
    a: Word,
    s: Seq<u8>,
    t: Ty,
)
    requires
        text_at(h, a) == Some(s),
    ensures
        value_of(on_machine(other), builtin_row(Builtin::IsInt, t), seq![a], h) == Value::<
            Word,
            Heap,
        >::Is(Word::Bit(int_of(s) is Some), h),
        value_of(on_machine(other), builtin_row(Builtin::IsFloat, t), seq![a], h) == Value::<
            Word,
            Heap,
        >::Is(Word::Bit(writes_fraction(s)), h),
{
    let args = seq![a];
    assert(args =~= args + konsts(on_machine(other), seq![]));
    lemma_plain(other, Builtin::IsInt, t, args, args, h);
    lemma_plain(other, Builtin::IsFloat, t, args, args, h);
    reveal(runtime_op);
}

/// `int(s)` is the number that all of `s` writes out; where it writes out none, the program
/// ends.
pub proof fn strings_become_numbers(
    other: Base<Word, Heap>,
    h: Heap,
    a: Word,
    s: Seq<u8>,
    t: Ty,
)
    requires
        text_at(h, a) == Some(s),
        t is Str,
    ensures
        value_of(on_machine(other), convert_row(true, t), seq![a], h) == match int_of(s) {
            Some(n) => Value::Is(Word::Int(n as i64), h),
            None => Value::Stop(h),
        },
{
    reveal(value_of);
    reveal(row);
    reveal(single);
    reveal(runtime_op);
    let ps = convert_row(true, t).parts;
    let ins = seq![a];
    match int_of(s) {
        Some(n) => {
            lemma_wrapped(n);
            lemma_do(other, ps, 0, ins, Seq::empty(), h, Word::Int(n as i64), h);
        },
        None => {},
    }
}

/// A one and so many zeros.
pub open spec fn tens(d: nat) -> nat
    decreases d,
{
    if d == 0 {
        1
    } else {
        10 * tens((d - 1) as nat)
    }
}

proof fn lemma_digits(n: nat, d: nat)
    requires
        d > 0,
        n < tens(d),
    ensures
        1 <= digits_of(n).len() <= d,
        is_text(digits_of(n)),
    decreases n,
{
    if n >= 10 {
        if d == 1 {
            assert(tens(0) == 1);
        }
        lemma_digits(n / 10, (d - 1) as nat);
    }
}

proof fn lemma_number_text(n: i64)
    ensures
        1 <= text_of(n as int).len() <= 20,
        is_text(text_of(n as int)),
{
    reveal_with_fuel(tens, 20);
    if n < 0 {
        lemma_digits((-n) as nat, 19);
        lemma_add_text(seq![45u8], digits_of((-n) as nat));
    } else {
        lemma_digits(n as nat, 19);
    }
}

/// `str(n)` of an integer is a new string that writes it out.
pub proof fn numbers_become_strings(other: Base<Word, Heap>, h: Heap, n: i64, t: Ty)
    requires
        is_heap(h),
        t is Int,
    ensures
        value_of(on_machine(other), text_row(t), seq![Word::Int(n)], h) matches Value::Is(v, g)
            && is_new_text(h, g, v, text_of(n as int)),
{
    reveal(value_of);
    reveal(row);
    let ps = text_row(t).parts;
    let ins = seq![Word::Int(n)];
    let k = h.next;
    let v = Word::At(k, 0);
    let h1 = Heap {
        blocks: h.blocks.insert(k, Block::Bytes(Seq::new(32, |i: int| 0u8))),
        next: k + 1,
    };
    let s = text_of(n as int);
    let r0 = Seq::<Word>::empty();
    lemma_do(other, ps, 0, ins, r0, h, v, h1);
    lemma_number_text(n);
    assert(bytes(h1, k) is Some);
    lemma_written(h1, k, 0, s, Seq::empty());
    assert(Seq::<u8>::empty() + s =~= s);
    let g = written(h1, k, 0, s)->0;
    assert(machine_op(other, Op::Rt(Rt::FormatInt), seq![v, Word::Int(32), ins[0]], h1) == Done::Go(
        v,
        g,
    )) by {
        reveal(runtime_op);
    }
    lemma_do(other, ps, 1, ins, r0.push(v), h1, v, g);
}

/// `int(str(n))` is `n`.
pub proof fn numbers_are_read_back(other: Base<Word, Heap>, h: Heap, n: i64, t: Ty, u: Ty)
    requires
        is_heap(h),
        t is Int,
        u is Str,
    ensures
        value_of(on_machine(other), text_row(t), seq![Word::Int(n)], h) matches Value::Is(v, g)
            && value_of(on_machine(other), convert_row(true, u), seq![v], g) == Value::Is(
            Word::Int(n),
            g,
        ),
{
    numbers_become_strings(other, h, n, t);
    let r = value_of(on_machine(other), text_row(t), seq![Word::Int(n)], h);
    strings_become_numbers(other, r->Is_1, r->Is_0, text_of(n as int), u);
    int_round_trip(n);
}

/// A line that was read loses its line feed and what is behind it.
pub proof fn lines_lose_their_feed(other: Base<Word, Heap>, h: Heap, a: Word, s: Seq<u8>)
    requires
        is_heap(h),
        text_at(h, a) == Some(s),
        s.len() <= i64::MAX,
    ensures
        row(on_machine(other), chomp_row(), seq![a], h) matches RowEnd::Done(_, g) && text_at(g, a)
            == Some(
            match first_from(s, seq![10u8], 0) {
                Some(i) => s.subrange(0, i),
                None => s,
            },
        ) && is_heap(g) && kept_but(h, g, set![a->At_0]),
{
    reveal(row);
    reveal(chomp_row);
    let ps = chomp_row();
    let ins = seq![a];
    let k = a->At_0;
    let at = a->At_1;
    let all = bytes(h, k)->0;
    let pos = match first_from(s, seq![10u8], 0) {
        Some(i) => i,
        None => s.len() as int,
    };
    lemma_first_occurs(s, seq![10u8], 0);
    lemma_zero_from(all, at);
    lemma_wrapped(pos);
    let g = with_bytes(h, k, all.update(at + pos, 0u8));
    let r0 = Seq::<Word>::empty();
    let r1 = r0.push(Word::Int(pos as i64));
    let r2 = r1.push(Word::At(k, at + pos));
    assert(machine_op(other, Op::Rt(Rt::NewlinePos), seq![a], h) == Done::<Word, Heap>::Go(
        Word::Int(pos as i64),
        h,
    )) by {
        reveal(runtime_op);
    }
    lemma_do(other, ps, 0, ins, r0, h, r1.last(), h);
    lemma_do(other, ps, 1, ins, r1, h, r2.last(), h);
    lemma_do(other, ps, 2, ins, r2, h, Word::Int(0), g);
    let new = all.update(at + pos, 0u8);
    assert(bytes(g, k) == Some(new));
    lemma_zero_is(new, at, at + pos);
    assert(new.subrange(at, at + pos) =~= s.subrange(0, pos));
    assert(s.subrange(0, s.len() as int) =~= s);
}

} // verus!
