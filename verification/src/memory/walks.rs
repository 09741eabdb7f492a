//! What becomes of walks through arrays.
use vstd::prelude::*;
#[allow(unused_imports)]
use crate::ast::{ExprKindV, ExprV, ProgramV, StmtV};
#[allow(unused_imports)]
use crate::builtins::{builtin_named, Builtin};
#[allow(unused_imports)]
use crate::faithful::anatomy::{sense, sense_of_call, sense_of_checked, type_at};
#[allow(unused_imports)]
use crate::faithful::stmt_anatomy::{
    each_slots, each_start, item_ty, items_sense, keys_row, lemma_tenv_push, parts_of_each,
    parts_of_small, parts_of_stmts, sense_of_each, sense_of_small, sense_of_stmts, sole, stmt_at,
    stmt_ok, stmt_sense, stmts_ok, stmts_sense, with_var,
};
#[allow(unused_imports)]
use crate::ir::{basic_ty, IrTy};
#[allow(unused_imports)]
use crate::lowering::{tenv, Gen, VarV};
#[allow(unused_imports)]
use crate::meaning::{
    cut, item_row, items, pushed, row, stmt, stmts, value_of, var_index, After, Base, Names, Value,
};
#[allow(unused_imports)]
use crate::memory::arrays::{
    data_block, head_block, is_array, len_counts_elements, push_appends, room,
};
#[allow(unused_imports)]
use crate::memory::heap::{lemma_do, lemma_wrapped, on_machine, slots, Heap, Word};
#[allow(unused_imports)]
use crate::memory::objects::null_is_caught;
#[allow(unused_imports)]
use crate::types::Ty;
#[allow(unused_imports)]
use crate::typing::{check_stmt, item_type, looped, type_of, variant_named, Place};

verus! {

/// The elements `xs` stand at the start of an array.
pub open spec fn starts_with(h: Heap, a: Word, xs: Seq<Word>) -> bool {
    exists|ys: Seq<Word>| #[trigger] is_array(h, a, ys) && is_start(xs, ys) && room(h, a) * 8
        <= i64::MAX
}

/// `ys` starts with `xs`.
pub open spec fn is_start(xs: Seq<Word>, ys: Seq<Word>) -> bool {
    xs.len() <= ys.len() && ys.take(xs.len() as int) == xs
}

/// The element that a walk is at is read, wherever the data of the array is by then.
pub proof fn items_are_read(
    other: Base<Word, Heap>,
    h: Heap,
    a: Word,
    xs: Seq<Word>,
    i: i64,
    ty: IrTy,
)
    requires
        starts_with(h, a, xs),
        0 <= i < xs.len(),
    ensures
        value_of(on_machine(other), item_row(ty), seq![a, Word::Int(i)], h) == Value::Is(
            xs[i as int],
            h,
        ),
{
    reveal(value_of);
    reveal(row);
    reveal(item_row);
    let ys = choose|ys: Seq<Word>| #[trigger]
        is_array(h, a, ys) && is_start(xs, ys) && room(h, a) * 8 <= i64::MAX;
    let ps = item_row(ty).parts;
    let ins = seq![a, Word::Int(i)];
    let k = head_block(a);
    let d = data_block(h, a);
    let r0 = Seq::<Word>::empty();
    let r1 = r0.push(Word::At(k, 16));
    let r2 = r1.push(Word::At(d, 0));
    let r3 = r2.push(Word::Int((i * 8) as i64));
    let r4 = r3.push(Word::At(d, i * 8));
    assert(ys.take(xs.len() as int)[i as int] == ys[i as int]);
    assert(slots(h, d)->0.take(ys.len() as int)[i as int] == ys[i as int]);
    lemma_do(other, ps, 0, ins, r0, h, r1.last(), h);
    lemma_do(other, ps, 1, ins, r1, h, r2.last(), h);
    lemma_wrapped(i * 8);
    lemma_do(other, ps, 2, ins, r2, h, r3.last(), h);
    lemma_do(other, ps, 3, ins, r3, h, r4.last(), h);
    lemma_do(other, ps, 4, ins, r4, h, xs[i as int], h);
}

/// What comes of the body of a walk in one turn.
#[verifier::opaque]
pub open spec fn turn(
    other: Base<Word, Heap>,
    p: ProgramV,
    names: Names,
    vals: Seq<Word>,
    s: StmtV,
    x: Word,
    h: Heap,
    fuel: nat,
) -> Option<After<Word, Heap>> {
    let t = item_type(p, names, s.kind->ForIn_iter)->Ok_0;
    cut(
        stmts(
            on_machine(other),
            p,
            names.push((s.kind->ForIn_var, t)),
            vals.push(x),
            s.kind->ForIn_body,
            0,
            h,
            fuel,
        ),
        vals.len(),
    )
}

/// One turn for each of the elements `xs` from `i` on, in their order.
pub open spec fn turns_for(
    other: Base<Word, Heap>,
    p: ProgramV,
    names: Names,
    vals: Seq<Word>,
    s: StmtV,
    xs: Seq<Word>,
    i: nat,
    h: Heap,
    fuel: nat,
) -> Option<After<Word, Heap>>
    decreases fuel,
{
    if fuel == 0 {
        None
    } else if i >= xs.len() {
        Some(After::Next(vals, h))
    } else {
        match turn(other, p, names, vals, s, xs[i as int], h, fuel) {
            Some(After::Next(vals2, h2)) => turns_for(
                other,
                p,
                names,
                vals2,
                s,
                xs,
                i + 1,
                h2,
                (fuel - 1) as nat,
            ),
            Some(After::Cont(vals2, h2)) => turns_for(
                other,
                p,
                names,
                vals2,
                s,
                xs,
                i + 1,
                h2,
                (fuel - 1) as nat,
            ),
            Some(After::Brk(vals2, h2)) => Some(After::Next(vals2, h2)),
            end => end,
        }
    }
}

/// Whatever a turn does to an array that starts with `xs`, it still does where the turn is
/// over and the walk goes on.
pub open spec fn turn_keeps(
    other: Base<Word, Heap>,
    p: ProgramV,
    names: Names,
    s: StmtV,
    a: Word,
    xs: Seq<Word>,
) -> bool {
    forall|vals: Seq<Word>, x: Word, h: Heap, fuel: nat|
        starts_with(h, a, xs) ==> match #[trigger] turn(other, p, names, vals, s, x, h, fuel) {
            Some(After::Next(_, h2)) => starts_with(h2, a, xs),
            Some(After::Cont(_, h2)) => starts_with(h2, a, xs),
            _ => true,
        }
}

/// What the turns of a walk come to.
#[verifier::opaque]
spec fn walked(
    other: Base<Word, Heap>,
    p: ProgramV,
    names: Names,
    vals: Seq<Word>,
    s: StmtV,
    len: Word,
    a: Word,
    i: Word,
    h: Heap,
    fuel: nat,
) -> Option<After<Word, Heap>> {
    items(on_machine(other), p, names, vals, s, len, a, i, h, fuel)
}

/// The next turn, or the end.
proof fn lemma_walked(
    other: Base<Word, Heap>,
    p: ProgramV,
    names: Names,
    vals: Seq<Word>,
    s: StmtV,
    n: i64,
    a: Word,
    i: i64,
    h: Heap,
    fuel: nat,
)
    requires
        s.kind is ForIn,
        0 <= i <= n,
        fuel > 0,
    ensures
        ({
            let ty = basic_ty(item_type(p, names, s.kind->ForIn_iter)->Ok_0);
            let less = (fuel - 1) as nat;
            let len = Word::Int(n);
            let now = walked(other, p, names, vals, s, len, a, Word::Int(i), h, fuel);
            &&& i == n ==> now == Some(After::Next(vals, h))
            &&& i < n ==> (value_of(on_machine(other), item_row(ty), seq![a, Word::Int(i)], h) matches
                Value::Is(x, h1) ==> now == match turn(other, p, names, vals, s, x, h1, fuel) {
                Some(After::Next(vals2, h2)) => walked(
                    other,
                    p,
                    names,
                    vals2,
                    s,
                    len,
                    a,
                    Word::Int((i + 1) as i64),
                    h2,
                    less,
                ),
                Some(After::Cont(vals2, h2)) => walked(
                    other,
                    p,
                    names,
                    vals2,
                    s,
                    len,
                    a,
                    Word::Int((i + 1) as i64),
                    h2,
                    less,
                ),
                Some(After::Brk(vals2, h2)) => Some(After::Next(vals2, h2)),
                end => end,
            })
        }),
{
    reveal(walked);
    reveal(turn);
    if i < n {
        lemma_wrapped(i + 1);
    }
}

/// A walk through an array takes one turn for each element that the array has when the walk
/// starts, in their order, whatever the body adds to the array.
pub proof fn walks_take_the_elements(
    other: Base<Word, Heap>,
    p: ProgramV,
    names: Names,
    vals: Seq<Word>,
    s: StmtV,
    a: Word,
    xs: Seq<Word>,
    i: i64,
    h: Heap,
    fuel: nat,
)
    requires
        s.kind is ForIn,
        starts_with(h, a, xs),
        turn_keeps(other, p, names, s, a, xs),
        0 <= i <= xs.len(),
    ensures
        items(
            on_machine(other),
            p,
            names,
            vals,
            s,
            Word::Int(xs.len() as i64),
            a,
            Word::Int(i),
            h,
            fuel,
        ) == turns_for(other, p, names, vals, s, xs, i as nat, h, fuel),
    decreases fuel,
{
    let n = xs.len() as i64;
    let ys = choose|ys: Seq<Word>| #[trigger]
        is_array(h, a, ys) && is_start(xs, ys) && room(h, a) * 8 <= i64::MAX;
    assert(xs.len() <= room(h, a));
    assert(n == xs.len());
    lemma_opened(other, p, names, vals, s, n, a, i, h, fuel);
    if fuel > 0 {
        let ty = basic_ty(item_type(p, names, s.kind->ForIn_iter)->Ok_0);
        lemma_walked(other, p, names, vals, s, n, a, i, h, fuel);
        if i < n {
            items_are_read(other, h, a, xs, i, ty);
            let x = xs[i as int];
            let less = (fuel - 1) as nat;
            match turn(other, p, names, vals, s, x, h, fuel) {
                Some(After::Next(vals2, h2)) => {
                    walks_take_the_elements(
                        other,
                        p,
                        names,
                        vals2,
                        s,
                        a,
                        xs,
                        (i + 1) as i64,
                        h2,
                        less,
                    );
                    lemma_opened(other, p, names, vals2, s, n, a, (i + 1) as i64, h2, less);
                },
                Some(After::Cont(vals2, h2)) => {
                    walks_take_the_elements(
                        other,
                        p,
                        names,
                        vals2,
                        s,
                        a,
                        xs,
                        (i + 1) as i64,
                        h2,
                        less,
                    );
                    lemma_opened(other, p, names, vals2, s, n, a, (i + 1) as i64, h2, less);
                },
                _ => {},
            }
        }
    } else {
        reveal(walked);
    }
}

proof fn lemma_opened(
    other: Base<Word, Heap>,
    p: ProgramV,
    names: Names,
    vals: Seq<Word>,
    s: StmtV,
    n: i64,
    a: Word,
    i: i64,
    h: Heap,
    fuel: nat,
)
    ensures
        items(
            on_machine(other),
            p,
            names,
            vals,
            s,
            Word::Int(n),
            a,
            Word::Int(i),
            h,
            fuel,
        ) == walked(other, p, names, vals, s, Word::Int(n), a, Word::Int(i), h, fuel),
{
    reveal(walked);
}

/// `push` leaves the elements at the start of an array where they are.
pub proof fn pushing_keeps_the_start(
    other: Base<Word, Heap>,
    h: Heap,
    a: Word,
    xs: Seq<Word>,
    x: Word,
)
    requires
        starts_with(h, a, xs),
        room(h, a) * 16 <= i64::MAX,
    ensures
        pushed(on_machine(other), a, x, h) matches Value::Is(v, g) && v == a && starts_with(
            g,
            a,
            xs,
        ),
{
    let ys = choose|ys: Seq<Word>| #[trigger]
        is_array(h, a, ys) && is_start(xs, ys) && room(h, a) * 8 <= i64::MAX;
    push_appends(other, h, a, ys, x);
    let g = pushed(on_machine(other), a, x, h)->Is_1;
    assert(ys.push(x).take(xs.len() as int) =~= ys.take(xs.len() as int));
    assert(is_array(g, a, ys.push(x)) && is_start(xs, ys.push(x)) && room(g, a) * 8 <= i64::MAX);
}

// Walks that push.

/// `for (v in c) { push(c, v); }`
pub open spec fn is_pushing(s: StmtV, c: Seq<char>, v: Seq<char>) -> bool {
    &&& s.kind is ForIn
    &&& s.kind->ForIn_var == v
    &&& s.kind->ForIn_iter.kind == ExprKindV::Var(c)
    &&& s.kind->ForIn_body.len() == 1
    &&& s.kind->ForIn_body[0].kind is ExprStmt
    &&& is_push(s.kind->ForIn_body[0].kind->ExprStmt_0, c, v)
}

/// `push(c, v)`
pub open spec fn is_push(e: ExprV, c: Seq<char>, v: Seq<char>) -> bool {
    &&& e.kind is Call
    &&& e.kind->Call_name == "push"@
    &&& e.kind->Call_args.len() == 2
    &&& e.kind->Call_args[0].kind == ExprKindV::Var(c)
    &&& e.kind->Call_args[1].kind == ExprKindV::Var(v)
}

proof fn lemma_var(
    other: Base<Word, Heap>,
    p: ProgramV,
    vars: Seq<VarV>,
    vals: Seq<Word>,
    e: ExprV,
    n: Seq<char>,
    h: Heap,
)
    requires
        e.kind == ExprKindV::Var(n),
        variant_named(p, n) is None,
    ensures
        sense(on_machine(other), p, vars, vals, e, h) == Value::Is(
            vals[var_index(tenv(vars), n)],
            h,
        ),
{
    reveal(sense);
}

proof fn lemma_push_named()
    ensures
        builtin_named("push"@) == Some(Builtin::Push),
{
    reveal_strlit("push");
    reveal_strlit("int");
    reveal_strlit("float");
    reveal_strlit("len");
    reveal_strlit("str");
    reveal_strlit("chr");
    reveal_strlit("read_line");
    assert("float"@.len() == 5 && "int"@.len() == 3 && "len"@.len() == 3 && "str"@.len() == 3
        && "chr"@.len() == 3 && "read_line"@.len() == 9 && "push"@.len() == 4);
}

/// One turn of a walk that pushes.
proof fn lemma_push_turn(
    other: Base<Word, Heap>,
    cx: Place,
    vars: Seq<VarV>,
    vals: Seq<Word>,
    s: StmtV,
    c: Seq<char>,
    v: Seq<char>,
    a: Word,
    ys: Seq<Word>,
    x: Word,
    h: Heap,
    fuel: nat,
)
    requires
        is_pushing(s, c, v),
        stmt_ok(cx, vars, s),
        c != v,
        variant_named(cx.prog, c) is None,
        variant_named(cx.prog, v) is None,
        vals.len() == vars.len(),
        0 <= var_index(tenv(vars), c) < vars.len(),
        vals[var_index(tenv(vars), c)] == a,
        is_array(h, a, ys),
        room(h, a) * 16 <= i64::MAX,
    ensures
        turn(other, cx.prog, tenv(vars), vals, s, x, h, fuel) == Some(
            After::Next(vals, pushed(on_machine(other), a, x, h)->Is_1),
        ),
        pushed(on_machine(other), a, x, h) is Is,
{
    let p = cx.prog;
    let b = on_machine(other);
    let g0 = Gen { code: Seq::empty(), regs: Seq::empty(), slots: Seq::empty() };
    let t = item_ty(p, vars, sole(s));
    let slot = each_slots(each_start(p, vars, g0, s).0, basic_ty(t)).2;
    let inside = with_var(vars, v, slot, t);
    let body = s.kind->ForIn_body;
    let e = sole(body[0]);
    let args = e.kind->Call_args;
    let more = vals.push(x);
    parts_of_each(cx, vars, g0, s);
    lemma_tenv_push(vars, v, slot, t);
    assert(tenv(inside).drop_last() =~= tenv(vars));
    assert(var_index(tenv(inside), c) == var_index(tenv(vars), c));
    assert(var_index(tenv(inside), v) == vars.len());
    lemma_push_named();
    lemma_var(other, p, inside, more, args[0], c, h);
    lemma_var(other, p, inside, more, args[1], v, h);
    null_is_caught(other, h, a);
    push_appends(other, h, a, ys, x);
    sense_of_call(b, p, inside, more, e, h);
    sense_of_checked(b, p, inside, more, "push"@, args, Builtin::Push, h);
    let g = pushed(b, a, x, h)->Is_1;
    assert(sense(b, p, inside, more, e, h) == Value::Is(a, g));
    sense_of_small(b, p, inside, more, body[0], h, fuel);
    sense_of_stmts(b, looped(cx), inside, more, g0, body, 0, h, fuel);
    assert(stmts_ok(looped(cx), inside, body, 0));
    parts_of_stmts(looped(cx), inside, g0, body, 0);
    parts_of_small(looped(cx), inside, g0, body[0]);
    let after = stmt_at(p, inside, g0, body[0]).1;
    sense_of_stmts(b, looped(cx), after, more, g0, body, 1, g, fuel);
    assert(stmts_sense(b, p, inside, more, body, 0, h, fuel) == Some(After::Next(more, g)));
    assert(more.take(vals.len() as int) =~= vals);
    reveal(turn);
    reveal(stmts_sense);
    reveal(item_ty);
}

/// The turns of a walk that pushes, from `i` on.
proof fn lemma_push_turns(
    other: Base<Word, Heap>,
    cx: Place,
    vars: Seq<VarV>,
    vals: Seq<Word>,
    s: StmtV,
    c: Seq<char>,
    v: Seq<char>,
    a: Word,
    xs: Seq<Word>,
    i: i64,
    h: Heap,
    fuel: nat,
)
    requires
        is_pushing(s, c, v),
        stmt_ok(cx, vars, s),
        c != v,
        variant_named(cx.prog, c) is None,
        variant_named(cx.prog, v) is None,
        vals.len() == vars.len(),
        0 <= var_index(tenv(vars), c) < vars.len(),
        vals[var_index(tenv(vars), c)] == a,
        0 <= i <= xs.len(),
        is_array(h, a, xs + xs.take(i as int)),
        room(h, a) * 16 <= i64::MAX,
        xs.len() * 64 + 64 <= i64::MAX,
        fuel > xs.len() - i,
    ensures
        walked(
            other,
            cx.prog,
            tenv(vars),
            vals,
            s,
            Word::Int(xs.len() as i64),
            a,
            Word::Int(i),
            h,
            fuel,
        ) matches Some(After::Next(vals2, g)) && vals2 == vals && is_array(g, a, xs + xs),
    decreases xs.len() - i,
{
    let p = cx.prog;
    let names = tenv(vars);
    let n = xs.len() as i64;
    let ys = xs + xs.take(i as int);
    lemma_walked(other, p, names, vals, s, n, a, i, h, fuel);
    if i < n {
        let x = xs[i as int];
        let ty = basic_ty(item_type(p, names, s.kind->ForIn_iter)->Ok_0);
        assert(ys.take(n as int) =~= xs);
        assert(is_array(h, a, ys) && is_start(xs, ys));
        items_are_read(other, h, a, xs, i, ty);
        lemma_push_turn(other, cx, vars, vals, s, c, v, a, ys, x, h, fuel);
        push_appends(other, h, a, ys, x);
        let g = pushed(on_machine(other), a, x, h)->Is_1;
        assert(ys.push(x) =~= xs + xs.take(i + 1));
        assert(room(g, a) * 16 <= i64::MAX);
        lemma_push_turns(
            other,
            cx,
            vars,
            vals,
            s,
            c,
            v,
            a,
            xs,
            (i + 1) as i64,
            g,
            (fuel - 1) as nat,
        );
    } else {
        assert(xs.take(n as int) =~= xs);
    }
}

/// `for (v in c) { push(c, v); }` takes one turn for each element that the array has at the
/// start, and leaves it with these elements twice: the walk neither meets what it adds nor
/// loses what it walks through when the array moves.
pub proof fn walks_that_push_end(
    other: Base<Word, Heap>,
    cx: Place,
    vars: Seq<VarV>,
    vals: Seq<Word>,
    s: StmtV,
    c: Seq<char>,
    v: Seq<char>,
    a: Word,
    xs: Seq<Word>,
    h: Heap,
    fuel: nat,
)
    requires
        is_pushing(s, c, v),
        check_stmt(cx, tenv(vars), s) is Ok,
        c != v,
        variant_named(cx.prog, c) is None,
        variant_named(cx.prog, v) is None,
        type_of(cx.prog, tenv(vars), s.kind->ForIn_iter) matches Ok(Ty::Array(_)),
        vals.len() == vars.len(),
        0 <= var_index(tenv(vars), c) < vars.len(),
        vals[var_index(tenv(vars), c)] == a,
        is_array(h, a, xs),
        room(h, a) * 16 <= i64::MAX,
        xs.len() * 64 + 64 <= i64::MAX,
        fuel > xs.len(),
    ensures
        stmt(on_machine(other), cx.prog, tenv(vars), vals, s, h, fuel) matches Some(
            After::Next(vals2, g),
        ) && vals2 == vals && is_array(g, a, xs + xs),
{
    let p = cx.prog;
    let b = on_machine(other);
    let zero = Word::Int(0);
    assert(stmt_ok(cx, vars, s)) by {
        reveal(stmt_ok);
    }
    assert(xs + xs.take(0) =~= xs);
    lemma_push_turns(other, cx, vars, vals, s, c, v, a, xs, 0, h, fuel);
    sense_of_each(b, p, vars, vals, s, h, fuel);
    lemma_var(other, p, vars, vals, sole(s), c, h);
    null_is_caught(other, h, a);
    assert(value_of(b, keys_row(type_at(p, vars, sole(s))), seq![a], h) == Value::Is(a, h)) by {
        reveal(type_at);
        reveal(keys_row);
        reveal(value_of);
        reveal(row);
    }
    len_counts_elements(other, h, a, xs, Ty::Null);
    reveal(walked);
    reveal(items_sense);
    reveal(stmt_sense);
}

} // verus!
