//! What it takes that code does what something means.
use vstd::prelude::*;
#[allow(unused_imports)]
use crate::ast::ProgramV;
#[allow(unused_imports)]
use crate::faithful::anatomy::{null_at, store_at};
#[allow(unused_imports)]
use crate::faithful::machine::{
    all_known, begins, extends, go, holds, keeps, known, lemma_begins, lemma_extends, lemma_keeps,
    lemma_known, lemma_last, lemma_placed, lemma_placed_row, lemma_row_from, lemma_src,
    lemma_val_kept, machine, opnd_val, parts_ok, placed, placed_row, State,
};
#[allow(unused_imports)]
use crate::faithful::rowcode::{
    append, chomp, code_append, code_chomp, code_grow, code_line, code_null, code_room, code_store,
    code_variant, grow, line_start, room, row_ok,
};
#[allow(unused_imports)]
use crate::faithful::shapes::{lemma_line_parts, lemma_payload_shape, lemma_push_parts};
#[allow(unused_imports)]
use crate::flow::{run, Out};
#[allow(unused_imports)]
use crate::ir::{CodeV, OpndV};
#[allow(unused_imports)]
use crate::lowering::{
    build_variant, inner, max_arity, push_value, read_line, store_payload, store_slot, then_code,
    Gen, VarV,
};
#[allow(unused_imports)]
use crate::meaning::{
    append_row, appended, chomp_row, fill, grow_row, line, line_row, null_row, pushed, room_row,
    row, store_row, value_of, variant, variant_row, Base, Done, Part, Row, RowEnd, Value,
};
#[allow(unused_imports)]
use crate::typing::{variant_home, variant_index};

verus! {


/// The run goes from the end of `g` to the end of `h`, and leaves what `g` has.
pub open spec fn moves<V, W>(
    b: Base<V, W>,
    cs: Seq<CodeV>,
    g: Gen,
    h: Gen,
    s: State<V, W>,
    t: State<V, W>,
    fuel: nat,
) -> bool {
    go(b, cs, g.code.len(), s, fuel) == go(b, cs, h.code.len(), t, fuel) && keeps(s, t, g)
}

/// The run ends with a message.
pub open spec fn halts<V, W>(
    b: Base<V, W>,
    cs: Seq<CodeV>,
    g: Gen,
    s: State<V, W>,
    t: State<V, W>,
    fuel: nat,
    msg: Seq<char>,
    w: W,
) -> bool {
    go(b, cs, g.code.len(), s, fuel) == Some(Out::Halt(t, msg)) && t.w == w
}

/// The run ends in an operation.
pub open spec fn stops<V, W>(
    b: Base<V, W>,
    cs: Seq<CodeV>,
    g: Gen,
    s: State<V, W>,
    t: State<V, W>,
    fuel: nat,
    w: W,
) -> bool {
    go(b, cs, g.code.len(), s, fuel) == Some(Out::Stop(t)) && t.w == w
}

/// From the end of `g`, the run does what `v` says, and has its value in an operand.
pub open spec fn lands<V, W>(
    b: Base<V, W>,
    cs: Seq<CodeV>,
    g: Gen,
    r: (Gen, OpndV),
    s: State<V, W>,
    t: State<V, W>,
    fuel: nat,
    v: Value<V, W>,
) -> bool {
    match v {
        Value::Is(x, w) => moves(b, cs, g, r.0, s, t, fuel) && t.w == w && opnd_val(b, t, r.1)
            == x,
        Value::Halt(msg, w) => halts(b, cs, g, s, t, fuel, msg, w),
        Value::Stop(w) => stops(b, cs, g, s, t, fuel, w),
    }
}

/// From the end of `g`, the run does what a row does.
pub open spec fn lands_row<V, W>(
    b: Base<V, W>,
    cs: Seq<CodeV>,
    g: Gen,
    h: Gen,
    s: State<V, W>,
    t: State<V, W>,
    fuel: nat,
    e: RowEnd<V, W>,
) -> bool {
    match e {
        RowEnd::Done(res, w) => {
            &&& moves(b, cs, g, h, s, t, fuel)
            &&& t.w == w
            &&& t.vars == s.vars
            &&& h.regs.len() == g.regs.len() + res.len()
            &&& forall|k: nat| k < res.len() ==> #[trigger] t.regs[g.regs.len() + k] == res[k as int]
        },
        RowEnd::Halt(msg, w) => halts(b, cs, g, s, t, fuel, msg, w),
        RowEnd::Stop(w) => stops(b, cs, g, s, t, fuel, w),
    }
}

/// The variables of the program have these values.
#[verifier::opaque]
pub open spec fn env_ok<V, W>(vars: Seq<VarV>, g: Gen, s: State<V, W>, vals: Seq<V>) -> bool {
    &&& vals.len() == vars.len()
    &&& forall|i: int|
        0 <= i < vars.len() ==> (#[trigger] vars[i]).slot < g.slots.len() && s.vars[vars[i].slot as nat]
            == vals[i]
}

pub proof fn lemma_env_kept<V, W>(
    vars: Seq<VarV>,
    g: Gen,
    h: Gen,
    s: State<V, W>,
    t: State<V, W>,
    vals: Seq<V>,
)
    requires
        env_ok(vars, g, s, vals),
        keeps(s, t, g),
        g.slots.len() <= h.slots.len(),
    ensures
        env_ok(vars, h, t, vals),
{
    reveal(env_ok);
    reveal(keeps);
    assert forall|i: int| 0 <= i < vars.len() implies (#[trigger] vars[i]).slot < h.slots.len()
        && t.vars[vars[i].slot as nat] == vals[i] by {
        assert(t.vars[vars[i].slot as nat] == s.vars[vars[i].slot as nat]);
    }
}

/// The values of operands.
pub open spec fn are<V, W>(b: Base<V, W>, s: State<V, W>, os: Seq<OpndV>, vs: Seq<V>) -> bool {
    &&& os.len() == vs.len()
    &&& forall|i: int| 0 <= i < os.len() ==> opnd_val(b, s, #[trigger] os[i]) == vs[i]
}

pub proof fn lemma_are_kept<V, W>(
    b: Base<V, W>,
    g: Gen,
    s: State<V, W>,
    t: State<V, W>,
    os: Seq<OpndV>,
    vs: Seq<V>,
)
    requires
        are(b, s, os, vs),
        all_known(os, g),
        keeps(s, t, g),
    ensures
        are(b, t, os, vs),
{
    assert forall|i: int| 0 <= i < os.len() implies opnd_val(b, t, #[trigger] os[i]) == vs[i] by {
        assert(known(os[i], g));
        lemma_val_kept(b, s, t, g, os[i]);
    }
}

pub proof fn lemma_self_moves<V, W>(b: Base<V, W>, cs: Seq<CodeV>, g: Gen, s: State<V, W>, fuel: nat)
    ensures
        moves(b, cs, g, g, s, s, fuel),
{
    reveal(keeps);
}

pub proof fn lemma_moves<V, W>(
    b: Base<V, W>,
    cs: Seq<CodeV>,
    f: Gen,
    g: Gen,
    h: Gen,
    s: State<V, W>,
    t: State<V, W>,
    u: State<V, W>,
    fuel: nat,
)
    requires
        moves(b, cs, f, g, s, t, fuel),
        moves(b, cs, g, h, t, u, fuel),
        extends(f, g),
    ensures
        moves(b, cs, f, h, s, u, fuel),
{
    lemma_keeps(s, t, u, f, g);
}

/// What is done after a run that goes on.
pub proof fn lemma_then<V, W>(
    b: Base<V, W>,
    cs: Seq<CodeV>,
    g: Gen,
    h: Gen,
    r: (Gen, OpndV),
    s: State<V, W>,
    t: State<V, W>,
    u: State<V, W>,
    fuel: nat,
    v: Value<V, W>,
)
    requires
        moves(b, cs, g, h, s, t, fuel),
        extends(g, h),
        lands(b, cs, h, r, t, u, fuel, v),
    ensures
        lands(b, cs, g, r, s, u, fuel, v),
{
    if v is Is {
        lemma_moves(b, cs, g, h, r.0, s, t, u, fuel);
    }
}

pub proof fn lemma_all_known(os: Seq<OpndV>, g: Gen, h: Gen)
    requires
        all_known(os, g),
        extends(g, h),
    ensures
        all_known(os, h),
{
    assert forall|j: int| 0 <= j < os.len() implies known(#[trigger] os[j], h) by {
        lemma_known(os[j], g, h);
    }
}

pub proof fn lemma_begins_self(g: Gen)
    ensures
        begins(g.code, g),
{
    reveal(begins);
    assert(g.code.take(g.code.len() as int) =~= g.code);
}

pub proof fn lemma_row<V, W>(
    b: Base<V, W>,
    cs: Seq<CodeV>,
    g: Gen,
    parts: Seq<Part>,
    ins: Seq<OpndV>,
    vins: Seq<V>,
    s: State<V, W>,
    fuel: nat,
) -> (t: State<V, W>)
    requires
        parts_ok(parts),
        all_known(ins, g),
        are(b, s, ins, vins),
        begins(cs, placed(g, parts, ins)),
    ensures
        lands_row(b, cs, g, placed(g, parts, ins), s, t, fuel, row(b, parts, vins, s.w)),
{
    reveal(placed);
    reveal(row);
    assert(holds(b, s, ins, g.regs.len(), vins, Seq::<V>::empty())) by {
        assert forall|i: int| 0 <= i < ins.len() implies (#[trigger] ins[i] matches OpndV::Reg(r)
            ==> r < g.regs.len()) && opnd_val(b, s, ins[i]) == vins[i] by {
            assert(known(ins[i], g));
        }
    }
    lemma_row_from(b, cs, g, parts, 0, ins, g.regs.len(), vins, Seq::<V>::empty(), s, fuel)
}

pub proof fn lemma_value<V, W>(
    b: Base<V, W>,
    cs: Seq<CodeV>,
    g: Gen,
    r: Row,
    ins: Seq<OpndV>,
    vins: Seq<V>,
    s: State<V, W>,
    fuel: nat,
) -> (t: State<V, W>)
    requires
        row_ok(r),
        all_known(ins, g),
        are(b, s, ins, vins),
        begins(cs, placed_row(g, r, ins).0),
    ensures
        lands(b, cs, g, placed_row(g, r, ins), s, t, fuel, value_of(b, r, vins, s.w)),
{
    reveal(placed);
    reveal(placed_row);
    reveal(value_of);
    let t = lemma_row(b, cs, g, r.parts, ins, vins, s, fuel);
    if let RowEnd::Done(res, w) = row(b, r.parts, vins, s.w) {
        lemma_are_kept(b, g, s, t, ins, vins);
        assert(holds(b, t, ins, g.regs.len(), vins, res)) by {
            assert forall|i: int| 0 <= i < ins.len() implies (#[trigger] ins[i] matches OpndV::Reg(
                r,
            ) ==> r < g.regs.len()) && opnd_val(b, t, ins[i]) == vins[i] by {
                assert(known(ins[i], g));
            }
        }
        lemma_src(b, t, ins, g.regs.len(), vins, res, r.out);
    }
    t
}

pub proof fn lemma_one<V, W>(b: Base<V, W>, s: State<V, W>, o: OpndV, v: V, g: Gen)
    requires
        opnd_val(b, s, o) == v,
        known(o, g),
    ensures
        are(b, s, seq![o], seq![v]),
        all_known(seq![o], g),
{
}

pub proof fn lemma_two<V, W>(b: Base<V, W>, s: State<V, W>, o: OpndV, v: V, p: OpndV, w: V, g: Gen)
    requires
        opnd_val(b, s, o) == v,
        opnd_val(b, s, p) == w,
        known(o, g),
        known(p, g),
    ensures
        are(b, s, seq![o, p], seq![v, w]),
        all_known(seq![o, p], g),
{
}

pub proof fn lemma_null<V, W>(
    b: Base<V, W>,
    cs: Seq<CodeV>,
    g: Gen,
    o: OpndV,
    v: V,
    s: State<V, W>,
    fuel: nat,
) -> (t: State<V, W>)
    requires
        known(o, g),
        opnd_val(b, s, o) == v,
        begins(cs, null_at(g, o)),
    ensures
        lands(b, cs, g, (null_at(g, o), o), s, t, fuel, value_of(b, null_row(), seq![v], s.w)),
        value_of(b, null_row(), seq![v], s.w) matches Value::Is(x, _) ==> x == v,
{
    reveal(value_of);
    reveal(null_row);
    reveal(placed_row);
    code_null(g, o);
    lemma_one(b, s, o, v, g);
    lemma_value(b, cs, g, null_row(), seq![o], seq![v], s, fuel)
}

/// A value written to a slot of an object.
pub proof fn lemma_store<V, W>(
    b: Base<V, W>,
    cs: Seq<CodeV>,
    g: Gen,
    o: OpndV,
    v: V,
    i: usize,
    p: OpndV,
    x: V,
    s: State<V, W>,
    fuel: nat,
) -> (t: State<V, W>)
    requires
        known(o, g),
        known(p, g),
        opnd_val(b, s, o) == v,
        opnd_val(b, s, p) == x,
        begins(cs, store_at(g, o, i, p)),
    ensures
        lands_row(b, cs, g, store_at(g, o, i, p), s, t, fuel, row(b, store_row(i), seq![v, x], s.w)),
{
    code_store(g, o, i, p);
    lemma_two(b, s, o, v, p, x, g);
    lemma_row(b, cs, g, store_row(i), seq![o, p], seq![v, x], s, fuel)
}

pub proof fn lemma_fill<V, W>(
    b: Base<V, W>,
    cs: Seq<CodeV>,
    g: Gen,
    obj: OpndV,
    v: V,
    os: Seq<OpndV>,
    vs: Seq<V>,
    i: int,
    s: State<V, W>,
    fuel: nat,
) -> (t: State<V, W>)
    requires
        0 <= i <= os.len(),
        known(obj, g),
        all_known(os, g),
        opnd_val(b, s, obj) == v,
        are(b, s, os, vs),
        begins(cs, store_payload(g, obj, os, i)),
    ensures
        lands(b, cs, g, (store_payload(g, obj, os, i), obj), s, t, fuel, fill(b, v, vs, i, s.w)),
    decreases os.len() - i,
{
    lemma_self_moves(b, cs, g, s, fuel);
    if i == os.len() {
        s
    } else {
        let k = (i + 1) as usize;
        let h = store_slot(g, obj, k, os[i]);
        let last = store_payload(g, obj, os, i);
        code_store(g, obj, k, os[i]);
        lemma_placed(g, store_row(k), seq![obj, os[i]]);
        lemma_payload_shape(h, obj, os, i + 1);
        lemma_begins(cs, h, last);
        assert(known(os[i], g));
        assert(opnd_val(b, s, os[i]) == vs[i]);
        let t = lemma_store(b, cs, g, obj, v, k, os[i], vs[i], s, fuel);
        if row(b, store_row(k), seq![v, vs[i]], s.w) is Done {
            lemma_are_kept(b, g, s, t, os, vs);
            lemma_val_kept(b, s, t, g, obj);
            lemma_all_known(os, g, h);
            lemma_known(obj, g, h);
            let u = lemma_fill(b, cs, h, obj, v, os, vs, i + 1, t, fuel);
            lemma_then(b, cs, g, h, (last, obj), s, t, u, fuel, fill(b, v, vs, i + 1, t.w));
            u
        } else {
            t
        }
    }
}

pub proof fn lemma_variant<V, W>(
    b: Base<V, W>,
    p: ProgramV,
    cs: Seq<CodeV>,
    g: Gen,
    name: Seq<char>,
    os: Seq<OpndV>,
    vs: Seq<V>,
    s: State<V, W>,
    fuel: nat,
) -> (t: State<V, W>)
    requires
        all_known(os, g),
        are(b, s, os, vs),
        begins(cs, build_variant(p, g, name, os).0),
    ensures
        lands(
            b,
            cs,
            g,
            build_variant(p, g, name, os),
            s,
            t,
            fuel,
            variant(b, p, name, vs, s.w),
        ),
{
    let variants = p.enums[variant_home(p, name, 0)].variants;
    let n = max_arity(variants) as usize;
    let k = variant_index(variants, name, 0) as usize;
    let r = variant_row(n, k);
    code_variant(g, n, k);
    lemma_placed_row(g, r, Seq::empty());
    let (h, obj) = placed_row(g, r, Seq::empty());
    let last = build_variant(p, g, name, os);
    lemma_payload_shape(h, obj, os, 0);
    lemma_begins(cs, h, last.0);
    let t = lemma_value(b, cs, g, r, Seq::empty(), Seq::<V>::empty(), s, fuel);
    match value_of(b, r, Seq::<V>::empty(), s.w) {
        Value::Is(v, w) => {
            lemma_are_kept(b, g, s, t, os, vs);
            lemma_all_known(os, g, h);
            let u = lemma_fill(b, cs, h, obj, v, os, vs, 0, t, fuel);
            lemma_then(b, cs, g, h, last, s, t, u, fuel, fill(b, v, vs, 0, w));
            u
        },
        _ => t,
    }
}

/// Code that is passed over where a condition holds.
proof fn lemma_unless<V, W>(
    b: Base<V, W>,
    cs: Seq<CodeV>,
    g: Gen,
    cond: OpndV,
    inside: Gen,
    s: State<V, W>,
    t: State<V, W>,
    fuel: nat,
    e: RowEnd<V, W>,
)
    requires
        ({
            let c = CodeV::If { cond, then: Seq::empty(), els: inside.code };
            begins(cs, then_code(g, c, inside))
        }),
        (b.truth)(opnd_val(b, s, cond)) ==> t == s,
        !(b.truth)(opnd_val(b, s, cond)) ==> lands_row(
            b,
            inside.code,
            inner(g),
            inside,
            s,
            t,
            fuel,
            e,
        ),
    ensures
        ({
            let c = CodeV::If { cond, then: Seq::empty(), els: inside.code };
            let h = then_code(g, c, inside);
            if (b.truth)(opnd_val(b, s, cond)) {
                moves(b, cs, g, h, s, t, fuel)
            } else {
                match e {
                    RowEnd::Done(_, w) => moves(b, cs, g, h, s, t, fuel) && t.w == w && t.vars
                        == s.vars,
                    RowEnd::Halt(msg, w) => halts(b, cs, g, s, t, fuel, msg, w),
                    RowEnd::Stop(w) => stops(b, cs, g, s, t, fuel, w),
                }
            }
        }),
{
    reveal(begins);
    reveal(go);
    reveal(keeps);
    let c = CodeV::If { cond, then: Seq::empty(), els: inside.code };
    let h = then_code(g, c, inside);
    lemma_last(cs, h);
    assert(cs[g.code.len() as int] == c);
    let m = machine(b);
    assert(run(m, Seq::empty(), 0, s, fuel) == Some(Out::End(s)));
    if !(b.truth)(opnd_val(b, s, cond)) {
        if e is Done {
            assert(go(b, inside.code, inside.code.len(), t, fuel) == Some(Out::End(t)));
        }
    }
}

pub proof fn lemma_line<V, W>(
    b: Base<V, W>,
    cs: Seq<CodeV>,
    g: Gen,
    s: State<V, W>,
    fuel: nat,
) -> (t: State<V, W>)
    requires
        begins(cs, read_line(g).0),
    ensures
        lands(b, cs, g, read_line(g), s, t, fuel, line(b, s.w)),
{
    let (g3, buf, text, end) = line_start(g);
    let inside = chomp(inner(g3), buf);
    let g4 = read_line(g).0;
    lemma_line_parts(g);
    code_line(g);
    lemma_begins(cs, g3, g4);
    let t = lemma_row(b, cs, g, line_row(), Seq::empty(), Seq::<V>::empty(), s, fuel);
    match row(b, line_row(), Seq::<V>::empty(), s.w) {
        RowEnd::Done(res, w1) => {
            assert(res.len() == 3);
            assert(t.regs[g.regs.len() + 0] == res[0]);
            assert(t.regs[g.regs.len() + 1] == res[1]);
            assert(t.regs[g.regs.len() + 2] == res[2]);
            if (b.truth)(res[2]) {
                lemma_unless(b, cs, g3, end, inside, t, t, fuel, RowEnd::Stop(w1));
                lemma_moves(b, cs, g, g3, g4, s, t, t, fuel);
                t
            } else {
                code_chomp(inner(g3), buf);
                lemma_one(b, t, buf, res[0], inner(g3));
                lemma_begins_self(inside);
                let u = lemma_row(
                    b,
                    inside.code,
                    inner(g3),
                    chomp_row(),
                    seq![buf],
                    seq![res[0]],
                    t,
                    fuel,
                );
                let e = row(b, chomp_row(), seq![res[0]], t.w);
                lemma_unless(b, cs, g3, end, inside, t, u, fuel, e);
                if e is Done {
                    lemma_moves(b, cs, g, g3, g4, s, t, u, fuel);
                    lemma_val_kept(b, t, u, g3, text);
                }
                u
            }
        },
        _ => t,
    }
}

/// The end of `push(a, x)`.
proof fn lemma_appended<V, W>(
    b: Base<V, W>,
    cs: Seq<CodeV>,
    g: Gen,
    o: OpndV,
    a: V,
    q: OpndV,
    x: V,
    len: OpndV,
    n: V,
    s: State<V, W>,
    fuel: nat,
) -> (t: State<V, W>)
    requires
        known(o, g),
        known(q, g),
        known(len, g),
        opnd_val(b, s, o) == a,
        opnd_val(b, s, q) == x,
        opnd_val(b, s, len) == n,
        begins(cs, append(g, o, q, len)),
    ensures
        lands(b, cs, g, (append(g, o, q, len), o), s, t, fuel, appended(b, a, x, n, s.w)),
{
    code_append(g, o, q, len);
    assert(are(b, s, seq![o, q, len], seq![a, x, n]));
    assert(all_known(seq![o, q, len], g));
    let t = lemma_row(b, cs, g, append_row(), seq![o, q, len], seq![a, x, n], s, fuel);
    if row(b, append_row(), seq![a, x, n], s.w) is Done {
        lemma_val_kept(b, s, t, g, o);
    }
    t
}

pub proof fn lemma_pushed<V, W>(
    b: Base<V, W>,
    cs: Seq<CodeV>,
    g: Gen,
    o: OpndV,
    a: V,
    q: OpndV,
    x: V,
    s: State<V, W>,
    fuel: nat,
) -> (t: State<V, W>)
    requires
        known(o, g),
        known(q, g),
        opnd_val(b, s, o) == a,
        opnd_val(b, s, q) == x,
        begins(cs, push_value(g, o, q).0),
    ensures
        lands(b, cs, g, push_value(g, o, q), s, t, fuel, pushed(b, a, x, s.w)),
{
    let (g3, len, cap, enough) = room(g, o);
    let inside = grow(inner(g3), o, cap);
    let c = CodeV::If { cond: enough, then: Seq::empty(), els: inside.code };
    let g4 = then_code(g3, c, inside);
    let last = push_value(g, o, q);
    lemma_push_parts(g, o, q);
    lemma_begins(cs, g4, last.0);
    lemma_begins(cs, g3, g4);
    lemma_extends(g, g3, g4);
    code_room(g, o);
    lemma_one(b, s, o, a, g);
    let t = lemma_row(b, cs, g, room_row(), seq![o], seq![a], s, fuel);
    match row(b, room_row(), seq![a], s.w) {
        RowEnd::Done(res, w1) => {
            assert(res.len() == 4);
            assert(t.regs[g.regs.len() + 0] == res[0]);
            assert(t.regs[g.regs.len() + 2] == res[2]);
            assert(t.regs[g.regs.len() + 3] == res[3]);
            lemma_val_kept(b, s, t, g, o);
            lemma_val_kept(b, s, t, g, q);
            if (b.truth)(res[3]) {
                lemma_unless(b, cs, g3, enough, inside, t, t, fuel, RowEnd::Stop(w1));
                lemma_moves(b, cs, g, g3, g4, s, t, t, fuel);
                let u = lemma_appended(b, cs, g4, o, a, q, x, len, res[0], t, fuel);
                lemma_then(b, cs, g, g4, last, s, t, u, fuel, appended(b, a, x, res[0], w1));
                u
            } else {
                code_grow(inner(g3), o, cap);
                lemma_two(b, t, o, a, cap, res[2], inner(g3));
                lemma_begins_self(inside);
                let u = lemma_row(
                    b,
                    inside.code,
                    inner(g3),
                    grow_row(),
                    seq![o, cap],
                    seq![a, res[2]],
                    t,
                    fuel,
                );
                let e = row(b, grow_row(), seq![a, res[2]], t.w);
                lemma_unless(b, cs, g3, enough, inside, t, u, fuel, e);
                match e {
                    RowEnd::Done(_, w2) => {
                        lemma_moves(b, cs, g, g3, g4, s, t, u, fuel);
                        lemma_val_kept(b, t, u, g3, o);
                        lemma_val_kept(b, t, u, g3, q);
                        lemma_val_kept(b, t, u, g3, len);
                        let v = lemma_appended(b, cs, g4, o, a, q, x, len, res[0], u, fuel);
                        lemma_then(
                            b,
                            cs,
                            g,
                            g4,
                            last,
                            s,
                            u,
                            v,
                            fuel,
                            appended(b, a, x, res[0], w2),
                        );
                        v
                    },
                    _ => u,
                }
            }
        },
        _ => t,
    }
}

} // verus!
