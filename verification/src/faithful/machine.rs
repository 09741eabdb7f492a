//! The machine that lowered code runs on, and rows as code.
use vstd::prelude::*;
#[allow(unused_imports)]
use crate::faithful::rowcode::row_ok;
#[allow(unused_imports)]
use crate::flow::{run, Did, Machine, Out};
#[allow(unused_imports)]
use crate::ir::{CodeV, InstV, IrTy, Op, OpndV};
#[allow(unused_imports)]
use crate::lowering::{put, stop_if, stop_unless, then_code, Gen};
#[allow(unused_imports)]
use crate::meaning::{row_from, src_val, src_vals, Base, Done, Part, Row, RowEnd, Src, Srcs};

verus! {

/// Registers, variables and the world.
pub ghost struct State<V, W> {
    pub regs: Map<nat, V>,
    pub vars: Map<nat, V>,
    pub w: W,
}

/// The value of an operand.
pub open spec fn opnd_val<V, W>(b: Base<V, W>, s: State<V, W>, v: OpndV) -> V {
    match v {
        OpndV::Reg(r) => s.regs[r],
        c => (b.konst)(c),
    }
}

pub open spec fn opnd_vals<V, W>(b: Base<V, W>, s: State<V, W>, vs: Seq<OpndV>) -> Seq<V> {
    Seq::new(vs.len(), |i: int| opnd_val(b, s, vs[i]))
}

/// What comes of an operation, whose value goes to a register.
pub open spec fn kept<V, W>(s: State<V, W>, dst: nat, d: Done<V, W>) -> Did<State<V, W>> {
    match d {
        Done::Go(v, w) => Did::Go(State { regs: s.regs.insert(dst, v), vars: s.vars, w }),
        Done::Stop(w) => Did::Stop(State { regs: s.regs, vars: s.vars, w }),
    }
}

/// What comes of an instruction.
pub open spec fn step<V, W>(b: Base<V, W>, s: State<V, W>, x: InstV) -> Did<State<V, W>> {
    match x {
        InstV::Op { dst, op, args } => match op {
            Op::GetVar(i) => Did::Go(
                State { regs: s.regs.insert(dst, s.vars[i as nat]), vars: s.vars, w: s.w },
            ),
            Op::SetVar(i) => Did::Go(
                State {
                    regs: s.regs,
                    vars: s.vars.insert(i as nat, opnd_val(b, s, args[0])),
                    w: s.w,
                },
            ),
            _ => kept(s, dst, (b.op)(op, opnd_vals(b, s, args), s.w)),
        },
        InstV::Call { dst, func, args } => kept(
            s,
            dst,
            (b.call)(func, opnd_vals(b, s, args), s.w),
        ),
    }
}

/// The machine that lowered code runs on.
pub open spec fn machine<V, W>(b: Base<V, W>) -> Machine<State<V, W>> {
    Machine {
        step: |s: State<V, W>, x: InstV| step(b, s, x),
        test: |s: State<V, W>, v: OpndV| (b.truth)(opnd_val(b, s, v)),
        tag: |s: State<V, W>, v: OpndV| (b.number)(opnd_val(b, s, v)),
    }
}

/// Runs code from an index on.
#[verifier::opaque]
pub open spec fn go<V, W>(b: Base<V, W>, cs: Seq<CodeV>, k: nat, s: State<V, W>, fuel: nat) -> Option<
    Out<State<V, W>>,
> {
    run(machine(b), cs, k as int, s, fuel)
}

/// `h` goes on where `g` ends.
#[verifier::opaque]
pub open spec fn extends(g: Gen, h: Gen) -> bool {
    &&& g.code.len() <= h.code.len()
    &&& h.code.take(g.code.len() as int) == g.code
    &&& g.regs.len() <= h.regs.len()
    &&& g.slots.len() <= h.slots.len()
}

/// The code starts with that of `g`.
#[verifier::opaque]
pub open spec fn begins(cs: Seq<CodeV>, g: Gen) -> bool {
    g.code.len() <= cs.len() && cs.take(g.code.len() as int) == g.code
}

/// An operand that `g` has the register of.
pub open spec fn known(v: OpndV, g: Gen) -> bool {
    v matches OpndV::Reg(r) ==> r < g.regs.len()
}

pub open spec fn all_known(vs: Seq<OpndV>, g: Gen) -> bool {
    forall|i: int| 0 <= i < vs.len() ==> known(#[trigger] vs[i], g)
}

/// The registers and variables of `g` are as they were.
#[verifier::opaque]
pub open spec fn keeps<V, W>(s: State<V, W>, t: State<V, W>, g: Gen) -> bool {
    &&& forall|r: nat| r < g.regs.len() ==> #[trigger] t.regs[r] == s.regs[r]
    &&& forall|k: nat| k < g.slots.len() ==> #[trigger] t.vars[k] == s.vars[k]
}

pub proof fn lemma_begins(cs: Seq<CodeV>, g: Gen, h: Gen)
    requires
        begins(cs, h),
        extends(g, h),
    ensures
        begins(cs, g),
{
    reveal(extends);
    reveal(begins);
    assert(cs.take(g.code.len() as int) =~= cs.take(h.code.len() as int).take(
        g.code.len() as int,
    ));
}

pub proof fn lemma_extends(f: Gen, g: Gen, h: Gen)
    requires
        extends(f, g),
        extends(g, h),
    ensures
        extends(f, h),
{
    reveal(extends);
    assert(h.code.take(f.code.len() as int) =~= h.code.take(g.code.len() as int).take(
        f.code.len() as int,
    ));
}

pub proof fn lemma_extends_self(g: Gen)
    ensures
        extends(g, g),
{
    reveal(extends);
    assert(g.code.take(g.code.len() as int) =~= g.code);
}

pub proof fn lemma_extends_put(g: Gen, ty: IrTy, op: Op, args: Seq<OpndV>)
    ensures
        extends(g, put(g, ty, op, args)),
{
    reveal(extends);
    assert(put(g, ty, op, args).code.take(g.code.len() as int) =~= g.code);
}

pub proof fn lemma_extends_then(g: Gen, c: CodeV, last: Gen)
    requires
        g.regs.len() <= last.regs.len(),
        g.slots.len() <= last.slots.len(),
    ensures
        extends(g, then_code(g, c, last)),
{
    reveal(extends);
    assert(then_code(g, c, last).code.take(g.code.len() as int) =~= g.code);
}

/// The code at the end of what `g` has more than `g` without its last piece.
pub proof fn lemma_last(cs: Seq<CodeV>, g: Gen)
    requires
        begins(cs, g),
        g.code.len() > 0,
    ensures
        cs[g.code.len() - 1] == g.code.last(),
{
    reveal(begins);
    assert(cs.take(g.code.len() as int)[g.code.len() - 1] == g.code.last());
}

pub proof fn lemma_known(v: OpndV, g: Gen, h: Gen)
    requires
        known(v, g),
        extends(g, h),
    ensures
        known(v, h),
{
    reveal(extends);
}

/// What an operand is does not change.
pub proof fn lemma_val_kept<V, W>(b: Base<V, W>, s: State<V, W>, t: State<V, W>, g: Gen, v: OpndV)
    requires
        known(v, g),
        keeps(s, t, g),
    ensures
        opnd_val(b, t, v) == opnd_val(b, s, v),
{
    reveal(keeps);
    if let OpndV::Reg(r) = v {
        assert(t.regs[r] == s.regs[r]);
    }
}

pub proof fn lemma_keeps<V, W>(s: State<V, W>, t: State<V, W>, u: State<V, W>, g: Gen, h: Gen)
    requires
        keeps(s, t, g),
        keeps(t, u, h),
        extends(g, h),
    ensures
        keeps(s, u, g),
{
    reveal(extends);
    reveal(keeps);
    assert forall|r: nat| r < g.regs.len() implies #[trigger] u.regs[r] == s.regs[r] by {
        assert(u.regs[r] == t.regs[r]);
    }
    assert forall|k: nat| k < g.slots.len() implies #[trigger] u.vars[k] == s.vars[k] by {
        assert(u.vars[k] == t.vars[k]);
    }
}

// Rows as code.

/// The operand of a part, in a row that was given `ins`, has made `made` values, and whose
/// first value is in register `base`.
pub open spec fn src_opnd(ins: Seq<OpndV>, base: nat, made: int, s: Src) -> OpndV {
    match s {
        Src::In(i) => if i < ins.len() {
            ins[i as int]
        } else {
            OpndV::Null
        },
        Src::Res(i) => if i < made {
            OpndV::Reg(base + i)
        } else {
            OpndV::Null
        },
        Src::Konst(c) => c,
    }
}

pub open spec fn src_opnds(ins: Seq<OpndV>, base: nat, made: int, ss: Srcs) -> Seq<OpndV> {
    match ss {
        Srcs::S0 => Seq::empty(),
        Srcs::S1(x) => seq![src_opnd(ins, base, made, x)],
        Srcs::S2(x, y) => seq![src_opnd(ins, base, made, x), src_opnd(ins, base, made, y)],
        Srcs::S3(x, y, z) => seq![
            src_opnd(ins, base, made, x),
            src_opnd(ins, base, made, y),
            src_opnd(ins, base, made, z),
        ],
        Srcs::S4(x, y, z, u) => seq![
            src_opnd(ins, base, made, x),
            src_opnd(ins, base, made, y),
            src_opnd(ins, base, made, z),
            src_opnd(ins, base, made, u),
        ],
        Srcs::All(cs) => ins + cs,
    }
}

/// The code of one part.
pub open spec fn place_part(g: Gen, part: Part, ins: Seq<OpndV>, base: nat) -> Gen {
    let made = g.regs.len() - base;
    match part {
        Part::Do(ty, op, args) => put(g, ty, op, src_opnds(ins, base, made, args)),
        Part::StopIf(c, msg) => stop_if(g, src_opnd(ins, base, made, c), msg),
        Part::StopUnless(c, msg) => stop_unless(g, src_opnd(ins, base, made, c), msg),
    }
}

/// The code of a row from part `i` on.
pub open spec fn place(g: Gen, parts: Seq<Part>, i: int, ins: Seq<OpndV>, base: nat) -> Gen
    decreases parts.len() - i,
{
    if !(0 <= i < parts.len()) {
        g
    } else {
        place(place_part(g, parts[i], ins, base), parts, i + 1, ins, base)
    }
}

/// The code of a row.
#[verifier::opaque]
pub open spec fn placed(g: Gen, parts: Seq<Part>, ins: Seq<OpndV>) -> Gen {
    place(g, parts, 0, ins, g.regs.len())
}

/// The code of a row, and the operand for its value.
#[verifier::opaque]
pub open spec fn placed_row(g: Gen, r: Row, ins: Seq<OpndV>) -> (Gen, OpndV) {
    let h = placed(g, r.parts, ins);
    (h, src_opnd(ins, g.regs.len(), h.regs.len() - g.regs.len(), r.out))
}

/// Variables are none of the business of a row, and its constants are no registers.
pub open spec fn is_row_op(op: Op) -> bool {
    !(op is GetVar) && !(op is SetVar)
}

pub open spec fn is_konst(v: OpndV) -> bool {
    !(v is Reg)
}

pub open spec fn src_ok(s: Src) -> bool {
    s matches Src::Konst(c) ==> is_konst(c)
}

pub open spec fn srcs_ok(ss: Srcs) -> bool {
    match ss {
        Srcs::S0 => true,
        Srcs::S1(x) => src_ok(x),
        Srcs::S2(x, y) => src_ok(x) && src_ok(y),
        Srcs::S3(x, y, z) => src_ok(x) && src_ok(y) && src_ok(z),
        Srcs::S4(x, y, z, u) => src_ok(x) && src_ok(y) && src_ok(z) && src_ok(u),
        Srcs::All(cs) => forall|i: int| 0 <= i < cs.len() ==> is_konst(#[trigger] cs[i]),
    }
}

pub open spec fn part_ok(part: Part) -> bool {
    match part {
        Part::Do(_, op, args) => is_row_op(op) && srcs_ok(args),
        Part::StopIf(c, _) => src_ok(c),
        Part::StopUnless(c, _) => src_ok(c),
    }
}

pub open spec fn parts_ok(parts: Seq<Part>) -> bool {
    forall|i: int| 0 <= i < parts.len() ==> part_ok(#[trigger] parts[i])
}

pub proof fn lemma_part_extends(g: Gen, part: Part, ins: Seq<OpndV>, base: nat)
    ensures
        extends(g, place_part(g, part, ins, base)),
        place_part(g, part, ins, base).slots == g.slots,
        place_part(g, part, ins, base).code.len() == g.code.len() + 1,
{
    reveal(extends);
    let h = place_part(g, part, ins, base);
    assert(h.code.take(g.code.len() as int) =~= g.code);
}

pub proof fn lemma_place_extends(g: Gen, parts: Seq<Part>, i: int, ins: Seq<OpndV>, base: nat)
    ensures
        extends(g, place(g, parts, i, ins, base)),
        place(g, parts, i, ins, base).slots == g.slots,
    decreases parts.len() - i,
{
    reveal(extends);
    if 0 <= i < parts.len() {
        let h = place_part(g, parts[i], ins, base);
        lemma_part_extends(g, parts[i], ins, base);
        lemma_place_extends(h, parts, i + 1, ins, base);
        lemma_extends(g, h, place(h, parts, i + 1, ins, base));
    } else {
        lemma_extends_self(g);
    }
}

/// The values that a row was given and has made are in the state.
pub open spec fn holds<V, W>(
    b: Base<V, W>,
    s: State<V, W>,
    ins: Seq<OpndV>,
    base: nat,
    vins: Seq<V>,
    res: Seq<V>,
) -> bool {
    &&& ins.len() == vins.len()
    &&& forall|i: int|
        0 <= i < ins.len() ==> (#[trigger] ins[i] matches OpndV::Reg(r) ==> r < base) && opnd_val(
            b,
            s,
            ins[i],
        ) == vins[i]
    &&& forall|k: nat| k < res.len() ==> #[trigger] s.regs[base + k] == res[k as int]
}

pub proof fn lemma_src<V, W>(
    b: Base<V, W>,
    s: State<V, W>,
    ins: Seq<OpndV>,
    base: nat,
    vins: Seq<V>,
    res: Seq<V>,
    x: Src,
)
    requires
        holds(b, s, ins, base, vins, res),
        src_ok(x),
    ensures
        opnd_val(b, s, src_opnd(ins, base, res.len() as int, x)) == src_val(b, vins, res, x),
        src_opnd(ins, base, res.len() as int, x) matches OpndV::Reg(r) ==> r < base + res.len(),
{
    match x {
        Src::In(i) => {
            if i < ins.len() {
                assert(opnd_val(b, s, ins[i as int]) == vins[i as int]);
            }
        },
        Src::Res(i) => {
            if i < res.len() {
                assert(s.regs[base + i] == res[i as int]);
            }
        },
        Src::Konst(c) => {},
    }
}

pub proof fn lemma_srcs<V, W>(
    b: Base<V, W>,
    s: State<V, W>,
    ins: Seq<OpndV>,
    base: nat,
    vins: Seq<V>,
    res: Seq<V>,
    xs: Srcs,
)
    requires
        holds(b, s, ins, base, vins, res),
        srcs_ok(xs),
    ensures
        opnd_vals(b, s, src_opnds(ins, base, res.len() as int, xs)) == src_vals(
            b,
            vins,
            res,
            xs,
        ),
{
    let os = src_opnds(ins, base, res.len() as int, xs);
    let vs = src_vals(b, vins, res, xs);
    match xs {
        Srcs::S0 => {},
        Srcs::S1(x) => {
            lemma_src(b, s, ins, base, vins, res, x);
        },
        Srcs::S2(x, y) => {
            lemma_src(b, s, ins, base, vins, res, x);
            lemma_src(b, s, ins, base, vins, res, y);
        },
        Srcs::S3(x, y, z) => {
            lemma_src(b, s, ins, base, vins, res, x);
            lemma_src(b, s, ins, base, vins, res, y);
            lemma_src(b, s, ins, base, vins, res, z);
        },
        Srcs::S4(x, y, z, u) => {
            lemma_src(b, s, ins, base, vins, res, x);
            lemma_src(b, s, ins, base, vins, res, y);
            lemma_src(b, s, ins, base, vins, res, z);
            lemma_src(b, s, ins, base, vins, res, u);
        },
        Srcs::All(cs) => {
            assert forall|i: int| 0 <= i < os.len() implies opnd_val(b, s, os[i]) == vs[i] by {
                if i < ins.len() {
                    assert(os[i] == ins[i]);
                    assert(opnd_val(b, s, ins[i]) == vins[i]);
                } else {
                    assert(os[i] == cs[i - ins.len()]);
                    assert(is_konst(cs[i - ins.len()]));
                }
            }
        },
    }
    assert(opnd_vals(b, s, os) =~= vs);
}

/// The code of a row comes to what the row does.
pub proof fn lemma_row_from<V, W>(
    b: Base<V, W>,
    cs: Seq<CodeV>,
    g: Gen,
    parts: Seq<Part>,
    i: int,
    ins: Seq<OpndV>,
    base: nat,
    vins: Seq<V>,
    res: Seq<V>,
    s: State<V, W>,
    fuel: nat,
) -> (t: State<V, W>)
    requires
        0 <= i <= parts.len(),
        parts_ok(parts),
        begins(cs, place(g, parts, i, ins, base)),
        g.regs.len() == base + res.len(),
        holds(b, s, ins, base, vins, res),
    ensures
        ({
            let h = place(g, parts, i, ins, base);
            match row_from(b, parts, i, vins, res, s.w) {
                RowEnd::Done(all, w) => {
                    &&& go(b, cs, g.code.len(), s, fuel) == go(b, cs, h.code.len(), t, fuel)
                    &&& t.w == w
                    &&& t.vars == s.vars
                    &&& keeps(s, t, g)
                    &&& h.regs.len() == base + all.len()
                    &&& holds(b, t, ins, base, vins, all)
                },
                RowEnd::Halt(msg, w) => go(b, cs, g.code.len(), s, fuel) == Some(
                    Out::Halt(t, msg),
                ) && t.w == w,
                RowEnd::Stop(w) => go(b, cs, g.code.len(), s, fuel) == Some(Out::Stop(t)) && t.w
                    == w,
            }
        }),
    decreases parts.len() - i,
{
    reveal(go);
    reveal(extends);
    reveal(begins);
    reveal(keeps);
    if i == parts.len() {
        s
    } else {
        let part = parts[i];
        let h = place_part(g, part, ins, base);
        let last = place(g, parts, i, ins, base);
        lemma_part_extends(g, part, ins, base);
        lemma_place_extends(h, parts, i + 1, ins, base);
        lemma_begins(cs, h, last);
        lemma_last(cs, h);
        assert(part_ok(part));
        match part {
            Part::Do(ty, op, args) => {
                lemma_srcs(b, s, ins, base, vins, res, args);
                match (b.op)(op, src_vals(b, vins, res, args), s.w) {
                    Done::Go(v, w) => {
                        let t = State { regs: s.regs.insert(g.regs.len(), v), vars: s.vars, w };
                        assert(holds(b, t, ins, base, vins, res.push(v))) by {
                            assert forall|j: int| 0 <= j < ins.len() implies (#[trigger] ins[j] matches OpndV::Reg(
                                r,
                            ) ==> r < base) && opnd_val(b, t, ins[j]) == vins[j] by {
                                assert(opnd_val(b, s, ins[j]) == vins[j]);
                            }
                            assert forall|k: nat| k < res.push(v).len() implies #[trigger] t.regs[base
                                + k] == res.push(v)[k as int] by {
                                if k < res.len() {
                                    assert(s.regs[base + k] == res[k as int]);
                                }
                            }
                        }
                        let u = lemma_row_from(
                            b,
                            cs,
                            h,
                            parts,
                            i + 1,
                            ins,
                            base,
                            vins,
                            res.push(v),
                            t,
                            fuel,
                        );
                        if row_from(b, parts, i, vins, res, s.w) is Done {
                            assert(keeps(s, t, g));
                            lemma_keeps(s, t, u, g, h);
                        }
                        u
                    },
                    Done::Stop(w) => State { regs: s.regs, vars: s.vars, w },
                }
            },
            Part::StopIf(c, msg) => {
                lemma_src(b, s, ins, base, vins, res, c);
                if (b.truth)(src_val(b, vins, res, c)) {
                    reveal_with_fuel(run, 2);
                    s
                } else {
                    reveal_with_fuel(run, 2);
                    lemma_row_from(b, cs, h, parts, i + 1, ins, base, vins, res, s, fuel)
                }
            },
            Part::StopUnless(c, msg) => {
                lemma_src(b, s, ins, base, vins, res, c);
                reveal_with_fuel(run, 2);
                if (b.truth)(src_val(b, vins, res, c)) {
                    lemma_row_from(b, cs, h, parts, i + 1, ins, base, vins, res, s, fuel)
                } else {
                    s
                }
            },
        }
    }
}

/// `r` goes on where `g` ends, and has the register of its operand.
pub open spec fn shaped(g: Gen, r: (Gen, OpndV)) -> bool {
    extends(g, r.0) && known(r.1, r.0)
}

pub proof fn lemma_placed(g: Gen, parts: Seq<Part>, ins: Seq<OpndV>)
    ensures
        extends(g, placed(g, parts, ins)),
        placed(g, parts, ins).slots == g.slots,
{
    reveal(placed);
    lemma_place_extends(g, parts, 0, ins, g.regs.len());
}

pub proof fn lemma_placed_row(g: Gen, r: Row, ins: Seq<OpndV>)
    requires
        row_ok(r),
        all_known(ins, g),
    ensures
        shaped(g, placed_row(g, r, ins)),
        placed_row(g, r, ins).0.slots == g.slots,
{
    reveal(placed_row);
    reveal(placed);
    reveal(extends);
    lemma_placed(g, r.parts, ins);
    if let Src::In(i) = r.out {
        if i < ins.len() {
            assert(known(ins[i as int], g));
        }
    }
}

} // verus!
