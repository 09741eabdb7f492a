//! Rows that have types.
use vstd::prelude::*;
#[allow(unused_imports)]
use crate::assembly::opnd_ty;
#[allow(unused_imports)]
use crate::faithful::machine::{place, place_part, placed, placed_row, src_opnd, src_opnds};
#[allow(unused_imports)]
use crate::ir::{IrTy, OpndV};
#[allow(unused_imports)]
use crate::lowering::Gen;
#[allow(unused_imports)]
use crate::meaning::{Part, Row, Src, Srcs};
#[allow(unused_imports)]
use crate::sound::code::{
    are_of, goes_on, is_of, lemma_is_more, lemma_on, lemma_on_put, lemma_on_self, lemma_on_stop,
    op_takes, Sigs,
};

verus! {

/// The type of a value that an operation of a row works on.
pub open spec fn src_ty(ins: Seq<IrTy>, res: Seq<IrTy>, s: Src) -> Option<IrTy> {
    match s {
        Src::In(i) => if i < ins.len() {
            Some(ins[i as int])
        } else {
            None
        },
        Src::Res(i) => if i < res.len() {
            Some(res[i as int])
        } else {
            None
        },
        Src::Konst(c) => if c is Reg {
            None
        } else {
            Some(opnd_ty(Seq::empty(), c))
        },
    }
}

/// The types of the values that an operation of a row works on.
pub open spec fn src_tys(ins: Seq<IrTy>, res: Seq<IrTy>, ss: Srcs) -> Option<Seq<IrTy>> {
    match ss {
        Srcs::S0 => Some(Seq::empty()),
        Srcs::S1(x) => match src_ty(ins, res, x) {
            Some(a) => Some(seq![a]),
            None => None,
        },
        Srcs::S2(x, y) => match (src_ty(ins, res, x), src_ty(ins, res, y)) {
            (Some(a), Some(b)) => Some(seq![a, b]),
            _ => None,
        },
        Srcs::S3(x, y, z) => match (src_ty(ins, res, x), src_ty(ins, res, y), src_ty(ins, res, z)) {
            (Some(a), Some(b), Some(c)) => Some(seq![a, b, c]),
            _ => None,
        },
        Srcs::S4(x, y, z, u) => match (
            src_ty(ins, res, x),
            src_ty(ins, res, y),
            src_ty(ins, res, z),
            src_ty(ins, res, u),
        ) {
            (Some(a), Some(b), Some(c), Some(d)) => Some(seq![a, b, c, d]),
            _ => None,
        },
        Srcs::All(cs) => if forall|i: int| 0 <= i < cs.len() ==> !((#[trigger] cs[i]) is Reg) {
            Some(ins + Seq::new(cs.len(), |i: int| opnd_ty(Seq::empty(), cs[i])))
        } else {
            None
        },
    }
}

/// The parts of a row from `i` on have types.
pub open spec fn parts_fit(parts: Seq<Part>, i: int, ins: Seq<IrTy>, res: Seq<IrTy>) -> bool
    decreases parts.len() - i,
{
    if !(0 <= i < parts.len()) {
        true
    } else {
        match parts[i] {
            Part::Do(ty, op, ss) => {
                &&& !(op is GetVar) && !(op is SetVar)
                &&& src_tys(ins, res, ss) matches Some(tys) && op_takes(Seq::empty(), op, tys, ty)
                &&& parts_fit(parts, i + 1, ins, res.push(ty))
            },
            Part::StopIf(c, _) => src_ty(ins, res, c) == Some(IrTy::I1) && parts_fit(
                parts,
                i + 1,
                ins,
                res,
            ),
            Part::StopUnless(c, _) => src_ty(ins, res, c) == Some(IrTy::I1) && parts_fit(
                parts,
                i + 1,
                ins,
                res,
            ),
        }
    }
}

/// The types of what the operations of a row from `i` on give, after those in `res`.
pub open spec fn made_from(parts: Seq<Part>, i: int, res: Seq<IrTy>) -> Seq<IrTy>
    decreases parts.len() - i,
{
    if !(0 <= i < parts.len()) {
        res
    } else {
        match parts[i] {
            Part::Do(ty, _, _) => made_from(parts, i + 1, res.push(ty)),
            _ => made_from(parts, i + 1, res),
        }
    }
}

/// A row works on values of types `ins`.
#[verifier::opaque]
pub open spec fn fits(parts: Seq<Part>, ins: Seq<IrTy>) -> bool {
    parts_fit(parts, 0, ins, Seq::empty())
}

/// What a row gives.
#[verifier::opaque]
pub open spec fn made(parts: Seq<Part>) -> Seq<IrTy> {
    made_from(parts, 0, Seq::empty())
}

/// A row that works on values of types `ins` and is for a value of type `out`.
pub open spec fn row_fits(r: Row, ins: Seq<IrTy>, out: IrTy) -> bool {
    fits(r.parts, ins) && src_ty(ins, made(r.parts), r.out) == Some(out)
}

proof fn lemma_konst(regs: Seq<IrTy>, c: OpndV)
    requires
        !(c is Reg),
    ensures
        is_of(regs, c, opnd_ty(Seq::empty(), c)),
{
}

/// The operand of a row has the type that the row says.
proof fn lemma_src_ty(
    base: Seq<IrTy>,
    opnds: Seq<OpndV>,
    ins: Seq<IrTy>,
    res: Seq<IrTy>,
    x: Src,
    n: int,
)
    requires
        are_of(base, opnds, ins),
        n == res.len(),
        src_ty(ins, res, x) is Some,
    ensures
        is_of(base + res, src_opnd(opnds, base.len(), n, x), src_ty(ins, res, x)->0),
{
    match x {
        Src::In(i) => {
            assert((base + res).take(base.len() as int) =~= base);
            lemma_is_more(base, base + res, opnds[i as int], ins[i as int]);
        },
        Src::Res(i) => {
            assert((base + res)[(base.len() + i) as int] == res[i as int]);
        },
        Src::Konst(c) => lemma_konst(base + res, c),
    }
}

proof fn lemma_src_tys(
    base: Seq<IrTy>,
    opnds: Seq<OpndV>,
    ins: Seq<IrTy>,
    res: Seq<IrTy>,
    ss: Srcs,
    n: int,
)
    requires
        are_of(base, opnds, ins),
        n == res.len(),
        src_tys(ins, res, ss) is Some,
    ensures
        are_of(base + res, src_opnds(opnds, base.len(), n, ss), src_tys(ins, res, ss)->0),
{
    match ss {
        Srcs::S0 => {},
        Srcs::S1(x) => lemma_src_ty(base, opnds, ins, res, x, n),
        Srcs::S2(x, y) => {
            lemma_src_ty(base, opnds, ins, res, x, n);
            lemma_src_ty(base, opnds, ins, res, y, n);
        },
        Srcs::S3(x, y, z) => {
            lemma_src_ty(base, opnds, ins, res, x, n);
            lemma_src_ty(base, opnds, ins, res, y, n);
            lemma_src_ty(base, opnds, ins, res, z, n);
        },
        Srcs::S4(x, y, z, u) => {
            lemma_src_ty(base, opnds, ins, res, x, n);
            lemma_src_ty(base, opnds, ins, res, y, n);
            lemma_src_ty(base, opnds, ins, res, z, n);
            lemma_src_ty(base, opnds, ins, res, u, n);
        },
        Srcs::All(cs) => {
            let vs = opnds + cs;
            let tys = src_tys(ins, res, ss)->0;
            assert((base + res).take(base.len() as int) =~= base);
            assert forall|i: int| 0 <= i < vs.len() implies is_of(
                base + res,
                #[trigger] vs[i],
                tys[i],
            ) by {
                if i < opnds.len() {
                    assert(vs[i] == opnds[i]);
                    lemma_is_more(base, base + res, opnds[i], ins[i]);
                } else {
                    assert(vs[i] == cs[i - opnds.len()]);
                    lemma_konst(base + res, cs[i - opnds.len()]);
                }
            }
        },
    }
}

/// The code of a row from part `i` on has types.
proof fn lemma_place(
    s: Sigs,
    f: Gen,
    g: Gen,
    parts: Seq<Part>,
    i: int,
    opnds: Seq<OpndV>,
    ins: Seq<IrTy>,
    res: Seq<IrTy>,
)
    requires
        are_of(f.regs, opnds, ins),
        parts_fit(parts, i, ins, res),
        g.regs == f.regs + res,
    ensures
        ({
            let h = place(g, parts, i, opnds, f.regs.len());
            &&& goes_on(s, g, h)
            &&& h.regs == f.regs + made_from(parts, i, res)
            &&& h.slots == g.slots
        }),
    decreases parts.len() - i,
{
    if 0 <= i < parts.len() {
        let n = res.len() as int;
        let h = place_part(g, parts[i], opnds, f.regs.len());
        let last = place(g, parts, i, opnds, f.regs.len());
        match parts[i] {
            Part::Do(ty, op, ss) => {
                let tys = src_tys(ins, res, ss)->0;
                lemma_src_tys(f.regs, opnds, ins, res, ss, n);
                lemma_on_put(s, g, ty, op, src_opnds(opnds, f.regs.len(), n, ss), tys);
                assert(h.regs =~= f.regs + res.push(ty));
                lemma_place(s, f, h, parts, i + 1, opnds, ins, res.push(ty));
            },
            Part::StopIf(c, msg) => {
                lemma_src_ty(f.regs, opnds, ins, res, c, n);
                lemma_on_stop(s, g, src_opnd(opnds, f.regs.len(), n, c), msg);
                lemma_place(s, f, h, parts, i + 1, opnds, ins, res);
            },
            Part::StopUnless(c, msg) => {
                lemma_src_ty(f.regs, opnds, ins, res, c, n);
                lemma_on_stop(s, g, src_opnd(opnds, f.regs.len(), n, c), msg);
                lemma_place(s, f, h, parts, i + 1, opnds, ins, res);
            },
        }
        lemma_on(s, g, h, last);
    } else {
        lemma_on_self(s, g);
    }
}

/// The code of a row has types.
pub proof fn lemma_parts(
    s: Sigs,
    g: Gen,
    parts: Seq<Part>,
    opnds: Seq<OpndV>,
    ins: Seq<IrTy>,
)
    requires
        are_of(g.regs, opnds, ins),
        fits(parts, ins),
    ensures
        goes_on(s, g, placed(g, parts, opnds)),
        placed(g, parts, opnds).regs == g.regs + made(parts),
        placed(g, parts, opnds).slots == g.slots,
{
    reveal(placed);
    reveal(fits);
    reveal(made);
    assert(g.regs + Seq::<IrTy>::empty() =~= g.regs);
    lemma_place(s, g, g, parts, 0, opnds, ins, Seq::empty());
}

/// The code of a row for a value has types, and so has the value.
pub proof fn lemma_row(
    s: Sigs,
    g: Gen,
    r: Row,
    opnds: Seq<OpndV>,
    ins: Seq<IrTy>,
    out: IrTy,
)
    requires
        are_of(g.regs, opnds, ins),
        row_fits(r, ins, out),
    ensures
        goes_on(s, g, placed_row(g, r, opnds).0),
        is_of(placed_row(g, r, opnds).0.regs, placed_row(g, r, opnds).1, out),
        placed_row(g, r, opnds).0.slots == g.slots,
{
    reveal(placed_row);
    lemma_parts(s, g, r.parts, opnds, ins);
    lemma_src_ty(g.regs, opnds, ins, made(r.parts), r.out, made(r.parts).len() as int);
}

} // verus!
