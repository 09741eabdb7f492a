//! Code that has types.
use vstd::prelude::*;
#[allow(unused_imports)]
use crate::assembly::{opnd_ty, rt_sig};
#[allow(unused_imports)]
use crate::ir::{CodeV, InstV, IrTy, Op, OpndV};
#[allow(unused_imports)]
use crate::lowering::{inner, new_slot, put, stop_if, stop_unless, then_code, Gen};
#[allow(unused_imports)]
use crate::sound::once::{
    adds, fills, fills_in, lemma_adds, lemma_adds_none, lemma_adds_push, lemma_adds_self,
    lemma_fills_inst, lemma_fills_stop,
};

verus! {

/// What the functions of a program take and give, and what the function around gives.
pub ghost struct Sigs {
    pub funcs: Seq<(Seq<IrTy>, IrTy)>,
    pub ret: IrTy,
}

/// An operand that is a constant or a register that there is.
pub open spec fn there(regs: Seq<IrTy>, v: OpndV) -> bool {
    v matches OpndV::Reg(r) ==> r < regs.len()
}

/// An operand of a type.
pub open spec fn is_of(regs: Seq<IrTy>, v: OpndV, ty: IrTy) -> bool {
    there(regs, v) && opnd_ty(regs, v) == ty
}

/// Operands of these types.
pub open spec fn are_of(regs: Seq<IrTy>, vs: Seq<OpndV>, tys: Seq<IrTy>) -> bool {
    &&& vs.len() == tys.len()
    &&& forall|i: int| 0 <= i < vs.len() ==> is_of(regs, #[trigger] vs[i], tys[i])
}

/// What an instruction takes and gives, of those for which that is fixed.
pub open spec fn op_sig(slots: Seq<IrTy>, op: Op) -> Option<(Seq<IrTy>, IrTy)> {
    let (i, b, f, p) = (IrTy::I64, IrTy::I1, IrTy::F64, IrTy::Ptr);
    match op {
        Op::Add | Op::Sub | Op::Mul | Op::SDiv | Op::SRem => Some((seq![i, i], i)),
        Op::And | Op::Or | Op::Xor | Op::Shl | Op::AShr => Some((seq![i, i], i)),
        Op::Neg | Op::BitNot => Some((seq![i], i)),
        Op::ICmp(_) => Some((seq![i, i], b)),
        Op::FAdd | Op::FSub | Op::FMul | Op::FDiv => Some((seq![f, f], f)),
        Op::FNeg => Some((seq![f], f)),
        Op::FCmp(_) => Some((seq![f, f], b)),
        Op::Not => Some((seq![b], b)),
        Op::Both => Some((seq![b, b], b)),
        Op::SiToFp => Some((seq![i], f)),
        Op::FpToSi => Some((seq![f], i)),
        Op::BoolToSlot => Some((seq![b], i)),
        Op::SlotToBool => Some((seq![i], b)),
        Op::FloatToSlot => Some((seq![f], i)),
        Op::SlotToFloat => Some((seq![i], f)),
        Op::PtrToSlot => Some((seq![p], i)),
        Op::SlotToPtr => Some((seq![i], p)),
        Op::IsNull => Some((seq![p], b)),
        Op::New(_) | Op::NewTagged(_) => Some((seq![], p)),
        Op::Slot(_) => Some((seq![p], p)),
        Op::Offset => Some((seq![p, i], p)),
        Op::Load(ty) => Some((seq![p], ty)),
        Op::LoadByte => Some((seq![p], i)),
        Op::StoreByte => Some((seq![p, i], i)),
        Op::GetVar(k) => if k < slots.len() {
            Some((seq![], slots[k as int]))
        } else {
            None
        },
        Op::SetVar(k) => if k < slots.len() {
            Some((seq![slots[k as int]], i))
        } else {
            None
        },
        Op::Rt(f) => Some(rt_sig(f)),
        Op::Select | Op::Store => None,
    }
}

/// An instruction takes operands of types `ins`, and gives a value of type `out`.
pub open spec fn op_takes(slots: Seq<IrTy>, op: Op, ins: Seq<IrTy>, out: IrTy) -> bool {
    match op {
        Op::Select => ins =~= seq![IrTy::I1, out, out],
        Op::Store => ins.len() == 2 && ins[0] == IrTy::Ptr && out == IrTy::I64,
        _ => match op_sig(slots, op) {
            Some((want, give)) => ins =~= want && out == give,
            None => false,
        },
    }
}

pub open spec fn op_ok(
    regs: Seq<IrTy>,
    slots: Seq<IrTy>,
    dst: nat,
    op: Op,
    args: Seq<OpndV>,
) -> bool {
    &&& dst < regs.len()
    &&& exists|ins: Seq<IrTy>| #[trigger]
        are_of(regs, args, ins) && op_takes(slots, op, ins, regs[dst as int])
}

pub open spec fn call_ok(
    s: Sigs,
    regs: Seq<IrTy>,
    dst: nat,
    func: nat,
    args: Seq<OpndV>,
) -> bool {
    &&& dst < regs.len()
    &&& func < s.funcs.len()
    &&& are_of(regs, args, s.funcs[func as int].0)
    &&& regs[dst as int] == s.funcs[func as int].1
}

/// A piece of code in which everything has its type.
#[verifier::opaque]
pub open spec fn code_ok(s: Sigs, regs: Seq<IrTy>, slots: Seq<IrTy>, c: CodeV) -> bool
    decreases c,
{
    match c {
        CodeV::Do(InstV::Op { dst, op, args }) => op_ok(regs, slots, dst, op, args),
        CodeV::Do(InstV::Call { dst, func, args }) => call_ok(s, regs, dst, func, args),
        CodeV::If { cond, then, els } => {
            &&& is_of(regs, cond, IrTy::I1)
            &&& forall|k: int| 0 <= k < then.len() ==> code_ok(s, regs, slots, #[trigger] then[k])
            &&& forall|k: int| 0 <= k < els.len() ==> code_ok(s, regs, slots, #[trigger] els[k])
        },
        CodeV::Loop { head, cond, body, step } => {
            &&& is_of(regs, cond, IrTy::I1)
            &&& forall|k: int| 0 <= k < head.len() ==> code_ok(s, regs, slots, #[trigger] head[k])
            &&& forall|k: int| 0 <= k < body.len() ==> code_ok(s, regs, slots, #[trigger] body[k])
            &&& forall|k: int| 0 <= k < step.len() ==> code_ok(s, regs, slots, #[trigger] step[k])
        },
        CodeV::Switch { on, tags, cases, default } => {
            &&& is_of(regs, on, IrTy::I64)
            &&& forall|k: int, m: int|
                0 <= k < cases.len() && 0 <= m < cases[k].len() ==> code_ok(
                    s,
                    regs,
                    slots,
                    #[trigger] cases[k][m],
                )
            &&& forall|k: int|
                0 <= k < default.len() ==> code_ok(s, regs, slots, #[trigger] default[k])
        },
        CodeV::Break | CodeV::Continue | CodeV::Panic(_) => true,
        CodeV::Return(v) => is_of(regs, v, s.ret),
    }
}

pub open spec fn codes_ok(s: Sigs, regs: Seq<IrTy>, slots: Seq<IrTy>, cs: Seq<CodeV>) -> bool {
    forall|k: int| 0 <= k < cs.len() ==> code_ok(s, regs, slots, #[trigger] cs[k])
}

/// A row of types that goes on where another ends.
pub open spec fn more(a: Seq<IrTy>, b: Seq<IrTy>) -> bool {
    a.len() <= b.len() && b.take(a.len() as int) == a
}

pub proof fn lemma_more(a: Seq<IrTy>, b: Seq<IrTy>, c: Seq<IrTy>)
    requires
        more(a, b),
        more(b, c),
    ensures
        more(a, c),
{
    assert(c.take(a.len() as int) =~= c.take(b.len() as int).take(a.len() as int));
}

pub proof fn lemma_more_at(a: Seq<IrTy>, b: Seq<IrTy>, i: int)
    requires
        more(a, b),
        0 <= i < a.len(),
    ensures
        b[i] == a[i],
{
    assert(b.take(a.len() as int)[i] == b[i]);
}

pub proof fn lemma_is_more(a: Seq<IrTy>, b: Seq<IrTy>, v: OpndV, ty: IrTy)
    requires
        more(a, b),
        is_of(a, v, ty),
    ensures
        is_of(b, v, ty),
{
    if let OpndV::Reg(r) = v {
        lemma_more_at(a, b, r as int);
    }
}

pub proof fn lemma_are_more(a: Seq<IrTy>, b: Seq<IrTy>, vs: Seq<OpndV>, tys: Seq<IrTy>)
    requires
        more(a, b),
        are_of(a, vs, tys),
    ensures
        are_of(b, vs, tys),
{
    assert forall|i: int| 0 <= i < vs.len() implies is_of(b, #[trigger] vs[i], tys[i]) by {
        lemma_is_more(a, b, vs[i], tys[i]);
    }
}

/// Code keeps its types where registers and variables are added.
proof fn lemma_code_more(
    s: Sigs,
    regs: Seq<IrTy>,
    slots: Seq<IrTy>,
    regs2: Seq<IrTy>,
    slots2: Seq<IrTy>,
    c: CodeV,
)
    requires
        more(regs, regs2),
        more(slots, slots2),
        code_ok(s, regs, slots, c),
    ensures
        code_ok(s, regs2, slots2, c),
    decreases c,
{
    reveal(code_ok);
    match c {
        CodeV::Do(InstV::Op { dst, op, args }) => {
            let ins = choose|ins: Seq<IrTy>| #[trigger]
                are_of(regs, args, ins) && op_takes(slots, op, ins, regs[dst as int]);
            lemma_are_more(regs, regs2, args, ins);
            lemma_more_at(regs, regs2, dst as int);
            if let Op::GetVar(k) = op {
                lemma_more_at(slots, slots2, k as int);
            }
            if let Op::SetVar(k) = op {
                lemma_more_at(slots, slots2, k as int);
            }
            assert(op_takes(slots2, op, ins, regs2[dst as int]));
        },
        CodeV::Do(InstV::Call { dst, func, args }) => {
            lemma_are_more(regs, regs2, args, s.funcs[func as int].0);
            lemma_more_at(regs, regs2, dst as int);
        },
        CodeV::If { cond, then, els } => {
            lemma_is_more(regs, regs2, cond, IrTy::I1);
            assert forall|k: int| 0 <= k < then.len() implies code_ok(
                s,
                regs2,
                slots2,
                #[trigger] then[k],
            ) by {
                lemma_code_more(s, regs, slots, regs2, slots2, then[k]);
            }
            assert forall|k: int| 0 <= k < els.len() implies code_ok(
                s,
                regs2,
                slots2,
                #[trigger] els[k],
            ) by {
                lemma_code_more(s, regs, slots, regs2, slots2, els[k]);
            }
        },
        CodeV::Loop { head, cond, body, step } => {
            lemma_is_more(regs, regs2, cond, IrTy::I1);
            assert forall|k: int| 0 <= k < head.len() implies code_ok(
                s,
                regs2,
                slots2,
                #[trigger] head[k],
            ) by {
                lemma_code_more(s, regs, slots, regs2, slots2, head[k]);
            }
            assert forall|k: int| 0 <= k < body.len() implies code_ok(
                s,
                regs2,
                slots2,
                #[trigger] body[k],
            ) by {
                lemma_code_more(s, regs, slots, regs2, slots2, body[k]);
            }
            assert forall|k: int| 0 <= k < step.len() implies code_ok(
                s,
                regs2,
                slots2,
                #[trigger] step[k],
            ) by {
                lemma_code_more(s, regs, slots, regs2, slots2, step[k]);
            }
        },
        CodeV::Switch { on, tags, cases, default } => {
            lemma_is_more(regs, regs2, on, IrTy::I64);
            assert forall|k: int, m: int|
                0 <= k < cases.len() && 0 <= m < cases[k].len() implies code_ok(
                s,
                regs2,
                slots2,
                #[trigger] cases[k][m],
            ) by {
                lemma_code_more(s, regs, slots, regs2, slots2, cases[k][m]);
            }
            assert forall|k: int| 0 <= k < default.len() implies code_ok(
                s,
                regs2,
                slots2,
                #[trigger] default[k],
            ) by {
                lemma_code_more(s, regs, slots, regs2, slots2, default[k]);
            }
        },
        CodeV::Return(v) => lemma_is_more(regs, regs2, v, s.ret),
        _ => {},
    }
}

pub proof fn lemma_codes_more(s: Sigs, g: Gen, h: Gen, cs: Seq<CodeV>)
    requires
        more(g.regs, h.regs),
        more(g.slots, h.slots),
        codes_ok(s, g.regs, g.slots, cs),
    ensures
        codes_ok(s, h.regs, h.slots, cs),
{
    assert forall|k: int| 0 <= k < cs.len() implies code_ok(s, h.regs, h.slots, #[trigger] cs[k]) by {
        lemma_code_more(s, g.regs, g.slots, h.regs, h.slots, cs[k]);
    }
}

/// The variables can be counted.
pub open spec fn counted(g: Gen) -> bool {
    g.slots.len() <= usize::MAX
}

/// `h` goes on where `g` ends, with code that writes each of its registers once, and that has
/// types if its variables can be counted.
#[verifier::opaque]
pub open spec fn goes_on(s: Sigs, g: Gen, h: Gen) -> bool {
    &&& more(g.regs, h.regs)
    &&& more(g.slots, h.slots)
    &&& g.code.len() <= h.code.len()
    &&& h.code.take(g.code.len() as int) == g.code
    &&& adds(g.code, h.code, g.regs.len(), h.regs.len())
    &&& counted(h) ==> forall|k: int|
        g.code.len() <= k < h.code.len() ==> code_ok(s, h.regs, h.slots, #[trigger] h.code[k])
}

pub proof fn lemma_on_self(s: Sigs, g: Gen)
    ensures
        goes_on(s, g, g),
{
    reveal(goes_on);
    lemma_adds_self(g.code, g.regs.len());
    assert(g.code.take(g.code.len() as int) =~= g.code);
    assert(g.regs.take(g.regs.len() as int) =~= g.regs);
    assert(g.slots.take(g.slots.len() as int) =~= g.slots);
}

pub proof fn lemma_on(s: Sigs, f: Gen, g: Gen, h: Gen)
    requires
        goes_on(s, f, g),
        goes_on(s, g, h),
    ensures
        goes_on(s, f, h),
{
    reveal(goes_on);
    lemma_more(f.regs, g.regs, h.regs);
    lemma_more(f.slots, g.slots, h.slots);
    lemma_adds(f.code, g.code, h.code, f.regs.len(), g.regs.len(), h.regs.len());
    assert(h.code.take(f.code.len() as int) =~= h.code.take(g.code.len() as int).take(
        f.code.len() as int,
    ));
    if counted(h) {
        assert forall|k: int| f.code.len() <= k < h.code.len() implies code_ok(
            s,
            h.regs,
            h.slots,
            #[trigger] h.code[k],
        ) by {
            if k < g.code.len() {
                assert(h.code.take(g.code.len() as int)[k] == h.code[k]);
                lemma_code_more(s, g.regs, g.slots, h.regs, h.slots, g.code[k]);
            }
        }
    }
}

/// What code goes on with.
pub proof fn lemma_on_has(s: Sigs, g: Gen, h: Gen)
    requires
        goes_on(s, g, h),
    ensures
        more(g.regs, h.regs),
        more(g.slots, h.slots),
{
    reveal(goes_on);
}

pub proof fn lemma_on_is(s: Sigs, g: Gen, h: Gen, v: OpndV, ty: IrTy)
    requires
        goes_on(s, g, h),
        is_of(g.regs, v, ty),
    ensures
        is_of(h.regs, v, ty),
{
    reveal(goes_on);
    lemma_is_more(g.regs, h.regs, v, ty);
}

pub proof fn lemma_on_are(s: Sigs, g: Gen, h: Gen, vs: Seq<OpndV>, tys: Seq<IrTy>)
    requires
        goes_on(s, g, h),
        are_of(g.regs, vs, tys),
    ensures
        are_of(h.regs, vs, tys),
{
    reveal(goes_on);
    lemma_are_more(g.regs, h.regs, vs, tys);
}

/// Code of its own that goes on from `g` has types.
pub proof fn lemma_inner(s: Sigs, g: Gen, h: Gen)
    requires
        goes_on(s, inner(g), h),
    ensures
        counted(h) ==> codes_ok(s, h.regs, h.slots, h.code),
        more(g.regs, h.regs),
        more(g.slots, h.slots),
        fills_in(h.code, g.regs.len(), h.regs.len()),
{
    reveal(goes_on);
    lemma_adds_none(h.code, g.regs.len(), h.regs.len());
}

/// One more piece of code.
pub proof fn lemma_on_then(s: Sigs, g: Gen, c: CodeV, last: Gen)
    requires
        more(g.regs, last.regs),
        more(g.slots, last.slots),
        fills(c, g.regs.len(), last.regs.len()),
        counted(last) ==> code_ok(s, last.regs, last.slots, c),
    ensures
        goes_on(s, g, then_code(g, c, last)),
{
    reveal(goes_on);
    let h = then_code(g, c, last);
    lemma_adds_push(g.code, c, g.regs.len(), last.regs.len());
    assert(h.code.take(g.code.len() as int) =~= g.code);
}

/// One more instruction.
pub proof fn lemma_on_put(
    s: Sigs,
    g: Gen,
    ty: IrTy,
    op: Op,
    args: Seq<OpndV>,
    ins: Seq<IrTy>,
)
    requires
        are_of(g.regs, args, ins),
        counted(g) ==> op_takes(g.slots, op, ins, ty),
    ensures
        goes_on(s, g, put(g, ty, op, args)),
        put(g, ty, op, args).regs == g.regs.push(ty),
        is_of(put(g, ty, op, args).regs, OpndV::Reg(g.regs.len()), ty),
{
    reveal(goes_on);
    reveal(code_ok);
    let h = put(g, ty, op, args);
    let inst = InstV::Op { dst: g.regs.len(), op, args };
    lemma_fills_inst(inst, g.regs.len());
    lemma_adds_push(g.code, CodeV::Do(inst), g.regs.len(), h.regs.len());
    assert(h.code.take(g.code.len() as int) =~= g.code);
    assert(h.regs.take(g.regs.len() as int) =~= g.regs);
    assert(h.slots.take(g.slots.len() as int) =~= g.slots);
    lemma_are_more(g.regs, h.regs, args, ins);
    if counted(g) {
        assert(op_ok(h.regs, h.slots, g.regs.len(), op, args));
    }
}

/// A branch.
pub proof fn lemma_if(s: Sigs, last: Gen, cond: OpndV, then: Seq<CodeV>, els: Seq<CodeV>)
    requires
        is_of(last.regs, cond, IrTy::I1),
        codes_ok(s, last.regs, last.slots, then),
        codes_ok(s, last.regs, last.slots, els),
    ensures
        code_ok(s, last.regs, last.slots, CodeV::If { cond, then, els }),
{
    reveal(code_ok);
}

/// A check.
pub proof fn lemma_on_stop(s: Sigs, g: Gen, cond: OpndV, msg: Seq<char>)
    requires
        is_of(g.regs, cond, IrTy::I1),
    ensures
        goes_on(s, g, stop_if(g, cond, msg)),
        goes_on(s, g, stop_unless(g, cond, msg)),
{
    assert(code_ok(s, g.regs, g.slots, CodeV::Panic(msg))) by {
        reveal(code_ok);
    }
    lemma_on_self(s, g);
    lemma_on_has(s, g, g);
    lemma_fills_stop(cond, msg, g.regs.len());
    lemma_if(s, g, cond, seq![CodeV::Panic(msg)], Seq::empty());
    lemma_if(s, g, cond, Seq::empty(), seq![CodeV::Panic(msg)]);
    lemma_on_then(
        s,
        g,
        CodeV::If { cond, then: seq![CodeV::Panic(msg)], els: Seq::empty() },
        g,
    );
    lemma_on_then(
        s,
        g,
        CodeV::If { cond, then: Seq::empty(), els: seq![CodeV::Panic(msg)] },
        g,
    );
}

/// One more variable.
pub proof fn lemma_on_slot(s: Sigs, g: Gen, ty: IrTy)
    ensures
        goes_on(s, g, new_slot(g, ty)),
{
    reveal(goes_on);
    let h = new_slot(g, ty);
    lemma_adds_self(g.code, g.regs.len());
    assert(h.code.take(g.code.len() as int) =~= g.code);
    assert(h.regs.take(g.regs.len() as int) =~= g.regs);
    assert(h.slots.take(g.slots.len() as int) =~= g.slots);
}

/// An expression's code goes on, and its value is of a type.
pub open spec fn sound(s: Sigs, g: Gen, r: (Gen, OpndV), ty: IrTy) -> bool {
    goes_on(s, g, r.0) && is_of(r.0.regs, r.1, ty)
}

} // verus!
