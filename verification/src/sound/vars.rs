//! Variables that have room of their types.
use vstd::prelude::*;
#[allow(unused_imports)]
use crate::ir::basic_ty;
#[allow(unused_imports)]
use crate::lowering::{inner, new_slot, slot_of, tenv, Gen, VarV};
#[allow(unused_imports)]
use crate::sound::code::{counted, goes_on, lemma_more_at, Sigs};
#[allow(unused_imports)]
use crate::types::Ty;
#[allow(unused_imports)]
use crate::typing::lookup;

verus! {

/// Every variable has room of its type.
#[verifier::opaque]
pub open spec fn vars_ok(vars: Seq<VarV>, g: Gen) -> bool {
    counted(g) ==> forall|i: int|
        0 <= i < vars.len() ==> (#[trigger] vars[i]).slot < g.slots.len()
            && g.slots[vars[i].slot as int] == basic_ty(vars[i].ty)
}

pub proof fn lemma_vars_on(s: Sigs, vars: Seq<VarV>, g: Gen, h: Gen)
    requires
        vars_ok(vars, g),
        goes_on(s, g, h),
    ensures
        vars_ok(vars, h),
        vars_ok(vars, inner(h)),
{
    reveal(vars_ok);
    reveal(goes_on);
    if counted(h) {
        assert forall|i: int| 0 <= i < vars.len() implies (#[trigger] vars[i]).slot < h.slots.len()
            && h.slots[vars[i].slot as int] == basic_ty(vars[i].ty) by {
            lemma_more_at(g.slots, h.slots, vars[i].slot as int);
        }
    }
}

/// A new variable.
pub proof fn lemma_vars_push(vars: Seq<VarV>, g: Gen, name: Seq<char>, t: Ty)
    requires
        vars_ok(vars, g),
    ensures
        vars_ok(
            vars.push(VarV { name, slot: g.slots.len() as usize, ty: t }),
            new_slot(g, basic_ty(t)),
        ),
{
    reveal(vars_ok);
}

/// The innermost variable of a name has room of the type that the name has.
pub proof fn lemma_slot_of(vars: Seq<VarV>, g: Gen, name: Seq<char>)
    requires
        vars_ok(vars, g),
        lookup(tenv(vars), name) is Some,
        counted(g),
    ensures
        slot_of(vars, name) < g.slots.len(),
        g.slots[slot_of(vars, name) as int] == basic_ty(lookup(tenv(vars), name)->0),
    decreases vars.len(),
{
    reveal(vars_ok);
    if vars.len() > 0 {
        let last = vars[vars.len() - 1];
        assert(tenv(vars).last() == (last.name, last.ty));
        if last.name != name {
            assert(tenv(vars).drop_last() =~= tenv(vars.drop_last()));
            lemma_slot_of(vars.drop_last(), g, name);
        }
    }
}

} // verus!
