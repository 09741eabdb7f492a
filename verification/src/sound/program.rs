//! The functions of a lowered program have types.
use vstd::prelude::*;
#[allow(unused_imports)]
use crate::ast::{FunctionV, ProgramV};
#[allow(unused_imports)]
use crate::faithful::program::{countable, func_place, lemma_bodies, lemma_params};
#[allow(unused_imports)]
use crate::faithful::stmt_anatomy::stmts_at;
#[allow(unused_imports)]
use crate::ir::{basic_ty, CodeV, IrFuncV, IrTy};
#[allow(unused_imports)]
use crate::lowering::{inner, lower_func, lowered, param_slots, param_vars, then_code, zero_of, Gen};
#[allow(unused_imports)]
use crate::sound::code::{
    code_ok, codes_ok, is_of, lemma_inner, lemma_on, lemma_on_has, lemma_on_self, lemma_on_then,
    more, Sigs,
};
#[allow(unused_imports)]
use crate::sound::exprs::sigs_of;
#[allow(unused_imports)]
use crate::sound::fits::basic_tys;
#[allow(unused_imports)]
use crate::sound::once::{fills_in, lemma_fills_jump, times_in};
#[allow(unused_imports)]
use crate::sound::stmts::lemma_stmts;
#[allow(unused_imports)]
use crate::sound::vars::vars_ok;
#[allow(unused_imports)]
use crate::typing::{checked, func_ok, param_types, resolve};

verus! {

/// What functions take and give.
pub open spec fn sigs_in(fs: Seq<IrFuncV>) -> Seq<(Seq<IrTy>, IrTy)> {
    Seq::new(fs.len(), |i: int| (fs[i].params, fs[i].ret))
}

/// A function in which everything has its type, among the functions `fs`: its first variables
/// are its parameters, and every part of its code agrees with its registers, its variables,
/// what it gives, and the functions that it calls.
pub open spec fn has_types(fs: Seq<IrFuncV>, f: IrFuncV) -> bool {
    &&& more(f.params, f.slots)
    &&& codes_ok(Sigs { funcs: sigs_in(fs), ret: f.ret }, f.regs, f.slots, f.code)
}

proof fn lemma_sigs(p: ProgramV)
    ensures
        sigs_in(lowered(p)) == sigs_of(p),
{
    assert forall|i: int| 0 <= i < p.funcs.len() implies sigs_in(lowered(p))[i] == #[trigger] sigs_of(
        p,
    )[i] by {
        let ps = p.funcs[i].params;
        assert(param_slots(p, ps) =~= basic_tys(param_types(p, ps)));
    }
    assert(sigs_in(lowered(p)) =~= sigs_of(p));
}

/// The code that an accepted function is lowered to has types.
proof fn lemma_func_types(p: ProgramV, f: FunctionV)
    requires
        func_ok(p, f) is Ok,
        lower_func(p, f).slots.len() <= usize::MAX,
    ensures
        has_types(lowered(p), lower_func(p, f)),
        fills_in(lower_func(p, f).code, 0, lower_func(p, f).regs.len()),
{
    lemma_sigs(p);
    lemma_params(p, f);
    let ret = resolve(p, f.ret);
    let sigs = Sigs { funcs: sigs_in(lowered(p)), ret: basic_ty(ret) };
    let vars = param_vars(p, f.params);
    let start = Gen { code: Seq::empty(), regs: Seq::empty(), slots: param_slots(p, f.params) };
    assert(vars_ok(vars, start)) by {
        reveal(vars_ok);
    }
    let body = stmts_at(p, vars, start, f.body, 0);
    lemma_stmts(sigs, func_place(p, f), vars, start, f.body, 0);
    let last = then_code(body, CodeV::Return(zero_of(ret)), body);
    assert(is_of(body.regs, zero_of(ret), basic_ty(ret)));
    assert(code_ok(sigs, body.regs, body.slots, CodeV::Return(zero_of(ret)))) by {
        reveal(code_ok);
    }
    lemma_on_self(sigs, body);
    lemma_on_has(sigs, body, body);
    lemma_fills_jump(CodeV::Return(zero_of(ret)), body.regs.len());
    lemma_on_then(sigs, body, CodeV::Return(zero_of(ret)), body);
    lemma_on(sigs, start, body, last);
    assert(start == inner(start));
    lemma_inner(sigs, start, body);
    lemma_inner(sigs, start, last);
    reveal(stmts_at);
}

/// In the functions that an accepted program is lowered to, everything has its type: every
/// instruction is given operands of the types that it takes and its register has the type of
/// what it gives, conditions are truth values, calls agree with the functions that they are
/// of, and what a function returns is of the type that it gives.
pub proof fn lowered_functions_have_types(p: ProgramV, i: int)
    requires
        checked(p) is Ok,
        countable(p),
        0 <= i < p.funcs.len(),
    ensures
        has_types(lowered(p), lowered(p)[i]),
{
    lemma_bodies(p, 0, i);
    assert(lower_func(p, p.funcs[i]).slots.len() <= usize::MAX);
    lemma_func_types(p, p.funcs[i]);
}

/// In the functions that an accepted program is lowered to, every register is written by one
/// instruction, and nothing else is written.
pub proof fn registers_are_written_once(p: ProgramV, i: int, r: nat)
    requires
        checked(p) is Ok,
        countable(p),
        0 <= i < p.funcs.len(),
    ensures
        times_in(lowered(p)[i].code, r) == if r < lowered(p)[i].regs.len() {
            1nat
        } else {
            0nat
        },
{
    lemma_bodies(p, 0, i);
    assert(lower_func(p, p.funcs[i]).slots.len() <= usize::MAX);
    lemma_func_types(p, p.funcs[i]);
    reveal(fills_in);
}

} // verus!
