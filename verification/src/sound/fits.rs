//! The types that the rows work on.
use vstd::prelude::*;
#[allow(unused_imports)]
use crate::assembly::rt_sig;
#[allow(unused_imports)]
use crate::ast::{BinOp, UnOp};
#[allow(unused_imports)]
use crate::builtins::Builtin;
#[allow(unused_imports)]
use crate::faithful::anatomy::binary_row;
#[allow(unused_imports)]
use crate::ir::{basic_ty, IrTy, Op, Rt};
#[allow(unused_imports)]
use crate::lowering::{checks_first, elem_of, float_op, int_op, plain_rt, pred_of, sort_fn};
#[allow(unused_imports)]
use crate::meaning::{
    absolute_row, append_row, array_data, array_row, builtin_row, byte_get_row, checked_row,
    chomp_row, chr_row, contains_row, convert_row, elem_get_row, elem_set_row, extremum_row,
    grow_row, infix_row, item_row, length_row, line_row, load_row, map_get_row, map_put_row,
    null_row, pop_row, prefix_row, print_row, refs_row, replace_row, room_row, same, second_row,
    single, slice_row, store_row, substr_row, text_row, variant_row, Part, Src, Srcs,
};
#[allow(unused_imports)]
use crate::sound::code::op_takes;
#[allow(unused_imports)]
use crate::sound::rows::{fits, made, made_from, parts_fit, row_fits, src_ty, src_tys};
#[allow(unused_imports)]
use crate::span::Span;
#[allow(unused_imports)]
use crate::types::Ty;
#[allow(unused_imports)]
use crate::typing::{binary_type, fixed_sig, generic_arity, generic_rule, unary_type};
#[allow(unused_imports)]
use crate::typing;

verus! {

pub open spec fn basic_tys(ts: Seq<Ty>) -> Seq<IrTy> {
    Seq::new(ts.len(), |i: int| basic_ty(ts[i]))
}

pub proof fn fits_single(ty: IrTy, op: Op, args: Srcs, ins: Seq<IrTy>)
    requires
        !(op is GetVar),
        !(op is SetVar),
        src_tys(ins, Seq::empty(), args) matches Some(tys) && op_takes(Seq::empty(), op, tys, ty),
    ensures
        row_fits(single(ty, op, args), ins, ty),
{
    reveal(single);
    reveal(fits);
    reveal(made);
    reveal_with_fuel(parts_fit, 2);
    reveal_with_fuel(made_from, 2);
}

pub proof fn fits_null()
    ensures
        fits(null_row().parts, seq![IrTy::Ptr]),
{
    reveal(null_row);
    reveal(fits);
    reveal_with_fuel(parts_fit, 3);
}

pub proof fn fits_prefix(op: UnOp, t: Ty, span: Span)
    requires
        unary_type(op, t, span) is Ok,
    ensures
        row_fits(
            prefix_row(op, t),
            seq![basic_ty(t)],
            basic_ty(unary_type(op, t, span)->Ok_0),
        ),
{
    reveal(prefix_row);
    let v = Srcs::S1(Src::In(0));
    match op {
        UnOp::Neg => if t is Float {
            fits_single(IrTy::F64, Op::FNeg, v, seq![basic_ty(t)]);
        } else {
            fits_single(IrTy::I64, Op::Neg, v, seq![basic_ty(t)]);
        },
        UnOp::Not => fits_single(IrTy::I1, Op::Not, v, seq![basic_ty(t)]),
        UnOp::BitNot => fits_single(IrTy::I64, Op::BitNot, v, seq![basic_ty(t)]),
    }
}

proof fn fits_strings(op: BinOp, t: Ty)
    requires
        t is Str,
    ensures
        row_fits(
            infix_row(op, t),
            seq![IrTy::Ptr, IrTy::Ptr],
            if pred_of(op) is Some {
                IrTy::I1
            } else {
                IrTy::Ptr
            },
        ),
{
    reveal(infix_row);
    reveal(fits);
    reveal(made);
    reveal_with_fuel(parts_fit, 8);
    reveal_with_fuel(made_from, 8);
}

proof fn fits_floats(op: BinOp, t: Ty)
    requires
        t is Float,
    ensures
        row_fits(
            infix_row(op, t),
            seq![IrTy::F64, IrTy::F64],
            if pred_of(op) is Some {
                IrTy::I1
            } else {
                IrTy::F64
            },
        ),
{
    reveal(infix_row);
    let both = Srcs::S2(Src::In(0), Src::In(1));
    let ins = seq![IrTy::F64, IrTy::F64];
    match pred_of(op) {
        Some(pr) => fits_single(IrTy::I1, Op::FCmp(pr), both, ins),
        None => fits_single(IrTy::F64, float_op(op), both, ins),
    }
}

proof fn fits_ints(op: BinOp, t: Ty)
    requires
        t is Int,
    ensures
        row_fits(
            infix_row(op, t),
            seq![IrTy::I64, IrTy::I64],
            if pred_of(op) is Some {
                IrTy::I1
            } else {
                IrTy::I64
            },
        ),
{
    reveal(infix_row);
    let both = Srcs::S2(Src::In(0), Src::In(1));
    let ins = seq![IrTy::I64, IrTy::I64];
    match pred_of(op) {
        Some(pr) => fits_single(IrTy::I1, Op::ICmp(pr), both, ins),
        None => if op == BinOp::Div || op == BinOp::Mod {
            reveal(fits);
            reveal(made);
            reveal_with_fuel(parts_fit, 4);
            reveal_with_fuel(made_from, 4);
        } else {
            fits_single(IrTy::I64, int_op(op), both, ins);
        },
    }
}

proof fn fits_refs(op: BinOp)
    ensures
        row_fits(refs_row(op), seq![IrTy::Ptr, IrTy::Ptr], IrTy::I1),
{
    reveal(refs_row);
    reveal(fits);
    reveal(made);
    reveal_with_fuel(parts_fit, 4);
    reveal_with_fuel(made_from, 4);
}

/// A value that fits a type is held as one of that type.
pub proof fn lemma_fits_basic(want: Ty, got: Ty)
    requires
        typing::fits(want, got),
    ensures
        basic_ty(want) == basic_ty(got),
{
}

/// Operators between operands.
pub proof fn fits_binary(op: BinOp, lt: Ty, rt: Ty, ls: Span, rs: Span, span: Span)
    requires
        binary_type(op, lt, rt, ls, rs, span) is Ok,
        op != BinOp::And,
        op != BinOp::Or,
    ensures
        row_fits(
            binary_row(op, lt, rt),
            seq![basic_ty(lt), basic_ty(rt)],
            basic_ty(binary_type(op, lt, rt, ls, rs, span)->Ok_0),
        ),
{
    reveal(binary_row);
    let ins = seq![basic_ty(lt), basic_ty(rt)];
    if (op == BinOp::Eq || op == BinOp::Ne) && (lt is Null || rt is Null) {
        assert(ins =~= seq![IrTy::Ptr, IrTy::Ptr]);
        fits_refs(op);
    } else if lt is Str {
        assert(ins =~= seq![IrTy::Ptr, IrTy::Ptr]);
        fits_strings(op, lt);
    } else if lt is Float {
        assert(ins =~= seq![IrTy::F64, IrTy::F64]);
        fits_floats(op, lt);
    } else {
        assert(ins =~= seq![IrTy::I64, IrTy::I64]);
        fits_ints(op, lt);
    }
}

pub proof fn fits_length(t: Ty)
    ensures
        row_fits(length_row(t), seq![IrTy::Ptr], IrTy::I64),
{
    reveal(length_row);
    let v = Srcs::S1(Src::In(0));
    if t is Str {
        fits_single(IrTy::I64, Op::Rt(Rt::StrLen), v, seq![IrTy::Ptr]);
    } else {
        fits_single(IrTy::I64, Op::Load(IrTy::I64), v, seq![IrTy::Ptr]);
    }
}

pub proof fn fits_store(i: usize, ty: IrTy)
    ensures
        fits(store_row(i), seq![IrTy::Ptr, ty]),
{
    reveal(store_row);
    reveal(fits);
    reveal_with_fuel(parts_fit, 3);
}

pub proof fn fits_load(ty: IrTy, i: usize)
    ensures
        row_fits(load_row(ty, i), seq![IrTy::Ptr], ty),
{
    reveal(load_row);
    reveal(fits);
    reveal(made);
    reveal_with_fuel(parts_fit, 3);
    reveal_with_fuel(made_from, 3);
}

pub proof fn fits_variant(n: usize, k: usize)
    ensures
        row_fits(variant_row(n, k), Seq::empty(), IrTy::Ptr),
{
    reveal(variant_row);
    reveal(fits);
    reveal(made);
    reveal_with_fuel(parts_fit, 3);
    reveal_with_fuel(made_from, 3);
}

pub proof fn fits_array(n: usize)
    ensures
        row_fits(array_row(n), Seq::empty(), IrTy::Ptr),
        src_ty(Seq::empty(), made(array_row(n).parts), array_data(n)) == Some(IrTy::Ptr),
{
    reveal(array_row);
    reveal(fits);
    reveal(made);
    reveal_with_fuel(parts_fit, 8);
    reveal_with_fuel(made_from, 8);
}

pub proof fn fits_map_get(t: Ty)
    ensures
        row_fits(map_get_row(t), seq![IrTy::Ptr, IrTy::Ptr], basic_ty(t)),
{
    reveal(map_get_row);
    reveal(fits);
    reveal(made);
    reveal_with_fuel(parts_fit, 4);
    reveal_with_fuel(made_from, 4);
}

pub proof fn fits_byte_get()
    ensures
        row_fits(byte_get_row(), seq![IrTy::Ptr, IrTy::I64], IrTy::I64),
{
    reveal(byte_get_row);
    reveal(fits);
    reveal(made);
    reveal_with_fuel(parts_fit, 6);
    reveal_with_fuel(made_from, 6);
}

pub proof fn fits_elem_get(ty: IrTy)
    ensures
        row_fits(elem_get_row(ty), seq![IrTy::Ptr, IrTy::I64], ty),
{
    reveal(elem_get_row);
    reveal(fits);
    reveal(made);
    reveal_with_fuel(parts_fit, 9);
    reveal_with_fuel(made_from, 9);
}

pub proof fn fits_elem_set(ty: IrTy)
    ensures
        fits(elem_set_row(), seq![IrTy::Ptr, IrTy::I64, ty]),
{
    reveal(elem_set_row);
    reveal(fits);
    reveal_with_fuel(parts_fit, 9);
}

pub proof fn fits_slice(t: Ty)
    ensures
        row_fits(slice_row(t), seq![IrTy::Ptr, IrTy::I64, IrTy::I64, IrTy::I64], IrTy::Ptr),
{
    reveal(slice_row);
    reveal(fits);
    reveal(made);
    reveal_with_fuel(parts_fit, 9);
    reveal_with_fuel(made_from, 9);
}

pub proof fn fits_map_put(t: Ty)
    ensures
        fits(map_put_row(t), seq![IrTy::Ptr, IrTy::Ptr, basic_ty(t)]),
{
    reveal(map_put_row);
    reveal(fits);
    reveal_with_fuel(parts_fit, 4);
}

pub proof fn fits_print(t: Ty)
    requires
        t is Int || t is Float || t is Bool || t is Str,
    ensures
        fits(print_row(t), seq![basic_ty(t)]),
{
    reveal(print_row);
    reveal(single);
    reveal(fits);
    reveal_with_fuel(parts_fit, 3);
}

pub proof fn fits_item(ty: IrTy)
    ensures
        row_fits(item_row(ty), seq![IrTy::Ptr, IrTy::I64], ty),
{
    reveal(item_row);
    reveal(fits);
    reveal(made);
    reveal_with_fuel(parts_fit, 6);
    reveal_with_fuel(made_from, 6);
}

pub proof fn fits_line()
    ensures
        fits(line_row(), Seq::empty()),
        made(line_row()) == seq![IrTy::Ptr, IrTy::Ptr, IrTy::I1],
        fits(chomp_row(), seq![IrTy::Ptr]),
{
    reveal(line_row);
    reveal(chomp_row);
    reveal(fits);
    reveal(made);
    reveal_with_fuel(parts_fit, 4);
    reveal_with_fuel(made_from, 4);
    assert(Seq::<IrTy>::empty().push(IrTy::Ptr).push(IrTy::Ptr).push(IrTy::I1) =~= seq![
        IrTy::Ptr,
        IrTy::Ptr,
        IrTy::I1,
    ]);
}

pub proof fn fits_room()
    ensures
        fits(room_row(), seq![IrTy::Ptr]),
        made(room_row()) == seq![IrTy::I64, IrTy::Ptr, IrTy::I64, IrTy::I1],
{
    reveal(room_row);
    reveal(fits);
    reveal(made);
    reveal_with_fuel(parts_fit, 5);
    reveal_with_fuel(made_from, 5);
    assert(Seq::<IrTy>::empty().push(IrTy::I64).push(IrTy::Ptr).push(IrTy::I64).push(IrTy::I1)
        =~= seq![IrTy::I64, IrTy::Ptr, IrTy::I64, IrTy::I1]);
}

/// One operation of a row.
proof fn lemma_step(parts: Seq<Part>, i: int, ins: Seq<IrTy>, res: Seq<IrTy>)
    requires
        0 <= i < parts.len(),
        parts[i] matches Part::Do(ty, op, ss) && !(op is GetVar) && !(op is SetVar) && (src_tys(
            ins,
            res,
            ss,
        ) matches Some(tys) && op_takes(Seq::empty(), op, tys, ty)) && parts_fit(
            parts,
            i + 1,
            ins,
            res.push(ty),
        ),
    ensures
        parts_fit(parts, i, ins, res),
{
}

pub proof fn fits_grow()
    ensures
        fits(grow_row(), seq![IrTy::Ptr, IrTy::I64]),
{
    reveal(grow_row);
    reveal(fits);
    let ps = grow_row();
    let ins = seq![IrTy::Ptr, IrTy::I64];
    let r0 = Seq::<IrTy>::empty();
    let r1 = r0.push(IrTy::Ptr);
    let r2 = r1.push(IrTy::Ptr);
    let r3 = r2.push(IrTy::I1);
    let r4 = r3.push(IrTy::I64);
    let r5 = r4.push(IrTy::I64);
    let r6 = r5.push(IrTy::I64);
    let r7 = r6.push(IrTy::Ptr);
    let r8 = r7.push(IrTy::Ptr);
    let r9 = r8.push(IrTy::I64);
    let r10 = r9.push(IrTy::Ptr);
    lemma_step(ps, 10, ins, r10);
    lemma_step(ps, 9, ins, r9);
    lemma_step(ps, 8, ins, r8);
    lemma_step(ps, 7, ins, r7);
    lemma_step(ps, 6, ins, r6);
    lemma_step(ps, 5, ins, r5);
    lemma_step(ps, 4, ins, r4);
    lemma_step(ps, 3, ins, r3);
    lemma_step(ps, 2, ins, r2);
    lemma_step(ps, 1, ins, r1);
    lemma_step(ps, 0, ins, r0);
}

pub proof fn fits_append(ty: IrTy)
    ensures
        fits(append_row(), seq![IrTy::Ptr, ty, IrTy::I64]),
{
    reveal(append_row);
    reveal(fits);
    let ps = append_row();
    let ins = seq![IrTy::Ptr, ty, IrTy::I64];
    let r0 = Seq::<IrTy>::empty();
    let r1 = r0.push(IrTy::Ptr);
    let r2 = r1.push(IrTy::Ptr);
    let r3 = r2.push(IrTy::I64);
    let r4 = r3.push(IrTy::Ptr);
    let r5 = r4.push(IrTy::I64);
    let r6 = r5.push(IrTy::I64);
    lemma_step(ps, 6, ins, r6);
    lemma_step(ps, 5, ins, r5);
    lemma_step(ps, 4, ins, r4);
    lemma_step(ps, 3, ins, r3);
    lemma_step(ps, 2, ins, r2);
    lemma_step(ps, 1, ins, r1);
    lemma_step(ps, 0, ins, r0);
}

pub proof fn fits_second(f: Builtin)
    requires
        f == Builtin::Join || f == Builtin::Has || f == Builtin::Delete,
    ensures
        row_fits(
            second_row(f),
            seq![IrTy::Ptr, IrTy::Ptr],
            if f == Builtin::Join {
                IrTy::Ptr
            } else if f == Builtin::Has {
                IrTy::I1
            } else {
                IrTy::I64
            },
        ),
{
    reveal(second_row);
    reveal(single);
    reveal(fits);
    reveal(made);
    reveal_with_fuel(parts_fit, 3);
    reveal_with_fuel(made_from, 3);
}

proof fn fits_chr()
    ensures
        row_fits(chr_row(), seq![IrTy::I64], IrTy::Ptr),
{
    reveal(fits);
    reveal(made);
    reveal_with_fuel(parts_fit, 5);
    reveal_with_fuel(made_from, 5);
}

proof fn fits_substr()
    ensures
        row_fits(substr_row(), seq![IrTy::Ptr, IrTy::I64, IrTy::I64], IrTy::Ptr),
{
    reveal(fits);
    reveal(made);
    reveal_with_fuel(parts_fit, 10);
    reveal_with_fuel(made_from, 10);
}

proof fn fits_contains()
    ensures
        row_fits(contains_row(), seq![IrTy::Ptr, IrTy::Ptr], IrTy::I1),
        row_fits(replace_row(), seq![IrTy::Ptr, IrTy::Ptr, IrTy::Ptr], IrTy::Ptr),
{
    reveal(fits);
    reveal(made);
    reveal_with_fuel(parts_fit, 3);
    reveal_with_fuel(made_from, 3);
}

/// What a built-in function of one type takes.
pub open spec fn fixed_ins(f: Builtin) -> Seq<IrTy> {
    match fixed_sig(f) {
        Some((params, _)) => basic_tys(params),
        None => Seq::empty(),
    }
}

/// What a built-in function of one type gives.
pub open spec fn fixed_out(f: Builtin) -> IrTy {
    match fixed_sig(f) {
        Some((_, ret)) => basic_ty(ret),
        None => IrTy::I64,
    }
}

/// The built-in functions of one type.
pub proof fn fits_fixed(f: Builtin, t: Ty)
    requires
        fixed_sig(f) is Some,
        f != Builtin::Join,
        f != Builtin::ReadLine,
    ensures
        row_fits(
            builtin_row(f, t),
            fixed_ins(f),
            fixed_out(f),
        ),
{
    reveal(builtin_row);
    let ins = fixed_ins(f);
    match plain_rt(f) {
        Some((rt, ty, more)) => {
            let tys = src_tys(ins, Seq::empty(), Srcs::All(more))->0;
            assert(tys =~= rt_sig(rt).0);
            fits_single(ty, Op::Rt(rt), Srcs::All(more), ins);
        },
        None => if f == Builtin::Chr {
            assert(ins =~= seq![IrTy::I64]);
            fits_chr();
        } else if f == Builtin::Substr {
            assert(ins =~= seq![IrTy::Ptr, IrTy::I64, IrTy::I64]);
            fits_substr();
        } else if f == Builtin::Contains {
            assert(ins =~= seq![IrTy::Ptr, IrTy::Ptr]);
            fits_contains();
        } else {
            assert(f == Builtin::Replace);
            assert(ins =~= seq![IrTy::Ptr, IrTy::Ptr, IrTy::Ptr]);
            fits_contains();
        },
    }
}

/// A value that is given back as it is.
proof fn fits_same(ty: IrTy)
    ensures
        row_fits(same(), seq![ty], ty),
{
    reveal(fits);
    reveal(made);
}

proof fn fits_convert(to_int: bool, t: Ty)
    requires
        t is Int || t is Float || t is Str,
    ensures
        row_fits(
            convert_row(to_int, t),
            seq![basic_ty(t)],
            if to_int {
                IrTy::I64
            } else {
                IrTy::F64
            },
        ),
{
    let v = Srcs::S1(Src::In(0));
    let ins = seq![basic_ty(t)];
    fits_same(basic_ty(t));
    if to_int {
        if t is Float {
            fits_single(IrTy::I64, Op::FpToSi, v, ins);
        } else if t is Str {
            fits_single(IrTy::I64, Op::Rt(Rt::ParseInt), v, ins);
        }
    } else {
        if t is Int {
            fits_single(IrTy::F64, Op::SiToFp, v, ins);
        } else if t is Str {
            fits_single(IrTy::F64, Op::Rt(Rt::ParseFloat), v, ins);
        }
    }
}

proof fn fits_numeric(t: Ty, min: bool)
    requires
        t is Int || t is Float,
    ensures
        row_fits(absolute_row(t), seq![basic_ty(t)], basic_ty(t)),
        row_fits(extremum_row(min, t), seq![basic_ty(t), basic_ty(t)], basic_ty(t)),
{
    if t is Float {
        fits_single(
            IrTy::F64,
            Op::Rt(Rt::Fabs),
            Srcs::S1(Src::In(0)),
            seq![basic_ty(t)],
        );
        fits_single(
            IrTy::F64,
            Op::Rt(
                if min {
                    Rt::MinNum
                } else {
                    Rt::MaxNum
                },
            ),
            Srcs::S2(Src::In(0), Src::In(1)),
            seq![basic_ty(t), basic_ty(t)],
        );
    } else {
        reveal(fits);
        reveal(made);
        reveal_with_fuel(parts_fit, 4);
        reveal_with_fuel(made_from, 4);
    }
}

proof fn fits_text(t: Ty)
    requires
        t is Int || t is Float || t is Bool || t is Str,
    ensures
        row_fits(text_row(t), seq![basic_ty(t)], IrTy::Ptr),
{
    fits_same(IrTy::Ptr);
    reveal(single);
    reveal(fits);
    reveal(made);
    reveal_with_fuel(parts_fit, 3);
    reveal_with_fuel(made_from, 3);
}

/// What the checks of `pop` make.
spec fn pop_checked() -> Seq<IrTy> {
    Seq::<IrTy>::empty().push(IrTy::I1).push(IrTy::I64).push(IrTy::I1)
}

proof fn fits_popped(t: Ty)
    ensures
        parts_fit(pop_row(t).parts, 5, seq![IrTy::Ptr], pop_checked()),
        src_ty(
            seq![IrTy::Ptr],
            made_from(pop_row(t).parts, 5, pop_checked()),
            pop_row(t).out,
        ) == Some(basic_ty(t)),
{
    reveal_with_fuel(parts_fit, 8);
    reveal_with_fuel(made_from, 8);
}

proof fn fits_pop(t: Ty)
    ensures
        row_fits(pop_row(t), seq![IrTy::Ptr], basic_ty(t)),
{
    reveal(fits);
    reveal(made);
    fits_popped(t);
    reveal_with_fuel(parts_fit, 6);
    reveal_with_fuel(made_from, 6);
}

proof fn fits_checked(f: Rt)
    requires
        rt_sig(f).0 =~= seq![IrTy::Ptr],
        rt_sig(f).1 == IrTy::Ptr,
    ensures
        row_fits(checked_row(f), seq![IrTy::Ptr], IrTy::Ptr),
{
    reveal(fits);
    reveal(made);
    reveal_with_fuel(parts_fit, 4);
    reveal_with_fuel(made_from, 4);
}

/// The built-in functions of several types, but for those with a check between their
/// arguments.
pub proof fn fits_generic(f: Builtin, name: Seq<char>, t: Ty, span: Span)
    requires
        fixed_sig(f) is None,
        !checks_first(f),
        generic_rule(f, name, t, span) is Ok,
    ensures
        ({
            let st = generic_rule(f, name, t, span)->Ok_0;
            row_fits(
                builtin_row(f, t),
                if generic_arity(f) == 1 {
                    seq![basic_ty(t)]
                } else {
                    seq![basic_ty(t), basic_ty(st.second)]
                },
                basic_ty(st.result),
            )
        }),
{
    reveal(builtin_row);
    assert(plain_rt(f) is None);
    if f == Builtin::Int {
        fits_convert(true, t);
    } else if f == Builtin::Float {
        fits_convert(false, t);
    } else if f == Builtin::Abs {
        fits_numeric(t, true);
    } else if f == Builtin::Min {
        fits_numeric(t, true);
    } else if f == Builtin::Max {
        fits_numeric(t, false);
    } else if f == Builtin::Len {
        fits_length(t);
    } else if f == Builtin::Str {
        fits_text(t);
    } else if f == Builtin::Pop {
        fits_pop(elem_of(t));
    } else if f == Builtin::Sorted {
        fits_checked(sort_fn(elem_of(t)));
    } else if f == Builtin::Reversed {
        fits_checked(Rt::Reverse);
    } else {
        fits_checked(Rt::MapKeys);
    }
}

} // verus!
