//! The code of expressions has types.
use vstd::prelude::*;
#[allow(unused_imports)]
use crate::ast::{BinOp, ExprKindV, ExprV, FieldInitV, ParamV, ProgramV};
#[allow(unused_imports)]
use crate::builtins::{builtin_named, Builtin};
#[allow(unused_imports)]
use crate::faithful::anatomy::{
    binary_row, bound_at, bound_typed, call_at, call_typed, code_at, elems_at, field_row, fields_at,
    first_type, index_row, list_at, null_at, pairs_at, parts_of_array, parts_of_binary,
    parts_of_bound, parts_of_call, parts_of_checked, parts_of_elems, parts_of_field,
    parts_of_fields, parts_of_index, parts_of_list, parts_of_map, parts_of_own, parts_of_pairs,
    parts_of_plain, parts_of_slice, parts_of_struct, parts_of_unary, put_at, store_at, type_at,
    typed,
};
#[allow(unused_imports)]
use crate::faithful::machine::{placed, placed_row, src_opnd};
#[allow(unused_imports)]
use crate::faithful::rowcode::{
    append, chomp, code_append, code_chomp, code_grow, code_line, code_room, code_store,
    code_variant, grow, line_start, room,
};
#[allow(unused_imports)]
use crate::faithful::shapes::{is_leaf, lemma_line_parts, lemma_push_parts};
#[allow(unused_imports)]
use crate::ir::{basic_ty, CodeV, InstV, IrTy, Op, OpndV, Rt};
#[allow(unused_imports)]
use crate::lower::is_empty;
#[allow(unused_imports)]
use crate::lowering::{
    build_variant, call_func, checks_first, elem_of, field_slot, init_index, inner, logical,
    max_arity, new_slot, push_value, put, read_line, set_var, slot_of, store_payload, store_slot,
    tenv, then_code, ty_of, Gen, VarV,
};
#[allow(unused_imports)]
use crate::meaning::{
    append_row, array_data, array_row, builtin_row, chomp_row, grow_row, length_row, line_row,
    map_put_row, null_row, prefix_row, room_row, second_row, single, slice_row, store_row,
    variant_row, Row, Srcs,
};
#[allow(unused_imports)]
use crate::sound::code::{
    are_of, call_ok, code_ok, counted, goes_on, is_of, lemma_are_more, lemma_codes_more, lemma_if,
    lemma_inner, lemma_is_more, lemma_more, lemma_more_at, lemma_on, lemma_on_are, lemma_on_has,
    lemma_on_is, lemma_on_put, lemma_on_self, lemma_on_slot, lemma_on_then, sound, Sigs,
};
#[allow(unused_imports)]
use crate::sound::fits::{
    basic_tys, fits_append, fits_array, fits_binary, fits_byte_get, fits_elem_get, fits_fixed,
    fits_generic, fits_grow, fits_length, fits_line, fits_load, fits_map_get, fits_map_put,
    fits_null, fits_prefix, fits_room, fits_second, fits_single, fits_slice, fits_store,
    fits_variant, lemma_fits_basic,
};
#[allow(unused_imports)]
use crate::sound::once::{lemma_adds_push, lemma_fills_if, lemma_fills_inst, lemma_fills_none};
#[allow(unused_imports)]
use crate::sound::rows::{lemma_parts, lemma_row, row_fits};
#[allow(unused_imports)]
use crate::sound::types::{
    accepted, all_accepted, bound_int, held_as, inits_accepted, lemma_accepted, pairs_accepted,
    suit, types_of_array, types_of_binary, types_of_call, types_of_field, types_of_fixed,
    types_of_generic, types_of_index, types_of_literal, types_of_map, types_of_own, types_of_slice,
    types_of_struct, types_of_unary, types_of_var,
};
#[allow(unused_imports)]
use crate::sound::vars::{lemma_slot_of, lemma_vars_on, vars_ok};
#[allow(unused_imports)]
use crate::span::Span;
#[allow(unused_imports)]
use crate::types::Ty;
#[allow(unused_imports)]
use crate::typing::{
    call_type, fixed_sig, func_index, func_named, generic_arity, generic_rule, index_type,
    param_types, resolve, struct_named, variant_home, variant_index, variant_named,
};

verus! {

/// What the functions of a program take and give.
pub open spec fn sigs_of(p: ProgramV) -> Seq<(Seq<IrTy>, IrTy)> {
    Seq::new(
        p.funcs.len(),
        |i: int|
            (basic_tys(param_types(p, p.funcs[i].params)), basic_ty(resolve(p, p.funcs[i].ret))),
    )
}

/// The check for `null` of a pointer.
pub proof fn lemma_null(s: Sigs, g: Gen, v: OpndV)
    requires
        is_of(g.regs, v, IrTy::Ptr),
    ensures
        goes_on(s, g, null_at(g, v)),
        is_of(null_at(g, v).regs, v, IrTy::Ptr),
{
    fits_null();
    lemma_parts(s, g, null_row().parts, seq![v], seq![IrTy::Ptr]);
    lemma_on_is(s, g, null_at(g, v), v, IrTy::Ptr);
}

pub proof fn lemma_store(s: Sigs, g: Gen, o: OpndV, i: usize, v: OpndV, ty: IrTy)
    requires
        is_of(g.regs, o, IrTy::Ptr),
        is_of(g.regs, v, ty),
    ensures
        goes_on(s, g, store_at(g, o, i, v)),
        goes_on(s, g, store_slot(g, o, i, v)),
        is_of(store_at(g, o, i, v).regs, o, IrTy::Ptr),
{
    fits_store(i, ty);
    code_store(g, o, i, v);
    lemma_parts(s, g, store_row(i), seq![o, v], seq![IrTy::Ptr, ty]);
    lemma_on_is(s, g, store_at(g, o, i, v), o, IrTy::Ptr);
}

proof fn lemma_payload(
    s: Sigs,
    g: Gen,
    obj: OpndV,
    vs: Seq<OpndV>,
    tys: Seq<IrTy>,
    i: int,
)
    requires
        is_of(g.regs, obj, IrTy::Ptr),
        are_of(g.regs, vs, tys),
        0 <= i <= vs.len(),
    ensures
        goes_on(s, g, store_payload(g, obj, vs, i)),
    decreases vs.len() - i,
{
    if i < vs.len() {
        let h = store_slot(g, obj, (i + 1) as usize, vs[i]);
        lemma_store(s, g, obj, (i + 1) as usize, vs[i], tys[i]);
        lemma_on_are(s, g, h, vs, tys);
        lemma_on_is(s, g, h, obj, IrTy::Ptr);
        lemma_payload(s, h, obj, vs, tys, i + 1);
        lemma_on(s, g, h, store_payload(h, obj, vs, i + 1));
    } else {
        lemma_on_self(s, g);
    }
}

proof fn lemma_variant(
    s: Sigs,
    p: ProgramV,
    g: Gen,
    name: Seq<char>,
    vs: Seq<OpndV>,
    tys: Seq<IrTy>,
)
    requires
        are_of(g.regs, vs, tys),
    ensures
        sound(s, g, build_variant(p, g, name, vs), IrTy::Ptr),
{
    let variants = p.enums[variant_home(p, name, 0)].variants;
    let n = max_arity(variants) as usize;
    let k = variant_index(variants, name, 0) as usize;
    code_variant(g, n, k);
    fits_variant(n, k);
    lemma_row(s, g, variant_row(n, k), Seq::empty(), Seq::empty(), IrTy::Ptr);
    let (h, obj) = placed_row(g, variant_row(n, k), Seq::empty());
    lemma_on_are(s, g, h, vs, tys);
    lemma_payload(s, h, obj, vs, tys, 0);
    let last = store_payload(h, obj, vs, 0);
    lemma_on(s, g, h, last);
    lemma_on_is(s, h, last, obj, IrTy::Ptr);
}

/// `push(a, x)`.
proof fn lemma_push(s: Sigs, g: Gen, hdr: OpndV, v: OpndV, ty: IrTy)
    requires
        is_of(g.regs, hdr, IrTy::Ptr),
        is_of(g.regs, v, ty),
    ensures
        sound(s, g, push_value(g, hdr, v), IrTy::Ptr),
{
    let (g3, len, cap, enough) = room(g, hdr);
    let els = grow(inner(g3), hdr, cap);
    let c = CodeV::If { cond: enough, then: Seq::empty(), els: els.code };
    let g4 = then_code(g3, c, els);
    lemma_push_parts(g, hdr, v);
    code_room(g, hdr);
    fits_room();
    lemma_parts(s, g, room_row(), seq![hdr], seq![IrTy::Ptr]);
    let n = g.regs.len() as int;
    assert(g3.regs =~= g.regs + seq![IrTy::I64, IrTy::Ptr, IrTy::I64, IrTy::I1]);
    assert(g3.regs[n] == IrTy::I64 && g3.regs[n + 2] == IrTy::I64 && g3.regs[n + 3] == IrTy::I1);
    lemma_on_is(s, g, g3, hdr, IrTy::Ptr);
    lemma_on_is(s, g, g3, v, ty);
    code_grow(inner(g3), hdr, cap);
    fits_grow();
    lemma_parts(s, inner(g3), grow_row(), seq![hdr, cap], seq![IrTy::Ptr, IrTy::I64]);
    lemma_inner(s, g3, els);
    lemma_is_more(g3.regs, els.regs, enough, IrTy::I1);
    if counted(els) {
        lemma_if(s, els, enough, Seq::empty(), els.code);
    }
    let n3 = g3.regs.len();
    lemma_fills_none(n3);
    lemma_fills_if(enough, Seq::empty(), els.code, n3, n3, els.regs.len());
    lemma_on_then(s, g3, c, els);
    lemma_on_is(s, g3, g4, hdr, IrTy::Ptr);
    lemma_on_is(s, g3, g4, v, ty);
    lemma_on_is(s, g3, g4, len, IrTy::I64);
    code_append(g4, hdr, v, len);
    fits_append(ty);
    lemma_parts(s, g4, append_row(), seq![hdr, v, len], seq![IrTy::Ptr, ty, IrTy::I64]);
    let last = append(g4, hdr, v, len);
    lemma_on(s, g, g3, g4);
    lemma_on(s, g, g4, last);
    lemma_on_is(s, g4, last, hdr, IrTy::Ptr);
}

/// `read_line()`.
proof fn lemma_line(s: Sigs, g: Gen)
    ensures
        sound(s, g, read_line(g), IrTy::Ptr),
{
    let (g3, buf, text, end) = line_start(g);
    let els = chomp(inner(g3), buf);
    let c = CodeV::If { cond: end, then: Seq::empty(), els: els.code };
    let g4 = then_code(g3, c, els);
    lemma_line_parts(g);
    code_line(g);
    fits_line();
    lemma_parts(s, g, line_row(), Seq::empty(), Seq::empty());
    let n = g.regs.len() as int;
    assert(g3.regs =~= g.regs + seq![IrTy::Ptr, IrTy::Ptr, IrTy::I1]);
    assert(g3.regs[n] == IrTy::Ptr && g3.regs[n + 1] == IrTy::Ptr && g3.regs[n + 2] == IrTy::I1);
    code_chomp(inner(g3), buf);
    lemma_parts(s, inner(g3), chomp_row(), seq![buf], seq![IrTy::Ptr]);
    lemma_inner(s, g3, els);
    lemma_is_more(g3.regs, els.regs, end, IrTy::I1);
    if counted(els) {
        lemma_if(s, els, end, Seq::empty(), els.code);
    }
    let n3 = g3.regs.len();
    lemma_fills_none(n3);
    lemma_fills_if(end, Seq::empty(), els.code, n3, n3, els.regs.len());
    lemma_on_then(s, g3, c, els);
    lemma_on(s, g, g3, g4);
    lemma_on_is(s, g3, g4, text, IrTy::Ptr);
}

/// A call of a function of the program.
proof fn lemma_func(s: Sigs, p: ProgramV, g: Gen, k: int, vs: Seq<OpndV>)
    requires
        s.funcs == sigs_of(p),
        0 <= k < p.funcs.len(),
        are_of(g.regs, vs, basic_tys(param_types(p, p.funcs[k].params))),
    ensures
        sound(
            s,
            g,
            call_func(g, k as nat, basic_ty(resolve(p, p.funcs[k].ret)), vs),
            basic_ty(resolve(p, p.funcs[k].ret)),
        ),
{
    reveal(goes_on);
    reveal(code_ok);
    let ty = basic_ty(resolve(p, p.funcs[k].ret));
    let h = call_func(g, k as nat, ty, vs).0;
    assert(h.code.take(g.code.len() as int) =~= g.code);
    assert(h.regs.take(g.regs.len() as int) =~= g.regs);
    assert(h.slots.take(g.slots.len() as int) =~= g.slots);
    let inst = InstV::Call { dst: g.regs.len(), func: k as nat, args: vs };
    lemma_fills_inst(inst, g.regs.len());
    lemma_adds_push(g.code, CodeV::Do(inst), g.regs.len(), h.regs.len());
    lemma_are_more(g.regs, h.regs, vs, basic_tys(param_types(p, p.funcs[k].params)));
    assert(s.funcs[k] == (basic_tys(param_types(p, p.funcs[k].params)), ty));
    assert(call_ok(s, h.regs, g.regs.len(), k as nat, vs));
}

/// `lhs && rhs` and `lhs || rhs`, from the code of the operands.
proof fn lemma_logical(s: Sigs, g: Gen, op: BinOp, l: OpndV, rg: Gen, r: OpndV)
    requires
        g.slots.len() > 0,
        g.slots.last() == IrTy::I1,
        is_of(g.regs, l, IrTy::I1),
        goes_on(s, inner(g), rg),
        is_of(rg.regs, r, IrTy::I1),
    ensures
        sound(s, g, logical(g, op, l, (g.slots.len() - 1) as usize, rg, r), IrTy::I1),
{
    let slot = (g.slots.len() - 1) as usize;
    let b = IrTy::I1;
    let long = set_var(rg, slot, r);
    let none = inner(long);
    let konst = OpndV::Bool(op == BinOp::Or);
    let short = set_var(none, slot, konst);
    lemma_on_has(s, inner(g), rg);
    if counted(rg) {
        lemma_more_at(g.slots, rg.slots, slot as int);
    }
    lemma_on_put(s, rg, IrTy::I64, Op::SetVar(slot), seq![r], seq![b]);
    lemma_on(s, inner(g), rg, long);
    lemma_inner(s, g, long);
    lemma_on_put(s, none, IrTy::I64, Op::SetVar(slot), seq![konst], seq![b]);
    lemma_inner(s, long, short);
    lemma_more(g.regs, long.regs, short.regs);
    lemma_more(g.slots, long.slots, short.slots);
    lemma_is_more(g.regs, short.regs, l, b);
    let c = if op == BinOp::And {
        CodeV::If { cond: l, then: long.code, els: short.code }
    } else {
        CodeV::If { cond: l, then: short.code, els: long.code }
    };
    if counted(short) {
        lemma_codes_more(s, long, short, long.code);
        lemma_if(s, short, l, long.code, short.code);
        lemma_if(s, short, l, short.code, long.code);
    }
    lemma_fills_if(l, long.code, short.code, g.regs.len(), long.regs.len(), short.regs.len());
    lemma_on_then(s, g, c, short);
    let h = then_code(g, c, short);
    if counted(h) {
        lemma_more_at(g.slots, h.slots, slot as int);
    }
    lemma_on_put(s, h, b, Op::GetVar(slot), Seq::empty(), Seq::empty());
    lemma_on(s, g, h, put(h, b, Op::GetVar(slot), Seq::empty()));
}

/// What everything around an expression is to be.
pub open spec fn fit_for(s: Sigs, p: ProgramV, vars: Seq<VarV>, g: Gen) -> bool {
    s.funcs == sigs_of(p) && vars_ok(vars, g)
}

pub proof fn lemma_fit_on(s: Sigs, p: ProgramV, vars: Seq<VarV>, g: Gen, h: Gen)
    requires
        fit_for(s, p, vars, g),
        goes_on(s, g, h),
    ensures
        fit_for(s, p, vars, h),
        fit_for(s, p, vars, inner(h)),
{
    lemma_vars_on(s, vars, g, h);
}

proof fn lemma_list(
    s: Sigs,
    p: ProgramV,
    vars: Seq<VarV>,
    g: Gen,
    es: Seq<ExprV>,
    i: int,
    acc: Seq<OpndV>,
    tys: Seq<IrTy>,
)
    requires
        fit_for(s, p, vars, g),
        all_accepted(p, vars, es),
        0 <= i <= es.len(),
        tys.len() == es.len(),
        forall|k: int|
            0 <= k < es.len() ==> tys[k] == basic_ty(#[trigger] type_at(p, vars, es[k])),
        are_of(g.regs, acc, tys.take(i)),
    ensures
        ({
            let (h, vs) = list_at(p, vars, g, es, i, acc);
            goes_on(s, g, h) && are_of(h.regs, vs, tys) && vs.len() == es.len()
        }),
    decreases es, es.len() - i,
{
    parts_of_list(p, vars, g, es, i, acc);
    if i < es.len() {
        let (h, v) = code_at(p, vars, g, es[i]);
        lemma_expr(s, p, vars, g, es[i]);
        lemma_accepted(p, vars, es[i]);
        lemma_fit_on(s, p, vars, g, h);
        lemma_on_are(s, g, h, acc, tys.take(i));
        assert(tys[i] == basic_ty(type_at(p, vars, es[i])));
        assert(are_of(h.regs, acc.push(v), tys.take(i + 1))) by {
            assert forall|k: int| 0 <= k < acc.push(v).len() implies is_of(
                h.regs,
                #[trigger] acc.push(v)[k],
                tys.take(i + 1)[k],
            ) by {
                if k < i {
                    assert(is_of(h.regs, acc[k], tys.take(i)[k]));
                }
            }
        }
        lemma_list(s, p, vars, h, es, i + 1, acc.push(v), tys);
        lemma_on(s, g, h, list_at(p, vars, h, es, i + 1, acc.push(v)).0);
    } else {
        assert(tys.take(i) =~= tys);
        lemma_on_self(s, g);
    }
}

proof fn lemma_elems(
    s: Sigs,
    p: ProgramV,
    vars: Seq<VarV>,
    g: Gen,
    data: OpndV,
    es: Seq<ExprV>,
    i: int,
)
    requires
        fit_for(s, p, vars, g),
        all_accepted(p, vars, es),
        0 <= i <= es.len(),
        is_of(g.regs, data, IrTy::Ptr),
    ensures
        goes_on(s, g, elems_at(p, vars, g, data, es, i)),
    decreases es, es.len() - i,
{
    parts_of_elems(p, vars, g, data, es, i);
    if i < es.len() {
        let (g1, v) = code_at(p, vars, g, es[i]);
        lemma_expr(s, p, vars, g, es[i]);
        lemma_on_is(s, g, g1, data, IrTy::Ptr);
        let h = store_at(g1, data, i as usize, v);
        lemma_store(s, g1, data, i as usize, v, held_as(p, vars, es[i]));
        lemma_on(s, g, g1, h);
        lemma_fit_on(s, p, vars, g, h);
        lemma_elems(s, p, vars, h, data, es, i + 1);
        lemma_on(s, g, h, elems_at(p, vars, h, data, es, i + 1));
    } else {
        lemma_on_self(s, g);
    }
}

proof fn lemma_fields(
    s: Sigs,
    p: ProgramV,
    vars: Seq<VarV>,
    g: Gen,
    obj: OpndV,
    fields: Seq<ParamV>,
    fs: Seq<FieldInitV>,
    i: int,
)
    requires
        fit_for(s, p, vars, g),
        inits_accepted(p, vars, fs),
        0 <= i <= fields.len(),
        is_of(g.regs, obj, IrTy::Ptr),
    ensures
        goes_on(s, g, fields_at(p, vars, g, obj, fields, fs, i)),
    decreases fs, fields.len() - i,
{
    parts_of_fields(p, vars, g, obj, fields, fs, i);
    lemma_on_self(s, g);
    if i < fields.len() {
        let k = init_index(fs, fields[i].name, 0);
        if 0 <= k < fs.len() {
            let (g1, v) = code_at(p, vars, g, fs[k].value);
            lemma_expr(s, p, vars, g, fs[k].value);
            lemma_on_is(s, g, g1, obj, IrTy::Ptr);
            let h = store_at(g1, obj, i as usize, v);
            lemma_store(s, g1, obj, i as usize, v, held_as(p, vars, fs[k].value));
            lemma_on(s, g, g1, h);
            lemma_fit_on(s, p, vars, g, h);
            lemma_fields(s, p, vars, h, obj, fields, fs, i + 1);
            lemma_on(s, g, h, fields_at(p, vars, h, obj, fields, fs, i + 1));
        }
    }
}

/// `m[k] = v`.
pub proof fn lemma_put_entry(
    s: Sigs,
    g: Gen,
    hdr: OpndV,
    key: OpndV,
    v: OpndV,
    t: Ty,
)
    requires
        is_of(g.regs, hdr, IrTy::Ptr),
        is_of(g.regs, key, IrTy::Ptr),
        is_of(g.regs, v, basic_ty(t)),
    ensures
        goes_on(s, g, put_at(g, hdr, key, v, t)),
{
    fits_map_put(t);
    lemma_parts(
        s,
        g,
        map_put_row(t),
        seq![hdr, key, v],
        seq![IrTy::Ptr, IrTy::Ptr, basic_ty(t)],
    );
}

proof fn lemma_pairs(
    s: Sigs,
    p: ProgramV,
    vars: Seq<VarV>,
    g: Gen,
    hdr: OpndV,
    es: Seq<(ExprV, ExprV)>,
    i: int,
)
    requires
        fit_for(s, p, vars, g),
        pairs_accepted(p, vars, es),
        0 <= i <= es.len(),
        is_of(g.regs, hdr, IrTy::Ptr),
    ensures
        goes_on(s, g, pairs_at(p, vars, g, hdr, es, i)),
    decreases es, es.len() - i,
{
    parts_of_pairs(p, vars, g, hdr, es, i);
    if i < es.len() {
        let (g1, key) = code_at(p, vars, g, es[i].0);
        lemma_expr(s, p, vars, g, es[i].0);
        lemma_accepted(p, vars, es[i].0);
        lemma_fit_on(s, p, vars, g, g1);
        let (g2, v) = code_at(p, vars, g1, es[i].1);
        lemma_expr(s, p, vars, g1, es[i].1);
        lemma_accepted(p, vars, es[i].1);
        lemma_on(s, g, g1, g2);
        lemma_on_is(s, g, g2, hdr, IrTy::Ptr);
        lemma_on_is(s, g1, g2, key, IrTy::Ptr);
        let t = type_at(p, vars, es[i].1);
        let h = put_at(g2, hdr, key, v, t);
        lemma_put_entry(s, g2, hdr, key, v, t);
        lemma_on(s, g, g2, h);
        lemma_on_is(s, g, h, hdr, IrTy::Ptr);
        lemma_fit_on(s, p, vars, g, h);
        lemma_pairs(s, p, vars, h, hdr, es, i + 1);
        lemma_on(s, g, h, pairs_at(p, vars, h, hdr, es, i + 1));
    } else {
        lemma_on_self(s, g);
    }
}

proof fn lemma_bound(
    s: Sigs,
    p: ProgramV,
    vars: Seq<VarV>,
    g: Gen,
    b: Option<Box<ExprV>>,
    other: OpndV,
)
    requires
        fit_for(s, p, vars, g),
        bound_int(p, vars, b),
        bound_typed(p, vars, b),
        is_of(g.regs, other, IrTy::I64),
    ensures
        sound(s, g, bound_at(p, vars, g, b, other), IrTy::I64),
    decreases b, 0int,
{
    parts_of_bound(p, vars, g, b, other);
    match b {
        Some(x) => {
            lemma_expr(s, p, vars, g, *x);
            lemma_accepted(p, vars, *x);
        },
        None => lemma_on_self(s, g),
    }
}

proof fn lemma_checked(
    s: Sigs,
    p: ProgramV,
    vars: Seq<VarV>,
    g: Gen,
    name: Seq<char>,
    args: Seq<ExprV>,
    f: Builtin,
    span: Span,
)
    requires
        fit_for(s, p, vars, g),
        builtin_named(name) == Some(f),
        checks_first(f),
        call_type(p, tenv(vars), name, args, span) is Ok,
    ensures
        sound(
            s,
            g,
            call_at(p, vars, g, name, args),
            basic_ty(call_type(p, tenv(vars), name, args, span)->Ok_0),
        ),
    decreases args, args.len(),
{
    if f == Builtin::Join {
        types_of_fixed(p, vars, name, args, span, f);
        assert(accepted(p, vars, args[0]) && accepted(p, vars, args[1]));
    } else {
        types_of_generic(p, vars, name, args, span, f);
    }
    parts_of_checked(p, vars, g, name, args, f);
    let last = call_at(p, vars, g, name, args);
    let (g1, x) = code_at(p, vars, g, args[0]);
    lemma_expr(s, p, vars, g, args[0]);
    lemma_accepted(p, vars, args[0]);
    let g2 = null_at(g1, x);
    lemma_null(s, g1, x);
    lemma_on(s, g, g1, g2);
    lemma_fit_on(s, p, vars, g, g2);
    let (g3, y) = code_at(p, vars, g2, args[1]);
    lemma_expr(s, p, vars, g2, args[1]);
    lemma_accepted(p, vars, args[1]);
    lemma_on(s, g, g2, g3);
    lemma_on_is(s, g2, g3, x, IrTy::Ptr);
    if f == Builtin::Push {
        lemma_push(s, g3, x, y, basic_ty(type_at(p, vars, args[1])));
    } else {
        fits_second(f);
        lemma_row(
            s,
            g3,
            second_row(f),
            seq![x, y],
            seq![IrTy::Ptr, IrTy::Ptr],
            basic_ty(call_type(p, tenv(vars), name, args, span)->Ok_0),
        );
    }
    lemma_on(s, g, g3, last.0);
}

/// What expressions of which these types fit the types are held as.
proof fn lemma_suit(p: ProgramV, vars: Seq<VarV>, es: Seq<ExprV>, ts: Seq<Ty>)
    requires
        suit(p, vars, es, ts),
    ensures
        all_accepted(p, vars, es),
        forall|k: int|
            0 <= k < es.len() ==> basic_tys(ts)[k] == basic_ty(#[trigger] type_at(p, vars, es[k])),
{
    assert forall|k: int| 0 <= k < es.len() implies basic_tys(ts)[k] == basic_ty(
        #[trigger] type_at(p, vars, es[k]),
    ) by {
        assert(accepted(p, vars, es[k]));
        lemma_fits_basic(ts[k], type_at(p, vars, es[k]));
    }
}

/// The types of what a built-in function is given.
proof fn lemma_plain_types(
    p: ProgramV,
    vars: Seq<VarV>,
    name: Seq<char>,
    args: Seq<ExprV>,
    f: Builtin,
    span: Span,
) -> (ins: Seq<IrTy>)
    requires
        builtin_named(name) == Some(f),
        !checks_first(f),
        f != Builtin::ReadLine,
        call_type(p, tenv(vars), name, args, span) is Ok,
    ensures
        all_accepted(p, vars, args),
        ins.len() == args.len(),
        forall|k: int|
            0 <= k < args.len() ==> ins[k] == basic_ty(#[trigger] type_at(p, vars, args[k])),
        row_fits(
            builtin_row(f, first_type(p, vars, args)),
            ins,
            basic_ty(call_type(p, tenv(vars), name, args, span)->Ok_0),
        ),
{
    match fixed_sig(f) {
        Some((params, ret)) => {
            types_of_fixed(p, vars, name, args, span, f);
            lemma_suit(p, vars, args, params);
            fits_fixed(f, first_type(p, vars, args));
            basic_tys(params)
        },
        None => {
            types_of_generic(p, vars, name, args, span, f);
            let t = type_at(p, vars, args[0]);
            let st = generic_rule(f, name, t, args[0].span)->Ok_0;
            assert(first_type(p, vars, args) == t) by {
                reveal(first_type);
                reveal(type_at);
            }
            fits_generic(f, name, t, args[0].span);
            if generic_arity(f) == 1 {
                seq![basic_ty(t)]
            } else {
                lemma_fits_basic(st.second, type_at(p, vars, args[1]));
                seq![basic_ty(t), basic_ty(st.second)]
            }
        },
    }
}

proof fn lemma_call(
    s: Sigs,
    p: ProgramV,
    vars: Seq<VarV>,
    g: Gen,
    name: Seq<char>,
    args: Seq<ExprV>,
    span: Span,
)
    requires
        fit_for(s, p, vars, g),
        call_type(p, tenv(vars), name, args, span) is Ok,
        call_typed(p, vars, name, args),
    ensures
        sound(
            s,
            g,
            call_at(p, vars, g, name, args),
            basic_ty(call_type(p, tenv(vars), name, args, span)->Ok_0),
        ),
    decreases args, args.len() + 1,
{
    let last = call_at(p, vars, g, name, args);
    let out = basic_ty(call_type(p, tenv(vars), name, args, span)->Ok_0);
    let none = Seq::<OpndV>::empty();
    match builtin_named(name) {
        Some(f) => if checks_first(f) {
            lemma_checked(s, p, vars, g, name, args, f, span);
        } else if f == Builtin::ReadLine {
            types_of_fixed(p, vars, name, args, span, f);
            parts_of_list(p, vars, g, args, 0, none);
            parts_of_plain(p, vars, g, name, args, f);
            lemma_line(s, g);
        } else {
            let ins = lemma_plain_types(p, vars, name, args, f, span);
            assert(ins.take(0) =~= Seq::empty());
            lemma_list(s, p, vars, g, args, 0, none, ins);
            parts_of_plain(p, vars, g, name, args, f);
            let (g1, vs) = list_at(p, vars, g, args, 0, none);
            lemma_row(s, g1, builtin_row(f, first_type(p, vars, args)), vs, ins, out);
            lemma_on(s, g, g1, last.0);
        },
        None => {
            types_of_own(p, vars, name, args, span);
            parts_of_own(p, vars, g, name, args);
            let (g1, vs) = list_at(p, vars, g, args, 0, none);
            if variant_named(p, name) is Some {
                let ins = Seq::new(
                    args.len(),
                    |k: int| basic_ty(type_at(p, vars, args[k])),
                );
                assert(ins.take(0) =~= Seq::empty());
                lemma_list(s, p, vars, g, args, 0, none, ins);
                lemma_variant(s, p, g1, name, vs, ins);
            } else {
                let k = func_index(p, name, 0);
                let f = func_named(p, name)->0;
                let ins = basic_tys(param_types(p, f.params));
                lemma_func_there(p, name, 0);
                lemma_suit(p, vars, args, param_types(p, f.params));
                assert(ins.take(0) =~= Seq::empty());
                lemma_list(s, p, vars, g, args, 0, none, ins);
                lemma_func(s, p, g1, k, vs);
            }
            lemma_on(s, g, g1, last.0);
        },
    }
}

proof fn lemma_func_there(p: ProgramV, name: Seq<char>, i: int)
    requires
        0 <= i <= p.funcs.len(),
    ensures
        i <= func_index(p, name, i) <= p.funcs.len(),
    decreases p.funcs.len() - i,
{
    if i < p.funcs.len() {
        lemma_func_there(p, name, i + 1);
    }
}

/// The code of an expression has types, and its value that of the expression.
pub proof fn lemma_expr(s: Sigs, p: ProgramV, vars: Seq<VarV>, g: Gen, e: ExprV)
    requires
        fit_for(s, p, vars, g),
        accepted(p, vars, e) || is_empty(e),
    ensures
        sound(s, g, code_at(p, vars, g, e), held_as(p, vars, e)),
    decreases e, 1int,
{
    if is_empty(e) {
        lemma_empty(s, p, vars, g, e);
    } else {
        lemma_accepted(p, vars, e);
        match e.kind {
            ExprKindV::Unary { .. } => lemma_unary(s, p, vars, g, e),
            ExprKindV::Binary { .. } => lemma_binary(s, p, vars, g, e),
            ExprKindV::Call { name, args } => {
                types_of_call(p, vars, e);
                parts_of_call(p, vars, g, e);
                lemma_call(s, p, vars, g, name, args, e.span);
            },
            ExprKindV::Array(..) => lemma_array(s, p, vars, g, e),
            ExprKindV::Index { .. } => lemma_index(s, p, vars, g, e),
            ExprKindV::Slice { .. } => lemma_slice(s, p, vars, g, e),
            ExprKindV::StructLit { .. } => lemma_struct(s, p, vars, g, e),
            ExprKindV::MapLit(..) => lemma_map(s, p, vars, g, e),
            ExprKindV::Field { .. } => lemma_field(s, p, vars, g, e),
            _ => lemma_leaf(s, p, vars, g, e),
        }
    }
}

proof fn lemma_empty(s: Sigs, p: ProgramV, vars: Seq<VarV>, g: Gen, e: ExprV)
    requires
        is_empty(e),
    ensures
        sound(s, g, code_at(p, vars, g, e), held_as(p, vars, e)),
{
    assert(typed(p, vars, e) && held_as(p, vars, e) == IrTy::Ptr) by {
        reveal(typed);
        reveal(held_as);
    }
    if let ExprKindV::Array(es) = e.kind {
        parts_of_array(p, vars, g, e);
        fits_array(0);
        lemma_row(s, g, array_row(0), Seq::empty(), Seq::empty(), IrTy::Ptr);
        let (h, hdr) = placed_row(g, array_row(0), Seq::empty());
        let made = h.regs.len() - g.regs.len();
        let data = src_opnd(Seq::empty(), g.regs.len(), made, array_data(0));
        parts_of_elems(p, vars, h, data, es, 0);
    } else if let ExprKindV::MapLit(es) = e.kind {
        parts_of_map(p, vars, g, e);
        let r = single(IrTy::Ptr, Op::Rt(Rt::MapNew), Srcs::S0);
        fits_single(IrTy::Ptr, Op::Rt(Rt::MapNew), Srcs::S0, Seq::empty());
        lemma_row(s, g, r, Seq::empty(), Seq::empty(), IrTy::Ptr);
        let (h, hdr) = placed_row(g, r, Seq::empty());
        parts_of_pairs(p, vars, h, hdr, es, 0);
    }
}

proof fn lemma_leaf(s: Sigs, p: ProgramV, vars: Seq<VarV>, g: Gen, e: ExprV)
    requires
        fit_for(s, p, vars, g),
        accepted(p, vars, e),
        is_leaf(e),
    ensures
        sound(s, g, code_at(p, vars, g, e), held_as(p, vars, e)),
{
    lemma_accepted(p, vars, e);
    types_of_literal(p, vars, e);
    lemma_on_self(s, g);
    reveal(code_at);
    if let ExprKindV::Var(name) = e.kind {
        types_of_var(p, vars, e);
        if variant_named(p, name) is Some {
            lemma_variant(s, p, g, name, Seq::empty(), Seq::empty());
        } else {
            let t = basic_ty(ty_of(p, vars, e));
            assert(t == basic_ty(type_at(p, vars, e))) by {
                reveal(type_at);
            }
            if counted(g) {
                lemma_slot_of(vars, g, name);
            }
            lemma_on_put(s, g, t, Op::GetVar(slot_of(vars, name)), Seq::empty(), Seq::empty());
        }
    }
}

proof fn lemma_unary(s: Sigs, p: ProgramV, vars: Seq<VarV>, g: Gen, e: ExprV)
    requires
        fit_for(s, p, vars, g),
        accepted(p, vars, e),
        e.kind is Unary,
    ensures
        sound(s, g, code_at(p, vars, g, e), held_as(p, vars, e)),
    decreases e, 0int,
{
    lemma_accepted(p, vars, e);
    types_of_unary(p, vars, e);
    parts_of_unary(p, vars, g, e);
    let last = code_at(p, vars, g, e);
    let (op, x) = (e.kind->Unary_op, *e.kind->Unary_expr);
    let (g1, v) = code_at(p, vars, g, x);
    lemma_expr(s, p, vars, g, x);
    lemma_accepted(p, vars, x);
    let t = type_at(p, vars, x);
    fits_prefix(op, t, x.span);
    lemma_row(
        s,
        g1,
        prefix_row(op, t),
        seq![v],
        seq![basic_ty(t)],
        basic_ty(type_at(p, vars, e)),
    );
    lemma_on(s, g, g1, last.0);
}

proof fn lemma_binary(s: Sigs, p: ProgramV, vars: Seq<VarV>, g: Gen, e: ExprV)
    requires
        fit_for(s, p, vars, g),
        accepted(p, vars, e),
        e.kind is Binary,
    ensures
        sound(s, g, code_at(p, vars, g, e), held_as(p, vars, e)),
    decreases e, 0int,
{
    lemma_accepted(p, vars, e);
    types_of_binary(p, vars, e);
    parts_of_binary(p, vars, g, e);
    let last = code_at(p, vars, g, e);
    let (op, x, y) = (e.kind->Binary_op, *e.kind->Binary_lhs, *e.kind->Binary_rhs);
    let (tx, ty) = (type_at(p, vars, x), type_at(p, vars, y));
    let (g1, l) = code_at(p, vars, g, x);
    lemma_expr(s, p, vars, g, x);
    lemma_accepted(p, vars, x);
    lemma_accepted(p, vars, y);
    if op == BinOp::And || op == BinOp::Or {
        let g2 = new_slot(g1, IrTy::I1);
        lemma_on_slot(s, g1, IrTy::I1);
        lemma_on(s, g, g1, g2);
        lemma_fit_on(s, p, vars, g, g2);
        let (rg, r) = code_at(p, vars, inner(g2), y);
        lemma_expr(s, p, vars, inner(g2), y);
        lemma_logical(s, g2, op, l, rg, r);
        lemma_on(s, g, g2, last.0);
    } else {
        lemma_fit_on(s, p, vars, g, g1);
        let (g2, r) = code_at(p, vars, g1, y);
        lemma_expr(s, p, vars, g1, y);
        lemma_on(s, g, g1, g2);
        lemma_on_is(s, g1, g2, l, basic_ty(tx));
        fits_binary(op, tx, ty, x.span, y.span, e.span);
        lemma_row(
            s,
            g2,
            binary_row(op, tx, ty),
            seq![l, r],
            seq![basic_ty(tx), basic_ty(ty)],
            basic_ty(type_at(p, vars, e)),
        );
        lemma_on(s, g, g2, last.0);
    }
}

proof fn lemma_array(s: Sigs, p: ProgramV, vars: Seq<VarV>, g: Gen, e: ExprV)
    requires
        fit_for(s, p, vars, g),
        accepted(p, vars, e),
        e.kind is Array,
    ensures
        sound(s, g, code_at(p, vars, g, e), held_as(p, vars, e)),
    decreases e, 0int,
{
    lemma_accepted(p, vars, e);
    types_of_array(p, vars, e);
    parts_of_array(p, vars, g, e);
    let last = code_at(p, vars, g, e);
    let es = e.kind->Array_0;
    let n = es.len() as usize;
    fits_array(n);
    lemma_row(s, g, array_row(n), Seq::empty(), Seq::empty(), IrTy::Ptr);
    let (h, hdr) = placed_row(g, array_row(n), Seq::empty());
    let made = h.regs.len() - g.regs.len();
    let data = src_opnd(Seq::empty(), g.regs.len(), made, array_data(n));
    lemma_data(s, g, n);
    lemma_fit_on(s, p, vars, g, h);
    lemma_elems(s, p, vars, h, data, es, 0);
    lemma_on(s, g, h, last.0);
    lemma_on_is(s, h, last.0, hdr, IrTy::Ptr);
}

/// The data of a new array is a pointer.
proof fn lemma_data(s: Sigs, g: Gen, n: usize)
    ensures
        ({
            let h = placed(g, array_row(n).parts, Seq::empty());
            let made = h.regs.len() - g.regs.len();
            is_of(
                h.regs,
                src_opnd(Seq::empty(), g.regs.len(), made, array_data(n)),
                IrTy::Ptr,
            )
        }),
{
    fits_array(n);
    let r = Row { parts: array_row(n).parts, out: array_data(n) };
    lemma_row(s, g, r, Seq::empty(), Seq::empty(), IrTy::Ptr);
    reveal(placed_row);
}

proof fn lemma_index(s: Sigs, p: ProgramV, vars: Seq<VarV>, g: Gen, e: ExprV)
    requires
        fit_for(s, p, vars, g),
        accepted(p, vars, e),
        e.kind is Index,
    ensures
        sound(s, g, code_at(p, vars, g, e), held_as(p, vars, e)),
    decreases e, 0int,
{
    lemma_accepted(p, vars, e);
    types_of_index(p, vars, e);
    parts_of_index(p, vars, g, e);
    let last = code_at(p, vars, g, e);
    let (x, y) = (*e.kind->Index_array, *e.kind->Index_index);
    let (tx, ty) = (type_at(p, vars, x), type_at(p, vars, y));
    let (g1, a) = code_at(p, vars, g, x);
    lemma_expr(s, p, vars, g, x);
    lemma_accepted(p, vars, x);
    lemma_accepted(p, vars, y);
    let g2 = null_at(g1, a);
    lemma_null(s, g1, a);
    lemma_on(s, g, g1, g2);
    lemma_fit_on(s, p, vars, g, g2);
    let (g3, i) = code_at(p, vars, g2, y);
    lemma_expr(s, p, vars, g2, y);
    lemma_on(s, g, g2, g3);
    lemma_on_is(s, g2, g3, a, IrTy::Ptr);
    fits_index(tx, ty, x.span, y.span);
    lemma_row(
        s,
        g3,
        index_row(tx),
        seq![a, i],
        seq![IrTy::Ptr, basic_ty(ty)],
        basic_ty(type_at(p, vars, e)),
    );
    lemma_on(s, g, g3, last.0);
}

proof fn fits_index(tx: Ty, ty: Ty, xs: Span, ys: Span)
    requires
        index_type(tx, ty, xs, ys) is Ok,
    ensures
        row_fits(
            index_row(tx),
            seq![IrTy::Ptr, basic_ty(ty)],
            basic_ty(index_type(tx, ty, xs, ys)->Ok_0),
        ),
{
    reveal(index_row);
    match tx {
        Ty::MapOf(v) => fits_map_get(*v),
        Ty::Str => fits_byte_get(),
        t => fits_elem_get(basic_ty(elem_of(t))),
    }
}

proof fn lemma_slice(s: Sigs, p: ProgramV, vars: Seq<VarV>, g: Gen, e: ExprV)
    requires
        fit_for(s, p, vars, g),
        accepted(p, vars, e),
        e.kind is Slice,
    ensures
        sound(s, g, code_at(p, vars, g, e), held_as(p, vars, e)),
    decreases e, 0int,
{
    lemma_accepted(p, vars, e);
    types_of_slice(p, vars, e);
    parts_of_slice(p, vars, g, e);
    let last = code_at(p, vars, g, e);
    let (x, lo, hi) = (*e.kind->Slice_seq, e.kind->Slice_lo, e.kind->Slice_hi);
    let t = type_at(p, vars, x);
    let (g1, o) = code_at(p, vars, g, x);
    lemma_expr(s, p, vars, g, x);
    lemma_accepted(p, vars, x);
    let g2 = null_at(g1, o);
    lemma_null(s, g1, o);
    lemma_on(s, g, g1, g2);
    let (g3, len) = placed_row(g2, length_row(t), seq![o]);
    fits_length(t);
    lemma_row(s, g2, length_row(t), seq![o], seq![IrTy::Ptr], IrTy::I64);
    lemma_on(s, g, g2, g3);
    lemma_on_is(s, g2, g3, o, IrTy::Ptr);
    lemma_fit_on(s, p, vars, g, g3);
    let (g4, l) = bound_at(p, vars, g3, lo, OpndV::Int(0));
    lemma_bound(s, p, vars, g3, lo, OpndV::Int(0));
    lemma_on(s, g, g3, g4);
    lemma_on_is(s, g3, g4, o, IrTy::Ptr);
    lemma_on_is(s, g3, g4, len, IrTy::I64);
    lemma_fit_on(s, p, vars, g, g4);
    let (g5, h) = bound_at(p, vars, g4, hi, len);
    lemma_bound(s, p, vars, g4, hi, len);
    lemma_on(s, g, g4, g5);
    lemma_on_is(s, g4, g5, o, IrTy::Ptr);
    lemma_on_is(s, g4, g5, len, IrTy::I64);
    lemma_on_is(s, g4, g5, l, IrTy::I64);
    fits_slice(t);
    lemma_row(
        s,
        g5,
        slice_row(t),
        seq![o, l, h, len],
        seq![IrTy::Ptr, IrTy::I64, IrTy::I64, IrTy::I64],
        IrTy::Ptr,
    );
    lemma_on(s, g, g5, last.0);
}

proof fn lemma_struct(s: Sigs, p: ProgramV, vars: Seq<VarV>, g: Gen, e: ExprV)
    requires
        fit_for(s, p, vars, g),
        accepted(p, vars, e),
        e.kind is StructLit,
    ensures
        sound(s, g, code_at(p, vars, g, e), held_as(p, vars, e)),
    decreases e, 0int,
{
    lemma_accepted(p, vars, e);
    types_of_struct(p, vars, e);
    parts_of_struct(p, vars, g, e);
    let last = code_at(p, vars, g, e);
    let (name, fs) = (e.kind->StructLit_name, e.kind->StructLit_fields);
    let def = struct_named(p, name)->0;
    let op = Op::New(def.fields.len() as usize);
    let r = single(IrTy::Ptr, op, Srcs::S0);
    fits_single(IrTy::Ptr, op, Srcs::S0, Seq::empty());
    lemma_row(s, g, r, Seq::empty(), Seq::empty(), IrTy::Ptr);
    let (h, obj) = placed_row(g, r, Seq::empty());
    lemma_fit_on(s, p, vars, g, h);
    lemma_fields(s, p, vars, h, obj, def.fields, fs, 0);
    lemma_on(s, g, h, last.0);
    lemma_on_is(s, h, last.0, obj, IrTy::Ptr);
}

proof fn lemma_map(s: Sigs, p: ProgramV, vars: Seq<VarV>, g: Gen, e: ExprV)
    requires
        fit_for(s, p, vars, g),
        accepted(p, vars, e),
        e.kind is MapLit,
    ensures
        sound(s, g, code_at(p, vars, g, e), held_as(p, vars, e)),
    decreases e, 0int,
{
    lemma_accepted(p, vars, e);
    types_of_map(p, vars, e);
    parts_of_map(p, vars, g, e);
    let last = code_at(p, vars, g, e);
    let es = e.kind->MapLit_0;
    let r = single(IrTy::Ptr, Op::Rt(Rt::MapNew), Srcs::S0);
    fits_single(IrTy::Ptr, Op::Rt(Rt::MapNew), Srcs::S0, Seq::empty());
    lemma_row(s, g, r, Seq::empty(), Seq::empty(), IrTy::Ptr);
    let (h, hdr) = placed_row(g, r, Seq::empty());
    lemma_fit_on(s, p, vars, g, h);
    lemma_pairs(s, p, vars, h, hdr, es, 0);
    lemma_on(s, g, h, last.0);
    lemma_on_is(s, h, last.0, hdr, IrTy::Ptr);
}

proof fn lemma_field(s: Sigs, p: ProgramV, vars: Seq<VarV>, g: Gen, e: ExprV)
    requires
        fit_for(s, p, vars, g),
        accepted(p, vars, e),
        e.kind is Field,
    ensures
        sound(s, g, code_at(p, vars, g, e), held_as(p, vars, e)),
    decreases e, 0int,
{
    lemma_accepted(p, vars, e);
    types_of_field(p, vars, e);
    parts_of_field(p, vars, g, e);
    let last = code_at(p, vars, g, e);
    let x = *e.kind->Field_obj;
    let (g1, o) = code_at(p, vars, g, x);
    lemma_expr(s, p, vars, g, x);
    lemma_accepted(p, vars, x);
    let g2 = null_at(g1, o);
    lemma_null(s, g1, o);
    lemma_on(s, g, g1, g2);
    fits_field(p, vars, e);
    lemma_row(
        s,
        g2,
        field_row(p, vars, e),
        seq![o],
        seq![IrTy::Ptr],
        basic_ty(type_at(p, vars, e)),
    );
    lemma_on(s, g, g2, last.0);
}

proof fn fits_field(p: ProgramV, vars: Seq<VarV>, e: ExprV)
    ensures
        row_fits(field_row(p, vars, e), seq![IrTy::Ptr], basic_ty(type_at(p, vars, e))),
{
    reveal(field_row);
    reveal(type_at);
    fits_load(
        basic_ty(ty_of(p, vars, e)),
        field_slot(p, ty_of(p, vars, *e.kind->Field_obj), e.kind->Field_field),
    );
}

} // verus!
