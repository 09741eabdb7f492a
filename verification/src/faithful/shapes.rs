//! Where code begins and ends.
use vstd::prelude::*;
#[allow(unused_imports)]
use crate::ast::{BinOp, ExprKindV, ExprV, FieldInitV, ParamV, ProgramV};
#[allow(unused_imports)]
use crate::builtins::{builtin_named, Builtin};
#[allow(unused_imports)]
use crate::faithful::anatomy::{
    all_typed, binary_row, bound_at, bound_typed, call_at, call_is_typed, call_typed, code_at,
    elems_at, field_row, fields_at, first_type, index_row, inits_typed, list_at, null_at, pairs_at,
    pairs_typed, parts_of_array, parts_of_binary, parts_of_bound, parts_of_call, parts_of_checked,
    parts_of_elems, parts_of_field, parts_of_fields, parts_of_index, parts_of_list, parts_of_map,
    parts_of_own, parts_of_pairs, parts_of_plain, parts_of_slice, parts_of_struct, parts_of_unary,
    put_at, store_at, type_at, typed,
};
#[allow(unused_imports)]
use crate::faithful::machine::{
    all_known, extends, known, lemma_extends, lemma_extends_put, lemma_extends_self,
    lemma_extends_then, lemma_known, lemma_placed, lemma_placed_row, placed, placed_row, shaped,
    src_opnd,
};
#[allow(unused_imports)]
use crate::faithful::rowcode::{
    append, chomp, code_append, code_chomp, code_grow, code_line, code_room, code_store,
    code_variant, grow, line_start, room,
};
#[allow(unused_imports)]
use crate::ir::{basic_ty, CodeV, IrTy, Op, OpndV, Rt};
#[allow(unused_imports)]
use crate::lowering::{
    build_variant, call_func, checks_first, init_index, inner, logical, max_arity, new_slot,
    push_value, read_line, set_var, slot_of, store_payload, store_slot, then_code, ty_of, Gen, VarV,
};
#[allow(unused_imports)]
use crate::meaning::{
    append_row, array_data, array_row, builtin_row, chomp_row, grow_row, length_row, line_row,
    map_put_row, null_row, prefix_row, room_row, second_row, single, slice_row, store_row,
    variant_row, Srcs,
};
#[allow(unused_imports)]
use crate::typing::{func_index, resolve, struct_named, variant_home, variant_index, variant_named};

verus! {

/// What goes on has no fewer registers and variables.
pub proof fn lemma_grows(g: Gen, h: Gen)
    requires
        extends(g, h),
    ensures
        g.code.len() <= h.code.len(),
        g.regs.len() <= h.regs.len(),
        g.slots.len() <= h.slots.len(),
{
    reveal(extends);
}

pub proof fn lemma_extends_slot(g: Gen, ty: IrTy)
    ensures
        extends(g, new_slot(g, ty)),
{
    reveal(extends);
    assert(g.code.take(g.code.len() as int) =~= g.code);
}

pub proof fn lemma_payload_shape(g: Gen, obj: OpndV, vs: Seq<OpndV>, i: int)
    ensures
        extends(g, store_payload(g, obj, vs, i)),
        store_payload(g, obj, vs, i).slots == g.slots,
    decreases vs.len() - i,
{
    if 0 <= i < vs.len() {
        let h = store_slot(g, obj, (i + 1) as usize, vs[i]);
        code_store(g, obj, (i + 1) as usize, vs[i]);
        lemma_placed(g, store_row((i + 1) as usize), seq![obj, vs[i]]);
        lemma_payload_shape(h, obj, vs, i + 1);
        lemma_extends(g, h, store_payload(h, obj, vs, i + 1));
    } else {
        lemma_extends_self(g);
    }
}

pub proof fn lemma_variant_shape(p: ProgramV, g: Gen, name: Seq<char>, vs: Seq<OpndV>)
    ensures
        shaped(g, build_variant(p, g, name, vs)),
{
    let variants = p.enums[variant_home(p, name, 0)].variants;
    let n = max_arity(variants) as usize;
    let k = variant_index(variants, name, 0) as usize;
    code_variant(g, n, k);
    lemma_placed_row(g, variant_row(n, k), Seq::empty());
    let (h, obj) = placed_row(g, variant_row(n, k), Seq::empty());
    lemma_payload_shape(h, obj, vs, 0);
    lemma_extends(g, h, store_payload(h, obj, vs, 0));
    lemma_known(obj, h, store_payload(h, obj, vs, 0));
}

/// `push(a, x)` in parts.
pub proof fn lemma_push_parts(g: Gen, hdr: OpndV, v: OpndV)
    requires
        known(hdr, g),
        known(v, g),
    ensures
        ({
            let (g3, len, cap, enough) = room(g, hdr);
            let s = grow(inner(g3), hdr, cap);
            let g4 = then_code(
                g3,
                CodeV::If { cond: enough, then: Seq::empty(), els: s.code },
                s,
            );
            &&& push_value(g, hdr, v) == (append(g4, hdr, v, len), hdr)
            &&& extends(g, g3)
            &&& extends(inner(g3), s)
            &&& extends(g3, g4)
            &&& extends(g4, append(g4, hdr, v, len))
            &&& known(len, g3)
            &&& known(cap, g3)
            &&& known(enough, g3)
            &&& len == OpndV::Reg(g.regs.len())
            &&& cap == OpndV::Reg(g.regs.len() + 2)
            &&& enough == OpndV::Reg(g.regs.len() + 3)
            &&& g3.regs.len() == g.regs.len() + 4
            &&& g3.slots == g.slots
            &&& g4.slots == g.slots
            &&& append(g4, hdr, v, len).slots == g.slots
        }),
        shaped(g, push_value(g, hdr, v)),
{
    reveal(extends);
    reveal(placed);
    let (g3, len, cap, enough) = room(g, hdr);
    let s = grow(inner(g3), hdr, cap);
    let g4 = then_code(g3, CodeV::If { cond: enough, then: Seq::empty(), els: s.code }, s);
    code_room(g, hdr);
    lemma_placed(g, room_row(), seq![hdr]);
    code_grow(inner(g3), hdr, cap);
    lemma_placed(inner(g3), grow_row(), seq![hdr, cap]);
    lemma_extends_then(g3, CodeV::If { cond: enough, then: Seq::empty(), els: s.code }, s);
    code_append(g4, hdr, v, len);
    lemma_placed(g4, append_row(), seq![hdr, v, len]);
    lemma_extends(g, g3, g4);
    lemma_extends(g, g4, append(g4, hdr, v, len));
}

/// `read_line()` in parts.
pub proof fn lemma_line_parts(g: Gen)
    ensures
        ({
            let (g3, buf, text, end) = line_start(g);
            let s = chomp(inner(g3), buf);
            let g4 = then_code(g3, CodeV::If { cond: end, then: Seq::empty(), els: s.code }, s);
            &&& read_line(g) == (g4, text)
            &&& extends(g, g3)
            &&& extends(inner(g3), s)
            &&& extends(g3, g4)
            &&& buf == OpndV::Reg(g.regs.len())
            &&& text == OpndV::Reg(g.regs.len() + 1)
            &&& end == OpndV::Reg(g.regs.len() + 2)
            &&& g3.regs.len() == g.regs.len() + 3
            &&& g3.slots == g.slots
            &&& g4.slots == g.slots
        }),
        shaped(g, read_line(g)),
{
    reveal(extends);
    reveal(placed);
    let (g3, buf, text, end) = line_start(g);
    let s = chomp(inner(g3), buf);
    let g4 = then_code(g3, CodeV::If { cond: end, then: Seq::empty(), els: s.code }, s);
    code_line(g);
    lemma_placed(g, line_row(), Seq::empty());
    code_chomp(inner(g3), buf);
    lemma_placed(inner(g3), chomp_row(), seq![buf]);
    lemma_extends_then(g3, CodeV::If { cond: end, then: Seq::empty(), els: s.code }, s);
    lemma_extends(g, g3, g4);
}

pub proof fn lemma_push_known(acc: Seq<OpndV>, v: OpndV, g: Gen, h: Gen)
    requires
        all_known(acc, g),
        extends(g, h),
        known(v, h),
    ensures
        all_known(acc.push(v), h),
{
    assert forall|k: int| 0 <= k < acc.push(v).len() implies known(#[trigger] acc.push(v)[k], h) by {
        if k < acc.len() {
            assert(known(acc[k], g));
            lemma_known(acc[k], g, h);
        }
    }
}

pub proof fn lemma_list_shape(
    p: ProgramV,
    vars: Seq<VarV>,
    g: Gen,
    es: Seq<ExprV>,
    i: int,
    acc: Seq<OpndV>,
)
    requires
        0 <= i <= es.len(),
        acc.len() == i,
        all_known(acc, g),
        all_typed(p, vars, es),
    ensures
        ({
            let (h, vs) = list_at(p, vars, g, es, i, acc);
            &&& extends(g, h)
            &&& all_known(vs, h)
            &&& vs.len() == es.len()
        }),
    decreases es, es.len() - i,
{
    parts_of_list(p, vars, g, es, i, acc);
    if i < es.len() {
        let (h, v) = code_at(p, vars, g, es[i]);
        lemma_shape(p, vars, g, es[i]);
        lemma_push_known(acc, v, g, h);
        lemma_list_shape(p, vars, h, es, i + 1, acc.push(v));
        lemma_extends(g, h, list_at(p, vars, h, es, i + 1, acc.push(v)).0);
    } else {
        lemma_extends_self(g);
    }
}

pub proof fn lemma_elems_shape(
    p: ProgramV,
    vars: Seq<VarV>,
    g: Gen,
    data: OpndV,
    es: Seq<ExprV>,
    i: int,
)
    requires
        0 <= i <= es.len(),
        all_typed(p, vars, es),
    ensures
        extends(g, elems_at(p, vars, g, data, es, i)),
    decreases es, es.len() - i,
{
    parts_of_elems(p, vars, g, data, es, i);
    if i < es.len() {
        let (g1, v) = code_at(p, vars, g, es[i]);
        lemma_shape(p, vars, g, es[i]);
        let h = store_at(g1, data, i as usize, v);
        lemma_placed(g1, store_row(i as usize), seq![data, v]);
        lemma_elems_shape(p, vars, h, data, es, i + 1);
        lemma_extends(g, g1, h);
        lemma_extends(g, h, elems_at(p, vars, h, data, es, i + 1));
    } else {
        lemma_extends_self(g);
    }
}

pub proof fn lemma_fields_shape(
    p: ProgramV,
    vars: Seq<VarV>,
    g: Gen,
    obj: OpndV,
    fields: Seq<ParamV>,
    fs: Seq<FieldInitV>,
    i: int,
)
    requires
        0 <= i <= fields.len(),
        inits_typed(p, vars, fs),
    ensures
        extends(g, fields_at(p, vars, g, obj, fields, fs, i)),
    decreases fs, fields.len() - i,
{
    parts_of_fields(p, vars, g, obj, fields, fs, i);
    lemma_extends_self(g);
    if i < fields.len() {
        let k = init_index(fs, fields[i].name, 0);
        if 0 <= k < fs.len() {
            let (g1, v) = code_at(p, vars, g, fs[k].value);
            lemma_shape(p, vars, g, fs[k].value);
            let h = store_at(g1, obj, i as usize, v);
            lemma_placed(g1, store_row(i as usize), seq![obj, v]);
            lemma_fields_shape(p, vars, h, obj, fields, fs, i + 1);
            lemma_extends(g, g1, h);
            lemma_extends(g, h, fields_at(p, vars, h, obj, fields, fs, i + 1));
        }
    }
}

pub proof fn lemma_pairs_shape(
    p: ProgramV,
    vars: Seq<VarV>,
    g: Gen,
    hdr: OpndV,
    es: Seq<(ExprV, ExprV)>,
    i: int,
)
    requires
        0 <= i <= es.len(),
        pairs_typed(p, vars, es),
    ensures
        extends(g, pairs_at(p, vars, g, hdr, es, i)),
    decreases es, es.len() - i,
{
    parts_of_pairs(p, vars, g, hdr, es, i);
    if i < es.len() {
        let (g1, key) = code_at(p, vars, g, es[i].0);
        lemma_shape(p, vars, g, es[i].0);
        let (g2, v) = code_at(p, vars, g1, es[i].1);
        lemma_shape(p, vars, g1, es[i].1);
        let t = type_at(p, vars, es[i].1);
        let h = put_at(g2, hdr, key, v, t);
        lemma_placed(g2, map_put_row(t), seq![hdr, key, v]);
        lemma_pairs_shape(p, vars, h, hdr, es, i + 1);
        lemma_extends(g, g1, g2);
        lemma_extends(g, g2, h);
        lemma_extends(g, h, pairs_at(p, vars, h, hdr, es, i + 1));
    } else {
        lemma_extends_self(g);
    }
}

pub proof fn lemma_bound_shape(p: ProgramV, vars: Seq<VarV>, g: Gen, e: Option<Box<ExprV>>, other: OpndV)
    requires
        bound_typed(p, vars, e),
        known(other, g),
    ensures
        shaped(g, bound_at(p, vars, g, e, other)),
    decreases e, 0int,
{
    parts_of_bound(p, vars, g, e, other);
    match e {
        Some(x) => lemma_shape(p, vars, g, *x),
        None => lemma_extends_self(g),
    }
}

/// A call with a check between its arguments.
pub proof fn lemma_checked_shape(
    p: ProgramV,
    vars: Seq<VarV>,
    g: Gen,
    name: Seq<char>,
    args: Seq<ExprV>,
    f: Builtin,
)
    requires
        builtin_named(name) == Some(f),
        checks_first(f),
        args.len() == 2,
        all_typed(p, vars, args),
    ensures
        shaped(g, call_at(p, vars, g, name, args)),
    decreases args, args.len(),
{
    parts_of_checked(p, vars, g, name, args, f);
    let last = call_at(p, vars, g, name, args);
    let (g1, x) = code_at(p, vars, g, args[0]);
    lemma_shape(p, vars, g, args[0]);
    let g2 = null_at(g1, x);
    lemma_placed(g1, null_row().parts, seq![x]);
    let (g3, y) = code_at(p, vars, g2, args[1]);
    lemma_shape(p, vars, g2, args[1]);
    lemma_known(x, g1, g2);
    lemma_known(x, g2, g3);
    lemma_extends(g, g1, g2);
    lemma_extends(g, g2, g3);
    if f == Builtin::Push {
        lemma_push_parts(g3, x, y);
    } else {
        assert(all_known(seq![x, y], g3));
        lemma_placed_row(g3, second_row(f), seq![x, y]);
    }
    lemma_extends(g, g3, last.0);
}

pub proof fn lemma_call_shape(
    p: ProgramV,
    vars: Seq<VarV>,
    g: Gen,
    name: Seq<char>,
    args: Seq<ExprV>,
)
    requires
        call_typed(p, vars, name, args),
    ensures
        shaped(g, call_at(p, vars, g, name, args)),
    decreases args, args.len() + 1,
{
    call_is_typed(p, vars, name, args);
    let last = call_at(p, vars, g, name, args);
    match builtin_named(name) {
        Some(f) => if checks_first(f) {
            lemma_checked_shape(p, vars, g, name, args, f);
        } else {
            lemma_list_shape(p, vars, g, args, 0, Seq::empty());
            parts_of_plain(p, vars, g, name, args, f);
            let (g1, vs) = list_at(p, vars, g, args, 0, Seq::empty());
            if f == Builtin::ReadLine {
                lemma_line_parts(g1);
            } else {
                lemma_placed_row(g1, builtin_row(f, first_type(p, vars, args)), vs);
            }
            lemma_extends(g, g1, last.0);
        },
        None => {
            lemma_list_shape(p, vars, g, args, 0, Seq::empty());
            parts_of_own(p, vars, g, name, args);
            let (g1, vs) = list_at(p, vars, g, args, 0, Seq::empty());
            if variant_named(p, name) is Some {
                lemma_variant_shape(p, g1, name, vs);
            } else {
                let k = func_index(p, name, 0);
                lemma_func_shape(g1, k as nat, basic_ty(resolve(p, p.funcs[k].ret)), vs);
            }
            lemma_extends(g, g1, last.0);
        },
    }
}

pub proof fn lemma_func_shape(g: Gen, f: nat, ty: IrTy, vs: Seq<OpndV>)
    ensures
        shaped(g, call_func(g, f, ty, vs)),
{
    reveal(extends);
    assert(call_func(g, f, ty, vs).0.code.take(g.code.len() as int) =~= g.code);
}

/// `lhs && rhs` and `lhs || rhs`, from the code of the operands.
pub proof fn lemma_logical_shape(g: Gen, op: BinOp, l: OpndV, slot: usize, rg: Gen, r: OpndV)
    requires
        g.regs.len() <= rg.regs.len(),
        g.slots.len() <= rg.slots.len(),
    ensures
        shaped(g, logical(g, op, l, slot, rg, r)),
{
    let long = set_var(rg, slot, r);
    let short = set_var(inner(long), slot, OpndV::Bool(op == BinOp::Or));
    let c = if op == BinOp::And {
        CodeV::If { cond: l, then: long.code, els: short.code }
    } else {
        CodeV::If { cond: l, then: short.code, els: long.code }
    };
    let h = then_code(g, c, short);
    lemma_extends_then(g, c, short);
    lemma_extends_put(h, IrTy::I1, Op::GetVar(slot), Seq::empty());
    lemma_extends(g, h, logical(g, op, l, slot, rg, r).0);
}

/// The code of an expression goes on where the code before it ends.
pub proof fn lemma_shape(p: ProgramV, vars: Seq<VarV>, g: Gen, e: ExprV)
    requires
        typed(p, vars, e),
    ensures
        shaped(g, code_at(p, vars, g, e)),
    decreases e, 1int,
{
    match e.kind {
        ExprKindV::Unary { .. } => lemma_shape_unary(p, vars, g, e),
        ExprKindV::Binary { .. } => lemma_shape_binary(p, vars, g, e),
        ExprKindV::Call { name, args } => {
            parts_of_call(p, vars, g, e);
            lemma_call_shape(p, vars, g, name, args);
        },
        ExprKindV::Array(..) => lemma_shape_array(p, vars, g, e),
        ExprKindV::Index { .. } => lemma_shape_index(p, vars, g, e),
        ExprKindV::Slice { .. } => lemma_shape_slice(p, vars, g, e),
        ExprKindV::StructLit { .. } => lemma_shape_struct(p, vars, g, e),
        ExprKindV::MapLit(..) => lemma_shape_map(p, vars, g, e),
        ExprKindV::Field { .. } => lemma_shape_field(p, vars, g, e),
        _ => lemma_shape_leaf(p, vars, g, e),
    }
}

/// An expression without parts.
pub open spec fn is_leaf(e: ExprV) -> bool {
    e.kind is Int || e.kind is Float || e.kind is Bool || e.kind is Str || e.kind is Null || e.kind is Var
}

proof fn lemma_shape_leaf(p: ProgramV, vars: Seq<VarV>, g: Gen, e: ExprV)
    requires
        is_leaf(e),
    ensures
        shaped(g, code_at(p, vars, g, e)),
{
    reveal(code_at);
    lemma_extends_self(g);
    if let ExprKindV::Var(name) = e.kind {
        if variant_named(p, name) is Some {
            lemma_variant_shape(p, g, name, Seq::empty());
        } else {
            let t = basic_ty(ty_of(p, vars, e));
            lemma_extends_put(g, t, Op::GetVar(slot_of(vars, name)), Seq::empty());
        }
    }
}

proof fn lemma_shape_unary(p: ProgramV, vars: Seq<VarV>, g: Gen, e: ExprV)
    requires
        e.kind is Unary,
        typed(p, vars, e),
    ensures
        shaped(g, code_at(p, vars, g, e)),
    decreases e, 0int,
{
    let last = code_at(p, vars, g, e);
    parts_of_unary(p, vars, g, e);
    let x = *e.kind->Unary_expr;
    let (g1, v) = code_at(p, vars, g, x);
    lemma_shape(p, vars, g, x);
    assert(all_known(seq![v], g1));
    lemma_placed_row(g1, prefix_row(e.kind->Unary_op, type_at(p, vars, x)), seq![v]);
    lemma_extends(g, g1, last.0);
}

proof fn lemma_shape_binary(p: ProgramV, vars: Seq<VarV>, g: Gen, e: ExprV)
    requires
        e.kind is Binary,
        typed(p, vars, e),
    ensures
        shaped(g, code_at(p, vars, g, e)),
    decreases e, 0int,
{
    let last = code_at(p, vars, g, e);
    parts_of_binary(p, vars, g, e);
    let (op, x, y) = (e.kind->Binary_op, *e.kind->Binary_lhs, *e.kind->Binary_rhs);
    let (g1, l) = code_at(p, vars, g, x);
    lemma_shape(p, vars, g, x);
    if op == BinOp::And || op == BinOp::Or {
        let slot = g1.slots.len() as usize;
        let g2 = new_slot(g1, IrTy::I1);
        lemma_extends_slot(g1, IrTy::I1);
        let (rg, r) = code_at(p, vars, inner(g2), y);
        lemma_shape(p, vars, inner(g2), y);
        lemma_grows(inner(g2), rg);
        lemma_logical_shape(g2, op, l, slot, rg, r);
        lemma_extends(g, g1, g2);
        lemma_extends(g, g2, last.0);
    } else {
        let (g2, r) = code_at(p, vars, g1, y);
        lemma_shape(p, vars, g1, y);
        lemma_extends(g, g1, g2);
        lemma_known(l, g1, g2);
        assert(all_known(seq![l, r], g2));
        let row = binary_row(op, type_at(p, vars, x), type_at(p, vars, y));
        lemma_placed_row(g2, row, seq![l, r]);
        lemma_extends(g, g2, last.0);
    }
}

proof fn lemma_shape_array(p: ProgramV, vars: Seq<VarV>, g: Gen, e: ExprV)
    requires
        e.kind is Array,
        typed(p, vars, e),
    ensures
        shaped(g, code_at(p, vars, g, e)),
    decreases e, 0int,
{
    let last = code_at(p, vars, g, e);
    parts_of_array(p, vars, g, e);
    let es = e.kind->Array_0;
    let n = es.len() as usize;
    let (h, hdr) = placed_row(g, array_row(n), Seq::empty());
    let made = h.regs.len() - g.regs.len();
    let data = src_opnd(Seq::empty(), g.regs.len(), made, array_data(n));
    lemma_placed_row(g, array_row(n), Seq::empty());
    lemma_elems_shape(p, vars, h, data, es, 0);
    lemma_known(hdr, h, last.0);
    lemma_extends(g, h, last.0);
}

proof fn lemma_shape_index(p: ProgramV, vars: Seq<VarV>, g: Gen, e: ExprV)
    requires
        e.kind is Index,
        typed(p, vars, e),
    ensures
        shaped(g, code_at(p, vars, g, e)),
    decreases e, 0int,
{
    let last = code_at(p, vars, g, e);
    parts_of_index(p, vars, g, e);
    let (x, y) = (*e.kind->Index_array, *e.kind->Index_index);
    let (g1, a) = code_at(p, vars, g, x);
    lemma_shape(p, vars, g, x);
    let g2 = null_at(g1, a);
    lemma_placed(g1, null_row().parts, seq![a]);
    let (g3, i) = code_at(p, vars, g2, y);
    lemma_shape(p, vars, g2, y);
    lemma_extends(g, g1, g2);
    lemma_extends(g, g2, g3);
    lemma_known(a, g1, g2);
    lemma_known(a, g2, g3);
    assert(all_known(seq![a, i], g3));
    lemma_placed_row(g3, index_row(type_at(p, vars, x)), seq![a, i]);
    lemma_extends(g, g3, last.0);
}

proof fn lemma_shape_slice(p: ProgramV, vars: Seq<VarV>, g: Gen, e: ExprV)
    requires
        e.kind is Slice,
        typed(p, vars, e),
    ensures
        shaped(g, code_at(p, vars, g, e)),
    decreases e, 0int,
{
    let last = code_at(p, vars, g, e);
    parts_of_slice(p, vars, g, e);
    let (x, lo, hi) = (*e.kind->Slice_seq, e.kind->Slice_lo, e.kind->Slice_hi);
    let t = type_at(p, vars, x);
    let (g1, o) = code_at(p, vars, g, x);
    lemma_shape(p, vars, g, x);
    let g2 = null_at(g1, o);
    lemma_placed(g1, null_row().parts, seq![o]);
    lemma_known(o, g1, g2);
    let (g3, len) = placed_row(g2, length_row(t), seq![o]);
    assert(all_known(seq![o], g2));
    lemma_placed_row(g2, length_row(t), seq![o]);
    lemma_known(o, g2, g3);
    let (g4, l) = bound_at(p, vars, g3, lo, OpndV::Int(0));
    lemma_bound_shape(p, vars, g3, lo, OpndV::Int(0));
    lemma_known(len, g3, g4);
    lemma_known(o, g3, g4);
    let (g5, h) = bound_at(p, vars, g4, hi, len);
    lemma_bound_shape(p, vars, g4, hi, len);
    lemma_known(l, g4, g5);
    lemma_known(len, g4, g5);
    lemma_known(o, g4, g5);
    lemma_extends(g, g1, g2);
    lemma_extends(g, g2, g3);
    lemma_extends(g, g3, g4);
    lemma_extends(g, g4, g5);
    assert(all_known(seq![o, l, h, len], g5));
    lemma_placed_row(g5, slice_row(t), seq![o, l, h, len]);
    lemma_extends(g, g5, last.0);
}

proof fn lemma_shape_struct(p: ProgramV, vars: Seq<VarV>, g: Gen, e: ExprV)
    requires
        e.kind is StructLit,
        typed(p, vars, e),
    ensures
        shaped(g, code_at(p, vars, g, e)),
    decreases e, 0int,
{
    let last = code_at(p, vars, g, e);
    parts_of_struct(p, vars, g, e);
    let (name, fs) = (e.kind->StructLit_name, e.kind->StructLit_fields);
    let def = struct_named(p, name)->0;
    let r = single(IrTy::Ptr, Op::New(def.fields.len() as usize), Srcs::S0);
    let (h, obj) = placed_row(g, r, Seq::empty());
    lemma_placed_row(g, r, Seq::empty());
    lemma_fields_shape(p, vars, h, obj, def.fields, fs, 0);
    lemma_known(obj, h, last.0);
    lemma_extends(g, h, last.0);
}

proof fn lemma_shape_map(p: ProgramV, vars: Seq<VarV>, g: Gen, e: ExprV)
    requires
        e.kind is MapLit,
        typed(p, vars, e),
    ensures
        shaped(g, code_at(p, vars, g, e)),
    decreases e, 0int,
{
    let last = code_at(p, vars, g, e);
    parts_of_map(p, vars, g, e);
    let es = e.kind->MapLit_0;
    let r = single(IrTy::Ptr, Op::Rt(Rt::MapNew), Srcs::S0);
    let (h, hdr) = placed_row(g, r, Seq::empty());
    lemma_placed_row(g, r, Seq::empty());
    lemma_pairs_shape(p, vars, h, hdr, es, 0);
    lemma_known(hdr, h, last.0);
    lemma_extends(g, h, last.0);
}

proof fn lemma_shape_field(p: ProgramV, vars: Seq<VarV>, g: Gen, e: ExprV)
    requires
        e.kind is Field,
        typed(p, vars, e),
    ensures
        shaped(g, code_at(p, vars, g, e)),
    decreases e, 0int,
{
    let last = code_at(p, vars, g, e);
    parts_of_field(p, vars, g, e);
    let x = *e.kind->Field_obj;
    let (g1, o) = code_at(p, vars, g, x);
    lemma_shape(p, vars, g, x);
    let g2 = null_at(g1, o);
    lemma_placed(g1, null_row().parts, seq![o]);
    lemma_known(o, g1, g2);
    assert(all_known(seq![o], g2));
    lemma_placed_row(g2, field_row(p, vars, e), seq![o]);
    lemma_extends(g, g1, g2);
    lemma_extends(g, g2, last.0);
}

} // verus!
