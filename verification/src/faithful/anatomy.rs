//! What the code and the meaning of an expression are made of.
//!
//! Each kind of expression is taken apart once, here. The names of this module keep what is
//! inside a part out of the proofs about the whole.
use vstd::prelude::*;
#[allow(unused_imports)]
use crate::ast::{BinOp, ExprV, FieldInitV, ParamV, ProgramV};
#[allow(unused_imports)]
use crate::builtins::{builtin_named, Builtin};
#[allow(unused_imports)]
use crate::faithful::machine::{placed, placed_row, src_opnd};
#[allow(unused_imports)]
use crate::faithful::rowcode::{
    code_array, code_builtin, code_byte_get, code_elem_get, code_infix, code_length, code_load,
    code_map_get, code_map_put, code_null, code_prefix, code_refs, code_second, code_single,
    code_slice, code_store, needs, row_ok,
};
#[allow(unused_imports)]
use crate::ir::{basic_ty, IrTy, Op, OpndV, Rt};
#[allow(unused_imports)]
use crate::lower::{
    is_empty, lemma_all_typed, lemma_call_typed, lemma_inits_typed, lemma_pairs_typed,
};
#[allow(unused_imports)]
use crate::lowering::{
    build_variant, call_func, checks_first, elem_of, field_slot, init_index, inner, length, logical,
    lower, lower_bound, lower_call, lower_elems, lower_fields, lower_list, lower_pairs, new_slot,
    plain_rt, push_value, read_line, tenv, ty_of, Gen, VarV,
};
#[allow(unused_imports)]
use crate::meaning::{
    array_data, array_row, bound, builtin_row, byte_get_row, call, elem_get_row, elements, expr,
    infix_row, inits, length_row, line, list, load_row, map_get_row, map_put_row, null_row, pairs,
    prefix_row, pushed, refs_row, row, row_from, second_row, single, slice_row, src_val, store_row,
    value_of, variant, Base, Done, Row, RowEnd, Src, Srcs, Value, Values,
};
#[allow(unused_imports)]
use crate::span::Span;
#[allow(unused_imports)]
use crate::types::Ty;
#[allow(unused_imports)]
use crate::typing::{func_index, resolve, struct_named, type_of, variant_named};
#[allow(unused_imports)]
use crate::typing;

verus! {

/// An expression that the type checker accepts, or an empty literal.
#[verifier::opaque]
pub open spec fn typed(p: ProgramV, vars: Seq<VarV>, e: ExprV) -> bool {
    type_of(p, tenv(vars), e) is Ok || is_empty(e)
}

pub open spec fn all_typed(p: ProgramV, vars: Seq<VarV>, es: Seq<ExprV>) -> bool {
    forall|k: int| 0 <= k < es.len() ==> typed(p, vars, #[trigger] es[k])
}

pub open spec fn inits_typed(p: ProgramV, vars: Seq<VarV>, fs: Seq<FieldInitV>) -> bool {
    forall|k: int| 0 <= k < fs.len() ==> typed(p, vars, (#[trigger] fs[k]).value)
}

pub open spec fn pairs_typed(p: ProgramV, vars: Seq<VarV>, es: Seq<(ExprV, ExprV)>) -> bool {
    forall|k: int|
        0 <= k < es.len() ==> typed(p, vars, (#[trigger] es[k]).0) && typed(p, vars, es[k].1)
}

/// A bound of a slice that the type checker accepts.
#[verifier::opaque]
pub open spec fn bound_typed(p: ProgramV, vars: Seq<VarV>, e: Option<Box<ExprV>>) -> bool {
    typing::bound_ok(p, tenv(vars), e) is Ok
}

/// A call that the type checker accepts.
#[verifier::opaque]
pub open spec fn call_typed(p: ProgramV, vars: Seq<VarV>, name: Seq<char>, args: Seq<ExprV>) -> bool {
    exists|span: Span| typing::call_type(p, tenv(vars), name, args, span) is Ok
}

#[verifier::opaque]
pub open spec fn type_at(p: ProgramV, vars: Seq<VarV>, e: ExprV) -> Ty {
    ty_of(p, vars, e)
}

// The code of the parts.

#[verifier::opaque]
pub open spec fn code_at(p: ProgramV, vars: Seq<VarV>, g: Gen, e: ExprV) -> (Gen, OpndV) {
    lower(p, vars, g, e)
}

#[verifier::opaque]
pub open spec fn bound_at(
    p: ProgramV,
    vars: Seq<VarV>,
    g: Gen,
    e: Option<Box<ExprV>>,
    other: OpndV,
) -> (Gen, OpndV) {
    lower_bound(p, vars, g, e, other)
}

#[verifier::opaque]
pub open spec fn elems_at(
    p: ProgramV,
    vars: Seq<VarV>,
    g: Gen,
    data: OpndV,
    es: Seq<ExprV>,
    i: int,
) -> Gen {
    lower_elems(p, vars, g, data, es, i)
}

#[verifier::opaque]
pub open spec fn fields_at(
    p: ProgramV,
    vars: Seq<VarV>,
    g: Gen,
    obj: OpndV,
    fields: Seq<ParamV>,
    fs: Seq<FieldInitV>,
    i: int,
) -> Gen {
    lower_fields(p, vars, g, obj, fields, fs, i)
}

#[verifier::opaque]
pub open spec fn pairs_at(
    p: ProgramV,
    vars: Seq<VarV>,
    g: Gen,
    hdr: OpndV,
    es: Seq<(ExprV, ExprV)>,
    i: int,
) -> Gen {
    lower_pairs(p, vars, g, hdr, es, i)
}

#[verifier::opaque]
pub open spec fn list_at(
    p: ProgramV,
    vars: Seq<VarV>,
    g: Gen,
    es: Seq<ExprV>,
    i: int,
    acc: Seq<OpndV>,
) -> (Gen, Seq<OpndV>) {
    lower_list(p, vars, g, es, i, acc)
}

#[verifier::opaque]
pub open spec fn call_at(
    p: ProgramV,
    vars: Seq<VarV>,
    g: Gen,
    name: Seq<char>,
    args: Seq<ExprV>,
) -> (Gen, OpndV) {
    lower_call(p, vars, g, name, args)
}

// The meaning of the parts.

#[verifier::opaque]
pub open spec fn sense<V, W>(
    b: Base<V, W>,
    p: ProgramV,
    vars: Seq<VarV>,
    vals: Seq<V>,
    e: ExprV,
    w: W,
) -> Value<V, W> {
    expr(b, p, tenv(vars), vals, e, w)
}

#[verifier::opaque]
pub open spec fn bound_sense<V, W>(
    b: Base<V, W>,
    p: ProgramV,
    vars: Seq<VarV>,
    vals: Seq<V>,
    e: Option<Box<ExprV>>,
    other: V,
    w: W,
) -> Value<V, W> {
    bound(b, p, tenv(vars), vals, e, other, w)
}

#[verifier::opaque]
pub open spec fn elems_sense<V, W>(
    b: Base<V, W>,
    p: ProgramV,
    vars: Seq<VarV>,
    vals: Seq<V>,
    data: V,
    es: Seq<ExprV>,
    i: int,
    whole: V,
    w: W,
) -> Value<V, W> {
    elements(b, p, tenv(vars), vals, data, es, i, whole, w)
}

#[verifier::opaque]
pub open spec fn fields_sense<V, W>(
    b: Base<V, W>,
    p: ProgramV,
    vars: Seq<VarV>,
    vals: Seq<V>,
    obj: V,
    fields: Seq<ParamV>,
    fs: Seq<FieldInitV>,
    i: int,
    w: W,
) -> Value<V, W> {
    inits(b, p, tenv(vars), vals, obj, fields, fs, i, w)
}

#[verifier::opaque]
pub open spec fn pairs_sense<V, W>(
    b: Base<V, W>,
    p: ProgramV,
    vars: Seq<VarV>,
    vals: Seq<V>,
    m: V,
    es: Seq<(ExprV, ExprV)>,
    i: int,
    w: W,
) -> Value<V, W> {
    pairs(b, p, tenv(vars), vals, m, es, i, w)
}

#[verifier::opaque]
pub open spec fn list_sense<V, W>(
    b: Base<V, W>,
    p: ProgramV,
    vars: Seq<VarV>,
    vals: Seq<V>,
    es: Seq<ExprV>,
    i: int,
    acc: Seq<V>,
    w: W,
) -> Values<V, W> {
    list(b, p, tenv(vars), vals, es, i, acc, w)
}

#[verifier::opaque]
pub open spec fn call_sense<V, W>(
    b: Base<V, W>,
    p: ProgramV,
    vars: Seq<VarV>,
    vals: Seq<V>,
    name: Seq<char>,
    args: Seq<ExprV>,
    w: W,
) -> Value<V, W> {
    call(b, p, tenv(vars), vals, name, args, w)
}

// Rows that depend on types.

#[verifier::opaque]
pub open spec fn binary_row(op: BinOp, lt: Ty, rt: Ty) -> Row {
    if (op == BinOp::Eq || op == BinOp::Ne) && (lt is Null || rt is Null) {
        refs_row(op)
    } else {
        infix_row(op, lt)
    }
}

#[verifier::opaque]
pub open spec fn index_row(t: Ty) -> Row {
    match t {
        Ty::MapOf(v) => map_get_row(*v),
        Ty::Str => byte_get_row(),
        t => elem_get_row(basic_ty(elem_of(t))),
    }
}

#[verifier::opaque]
pub open spec fn field_row(p: ProgramV, vars: Seq<VarV>, e: ExprV) -> Row {
    load_row(
        basic_ty(ty_of(p, vars, e)),
        field_slot(p, ty_of(p, vars, *e.kind->Field_obj), e.kind->Field_field),
    )
}

/// The type of the first argument, where there is one.
#[verifier::opaque]
pub open spec fn first_type(p: ProgramV, vars: Seq<VarV>, args: Seq<ExprV>) -> Ty {
    if args.len() == 0 {
        Ty::Null
    } else {
        ty_of(p, vars, args[0])
    }
}

/// The code of the check for `null`.
pub open spec fn null_at(g: Gen, v: OpndV) -> Gen {
    placed(g, null_row().parts, seq![v])
}

/// The code that writes to a slot of an object.
pub open spec fn store_at(g: Gen, o: OpndV, i: usize, v: OpndV) -> Gen {
    placed(g, store_row(i), seq![o, v])
}

pub proof fn parts_of_unary(p: ProgramV, vars: Seq<VarV>, g: Gen, e: ExprV)
    requires
        typed(p, vars, e),
        e.kind is Unary,
    ensures
        ({
            let (op, x) = (e.kind->Unary_op, *e.kind->Unary_expr);
            let (g1, v) = code_at(p, vars, g, x);
            let r = prefix_row(op, type_at(p, vars, x));
            &&& typed(p, vars, x)
            &&& row_ok(r)
            &&& code_at(p, vars, g, e) == placed_row(g1, r, seq![v])
        }),
{
    reveal(typed);
    reveal(code_at);
    reveal(type_at);
    let (op, x) = (e.kind->Unary_op, *e.kind->Unary_expr);
    let (g1, v) = lower(p, vars, g, x);
    code_prefix(g1, op, v, ty_of(p, vars, x));
}

pub proof fn sense_of_unary<V, W>(
    b: Base<V, W>,
    p: ProgramV,
    vars: Seq<VarV>,
    vals: Seq<V>,
    e: ExprV,
    w: W,
)
    requires
        e.kind is Unary,
    ensures
        ({
            let (op, x) = (e.kind->Unary_op, *e.kind->Unary_expr);
            let r = prefix_row(op, type_at(p, vars, x));
            sense(b, p, vars, vals, e, w) == match sense(b, p, vars, vals, x, w) {
                Value::Is(v, w1) => value_of(b, r, seq![v], w1),
                other => other,
            }
        }),
{
    reveal(sense);
    reveal(type_at);
}

pub proof fn parts_of_binary(p: ProgramV, vars: Seq<VarV>, g: Gen, e: ExprV)
    requires
        typed(p, vars, e),
        e.kind is Binary,
    ensures
        ({
            let (op, x, y) = (e.kind->Binary_op, *e.kind->Binary_lhs, *e.kind->Binary_rhs);
            let r = binary_row(op, type_at(p, vars, x), type_at(p, vars, y));
            let (g1, l) = code_at(p, vars, g, x);
            let both = op == BinOp::And || op == BinOp::Or;
            &&& typed(p, vars, x)
            &&& typed(p, vars, y)
            &&& both ==> {
                let slot = g1.slots.len() as usize;
                let g2 = new_slot(g1, IrTy::I1);
                let (rg, v) = code_at(p, vars, inner(g2), y);
                code_at(p, vars, g, e) == logical(g2, op, l, slot, rg, v)
            }
            &&& !both ==> {
                let (g2, v) = code_at(p, vars, g1, y);
                &&& row_ok(r)
                &&& code_at(p, vars, g, e) == placed_row(g2, r, seq![l, v])
            }
        }),
{
    reveal(typed);
    reveal(code_at);
    reveal(type_at);
    reveal(binary_row);
    let (op, x, y) = (e.kind->Binary_op, *e.kind->Binary_lhs, *e.kind->Binary_rhs);
    let (g1, l) = lower(p, vars, g, x);
    let (g2, v) = lower(p, vars, g1, y);
    code_refs(g2, op, l, v);
    code_infix(g2, op, l, v, ty_of(p, vars, x));
}

pub proof fn sense_of_binary<V, W>(
    b: Base<V, W>,
    p: ProgramV,
    vars: Seq<VarV>,
    vals: Seq<V>,
    e: ExprV,
    w: W,
)
    requires
        e.kind is Binary,
    ensures
        ({
            let (op, x, y) = (e.kind->Binary_op, *e.kind->Binary_lhs, *e.kind->Binary_rhs);
            let r = binary_row(op, type_at(p, vars, x), type_at(p, vars, y));
            sense(b, p, vars, vals, e, w) == match sense(b, p, vars, vals, x, w) {
                Value::Is(l, w1) => if op == BinOp::And || op == BinOp::Or {
                    if (op == BinOp::And) == (b.truth)(l) {
                        sense(b, p, vars, vals, y, w1)
                    } else {
                        Value::Is((b.konst)(OpndV::Bool(op == BinOp::Or)), w1)
                    }
                } else {
                    match sense(b, p, vars, vals, y, w1) {
                        Value::Is(v, w2) => value_of(b, r, seq![l, v], w2),
                        other => other,
                    }
                },
                other => other,
            }
        }),
{
    reveal(sense);
    reveal(type_at);
    reveal(binary_row);
}

pub proof fn parts_of_array(p: ProgramV, vars: Seq<VarV>, g: Gen, e: ExprV)
    requires
        typed(p, vars, e),
        e.kind is Array,
    ensures
        ({
            let es = e.kind->Array_0;
            let r = array_row(es.len() as usize);
            let (h, hdr) = placed_row(g, r, Seq::empty());
            let made = h.regs.len() - g.regs.len();
            let data = src_opnd(Seq::empty(), g.regs.len(), made, array_data(es.len() as usize));
            &&& all_typed(p, vars, es)
            &&& row_ok(r)
            &&& h == placed(g, r.parts, Seq::empty())
            &&& hdr == src_opnd(Seq::empty(), g.regs.len(), made, Src::Res(0))
            &&& code_at(p, vars, g, e) == (elems_at(p, vars, h, data, es, 0), hdr)
        }),
{
    reveal(typed);
    reveal(code_at);
    reveal(elems_at);
    reveal(placed_row);
    let es = e.kind->Array_0;
    code_array(g, es.len() as usize);
    reveal(array_row);
    if es.len() > 0 {
        let t = type_of(p, tenv(vars), es[0])->Ok_0;
        lemma_all_typed(p, tenv(vars), t, es, 1);
    }
}

pub proof fn sense_of_array<V, W>(
    b: Base<V, W>,
    p: ProgramV,
    vars: Seq<VarV>,
    vals: Seq<V>,
    e: ExprV,
    w: W,
)
    requires
        e.kind is Array,
    ensures
        ({
            let es = e.kind->Array_0;
            let n = es.len() as usize;
            sense(b, p, vars, vals, e, w) == match row(b, array_row(n).parts, Seq::empty(), w) {
                RowEnd::Done(res, w1) => elems_sense(
                    b,
                    p,
                    vars,
                    vals,
                    src_val(b, Seq::empty(), res, array_data(n)),
                    es,
                    0,
                    res[0],
                    w1,
                ),
                RowEnd::Halt(msg, w1) => Value::Halt(msg, w1),
                RowEnd::Stop(w1) => Value::Stop(w1),
            }
        }),
{
    reveal(sense);
    reveal(elems_sense);
}

/// An array literal has its header in the first register of its row.
pub proof fn array_is_made<V, W>(b: Base<V, W>, n: usize, w: W)
    ensures
        row(b, array_row(n).parts, Seq::empty(), w) matches RowEnd::Done(res, _) ==> res.len() > 0,
{
    reveal(row);
    reveal(array_row);
    reveal_with_fuel(row_from, 8);
}

pub proof fn parts_of_elems(
    p: ProgramV,
    vars: Seq<VarV>,
    g: Gen,
    data: OpndV,
    es: Seq<ExprV>,
    i: int,
)
    requires
        0 <= i <= es.len(),
    ensures
        i == es.len() ==> elems_at(p, vars, g, data, es, i) == g,
        i < es.len() ==> {
            let (g1, v) = code_at(p, vars, g, es[i]);
            let h = store_at(g1, data, i as usize, v);
            elems_at(p, vars, g, data, es, i) == elems_at(p, vars, h, data, es, i + 1)
        },
{
    reveal(code_at);
    reveal(elems_at);
    if i < es.len() {
        let (g1, v) = lower(p, vars, g, es[i]);
        code_store(g1, data, i as usize, v);
    }
}

pub proof fn sense_of_elems<V, W>(
    b: Base<V, W>,
    p: ProgramV,
    vars: Seq<VarV>,
    vals: Seq<V>,
    data: V,
    es: Seq<ExprV>,
    i: int,
    whole: V,
    w: W,
)
    requires
        0 <= i <= es.len(),
    ensures
        i == es.len() ==> elems_sense(b, p, vars, vals, data, es, i, whole, w) == Value::Is(
            whole,
            w,
        ),
        i < es.len() ==> elems_sense(b, p, vars, vals, data, es, i, whole, w) == match sense(
            b,
            p,
            vars,
            vals,
            es[i],
            w,
        ) {
            Value::Is(v, w1) => match row(b, store_row(i as usize), seq![data, v], w1) {
                RowEnd::Done(_, w2) => elems_sense(b, p, vars, vals, data, es, i + 1, whole, w2),
                RowEnd::Halt(msg, w2) => Value::Halt(msg, w2),
                RowEnd::Stop(w2) => Value::Stop(w2),
            },
            other => other,
        },
{
    reveal(sense);
    reveal(elems_sense);
}

pub proof fn parts_of_struct(p: ProgramV, vars: Seq<VarV>, g: Gen, e: ExprV)
    requires
        typed(p, vars, e),
        e.kind is StructLit,
    ensures
        ({
            let (name, fs) = (e.kind->StructLit_name, e.kind->StructLit_fields);
            let def = struct_named(p, name)->0;
            let r = single(IrTy::Ptr, Op::New(def.fields.len() as usize), Srcs::S0);
            let (h, obj) = placed_row(g, r, Seq::empty());
            &&& inits_typed(p, vars, fs)
            &&& row_ok(r)
            &&& code_at(p, vars, g, e) == (fields_at(p, vars, h, obj, def.fields, fs, 0), obj)
        }),
{
    reveal(typed);
    reveal(code_at);
    reveal(fields_at);
    let (name, fs) = (e.kind->StructLit_name, e.kind->StructLit_fields);
    let def = struct_named(p, name)->0;
    code_single(g, IrTy::Ptr, Op::New(def.fields.len() as usize), Srcs::S0, Seq::empty());
    reveal(single);
    lemma_inits_typed(p, tenv(vars), def, fs, 0);
}

pub proof fn sense_of_struct<V, W>(
    b: Base<V, W>,
    p: ProgramV,
    vars: Seq<VarV>,
    vals: Seq<V>,
    e: ExprV,
    w: W,
)
    requires
        e.kind is StructLit,
    ensures
        ({
            let (name, fs) = (e.kind->StructLit_name, e.kind->StructLit_fields);
            let def = struct_named(p, name)->0;
            let r = single(IrTy::Ptr, Op::New(def.fields.len() as usize), Srcs::S0);
            sense(b, p, vars, vals, e, w) == match value_of(b, r, Seq::empty(), w) {
                Value::Is(obj, w1) => fields_sense(b, p, vars, vals, obj, def.fields, fs, 0, w1),
                other => other,
            }
        }),
{
    reveal(sense);
    reveal(fields_sense);
}

pub proof fn parts_of_fields(
    p: ProgramV,
    vars: Seq<VarV>,
    g: Gen,
    obj: OpndV,
    fields: Seq<ParamV>,
    fs: Seq<FieldInitV>,
    i: int,
)
    requires
        0 <= i <= fields.len(),
    ensures
        i == fields.len() ==> fields_at(p, vars, g, obj, fields, fs, i) == g,
        i < fields.len() ==> {
            let k = init_index(fs, fields[i].name, 0);
            if 0 <= k < fs.len() {
                let (g1, v) = code_at(p, vars, g, fs[k].value);
                let h = store_at(g1, obj, i as usize, v);
                fields_at(p, vars, g, obj, fields, fs, i) == fields_at(
                    p,
                    vars,
                    h,
                    obj,
                    fields,
                    fs,
                    i + 1,
                )
            } else {
                fields_at(p, vars, g, obj, fields, fs, i) == g
            }
        },
{
    reveal(code_at);
    reveal(fields_at);
    if i < fields.len() {
        let k = init_index(fs, fields[i].name, 0);
        if 0 <= k < fs.len() {
            let (g1, v) = lower(p, vars, g, fs[k].value);
            code_store(g1, obj, i as usize, v);
        }
    }
}

pub proof fn sense_of_fields<V, W>(
    b: Base<V, W>,
    p: ProgramV,
    vars: Seq<VarV>,
    vals: Seq<V>,
    obj: V,
    fields: Seq<ParamV>,
    fs: Seq<FieldInitV>,
    i: int,
    w: W,
)
    requires
        0 <= i <= fields.len(),
    ensures
        i == fields.len() ==> fields_sense(b, p, vars, vals, obj, fields, fs, i, w) == Value::Is(
            obj,
            w,
        ),
        i < fields.len() ==> {
            let k = init_index(fs, fields[i].name, 0);
            fields_sense(b, p, vars, vals, obj, fields, fs, i, w) == if 0 <= k < fs.len() {
                match sense(b, p, vars, vals, fs[k].value, w) {
                    Value::Is(v, w1) => match row(b, store_row(i as usize), seq![obj, v], w1) {
                        RowEnd::Done(_, w2) => fields_sense(
                            b,
                            p,
                            vars,
                            vals,
                            obj,
                            fields,
                            fs,
                            i + 1,
                            w2,
                        ),
                        RowEnd::Halt(msg, w2) => Value::Halt(msg, w2),
                        RowEnd::Stop(w2) => Value::Stop(w2),
                    },
                    other => other,
                }
            } else {
                Value::Is(obj, w)
            }
        },
{
    reveal(sense);
    reveal(fields_sense);
}

pub proof fn parts_of_map(p: ProgramV, vars: Seq<VarV>, g: Gen, e: ExprV)
    requires
        typed(p, vars, e),
        e.kind is MapLit,
    ensures
        ({
            let es = e.kind->MapLit_0;
            let r = single(IrTy::Ptr, Op::Rt(Rt::MapNew), Srcs::S0);
            let (h, hdr) = placed_row(g, r, Seq::empty());
            &&& pairs_typed(p, vars, es)
            &&& row_ok(r)
            &&& code_at(p, vars, g, e) == (pairs_at(p, vars, h, hdr, es, 0), hdr)
        }),
{
    reveal(typed);
    reveal(code_at);
    reveal(pairs_at);
    let es = e.kind->MapLit_0;
    code_single(g, IrTy::Ptr, Op::Rt(Rt::MapNew), Srcs::S0, Seq::empty());
    reveal(single);
    if es.len() > 0 {
        let t = type_of(p, tenv(vars), es[0].1)->Ok_0;
        lemma_pairs_typed(p, tenv(vars), t, es, 1);
    }
}

pub proof fn sense_of_map<V, W>(
    b: Base<V, W>,
    p: ProgramV,
    vars: Seq<VarV>,
    vals: Seq<V>,
    e: ExprV,
    w: W,
)
    requires
        e.kind is MapLit,
    ensures
        ({
            let es = e.kind->MapLit_0;
            let r = single(IrTy::Ptr, Op::Rt(Rt::MapNew), Srcs::S0);
            sense(b, p, vars, vals, e, w) == match value_of(b, r, Seq::empty(), w) {
                Value::Is(m, w1) => pairs_sense(b, p, vars, vals, m, es, 0, w1),
                other => other,
            }
        }),
{
    reveal(sense);
    reveal(pairs_sense);
}

/// The code that puts a value into a map.
pub open spec fn put_at(g: Gen, hdr: OpndV, key: OpndV, v: OpndV, t: Ty) -> Gen {
    placed(g, map_put_row(t), seq![hdr, key, v])
}

pub proof fn parts_of_pairs(
    p: ProgramV,
    vars: Seq<VarV>,
    g: Gen,
    hdr: OpndV,
    es: Seq<(ExprV, ExprV)>,
    i: int,
)
    requires
        0 <= i <= es.len(),
    ensures
        i == es.len() ==> pairs_at(p, vars, g, hdr, es, i) == g,
        i < es.len() ==> {
            let (g1, k) = code_at(p, vars, g, es[i].0);
            let (g2, v) = code_at(p, vars, g1, es[i].1);
            let h = put_at(g2, hdr, k, v, type_at(p, vars, es[i].1));
            pairs_at(p, vars, g, hdr, es, i) == pairs_at(p, vars, h, hdr, es, i + 1)
        },
{
    reveal(code_at);
    reveal(pairs_at);
    reveal(type_at);
    if i < es.len() {
        let (g1, k) = lower(p, vars, g, es[i].0);
        let (g2, v) = lower(p, vars, g1, es[i].1);
        code_map_put(g2, hdr, k, v, ty_of(p, vars, es[i].1));
    }
}

pub proof fn sense_of_pairs<V, W>(
    b: Base<V, W>,
    p: ProgramV,
    vars: Seq<VarV>,
    vals: Seq<V>,
    m: V,
    es: Seq<(ExprV, ExprV)>,
    i: int,
    w: W,
)
    requires
        0 <= i <= es.len(),
    ensures
        i == es.len() ==> pairs_sense(b, p, vars, vals, m, es, i, w) == Value::Is(m, w),
        i < es.len() ==> pairs_sense(b, p, vars, vals, m, es, i, w) == match sense(
            b,
            p,
            vars,
            vals,
            es[i].0,
            w,
        ) {
            Value::Is(k, w1) => match sense(b, p, vars, vals, es[i].1, w1) {
                Value::Is(v, w2) => match row(
                    b,
                    map_put_row(type_at(p, vars, es[i].1)),
                    seq![m, k, v],
                    w2,
                ) {
                    RowEnd::Done(_, w3) => pairs_sense(b, p, vars, vals, m, es, i + 1, w3),
                    RowEnd::Halt(msg, w3) => Value::Halt(msg, w3),
                    RowEnd::Stop(w3) => Value::Stop(w3),
                },
                other => other,
            },
            other => other,
        },
{
    reveal(sense);
    reveal(pairs_sense);
    reveal(type_at);
}

pub proof fn parts_of_field(p: ProgramV, vars: Seq<VarV>, g: Gen, e: ExprV)
    requires
        typed(p, vars, e),
        e.kind is Field,
    ensures
        ({
            let x = *e.kind->Field_obj;
            let r = field_row(p, vars, e);
            let (g1, o) = code_at(p, vars, g, x);
            let g2 = null_at(g1, o);
            &&& typed(p, vars, x)
            &&& row_ok(r)
            &&& code_at(p, vars, g, e) == placed_row(g2, r, seq![o])
        }),
{
    reveal(typed);
    reveal(code_at);
    reveal(field_row);
    let x = *e.kind->Field_obj;
    let (g1, o) = lower(p, vars, g, x);
    code_null(g1, o);
    code_load(
        null_at(g1, o),
        basic_ty(ty_of(p, vars, e)),
        o,
        field_slot(p, ty_of(p, vars, x), e.kind->Field_field),
    );
}

pub proof fn sense_of_field<V, W>(
    b: Base<V, W>,
    p: ProgramV,
    vars: Seq<VarV>,
    vals: Seq<V>,
    e: ExprV,
    w: W,
)
    requires
        e.kind is Field,
    ensures
        ({
            let x = *e.kind->Field_obj;
            sense(b, p, vars, vals, e, w) == match sense(b, p, vars, vals, x, w) {
                Value::Is(o, w1) => match value_of(b, null_row(), seq![o], w1) {
                    Value::Is(_, w2) => value_of(b, field_row(p, vars, e), seq![o], w2),
                    other => other,
                },
                other => other,
            }
        }),
{
    reveal(sense);
    reveal(field_row);
}

pub proof fn parts_of_index(p: ProgramV, vars: Seq<VarV>, g: Gen, e: ExprV)
    requires
        typed(p, vars, e),
        e.kind is Index,
    ensures
        ({
            let (x, y) = (*e.kind->Index_array, *e.kind->Index_index);
            let r = index_row(type_at(p, vars, x));
            let (g1, a) = code_at(p, vars, g, x);
            let g2 = null_at(g1, a);
            let (g3, i) = code_at(p, vars, g2, y);
            &&& typed(p, vars, x)
            &&& typed(p, vars, y)
            &&& row_ok(r)
            &&& code_at(p, vars, g, e) == placed_row(g3, r, seq![a, i])
        }),
{
    reveal(typed);
    reveal(code_at);
    reveal(type_at);
    reveal(index_row);
    let (x, y) = (*e.kind->Index_array, *e.kind->Index_index);
    let (g1, a) = lower(p, vars, g, x);
    code_null(g1, a);
    let (g3, i) = lower(p, vars, null_at(g1, a), y);
    match ty_of(p, vars, x) {
        Ty::MapOf(t) => code_map_get(g3, a, i, *t),
        Ty::Str => code_byte_get(g3, a, i),
        t => code_elem_get(g3, a, i, basic_ty(elem_of(t))),
    }
}

pub proof fn sense_of_index<V, W>(
    b: Base<V, W>,
    p: ProgramV,
    vars: Seq<VarV>,
    vals: Seq<V>,
    e: ExprV,
    w: W,
)
    requires
        e.kind is Index,
    ensures
        ({
            let (x, y) = (*e.kind->Index_array, *e.kind->Index_index);
            let r = index_row(type_at(p, vars, x));
            sense(b, p, vars, vals, e, w) == match sense(b, p, vars, vals, x, w) {
                Value::Is(a, w1) => match value_of(b, null_row(), seq![a], w1) {
                    Value::Is(_, w2) => match sense(b, p, vars, vals, y, w2) {
                        Value::Is(i, w3) => value_of(b, r, seq![a, i], w3),
                        other => other,
                    },
                    other => other,
                },
                other => other,
            }
        }),
{
    reveal(sense);
    reveal(type_at);
    reveal(index_row);
}

pub proof fn parts_of_slice(p: ProgramV, vars: Seq<VarV>, g: Gen, e: ExprV)
    requires
        typed(p, vars, e),
        e.kind is Slice,
    ensures
        ({
            let (x, lo, hi) = (*e.kind->Slice_seq, e.kind->Slice_lo, e.kind->Slice_hi);
            let t = type_at(p, vars, x);
            let (g1, o) = code_at(p, vars, g, x);
            let g2 = null_at(g1, o);
            let (g3, len) = placed_row(g2, length_row(t), seq![o]);
            let (g4, l) = bound_at(p, vars, g3, lo, OpndV::Int(0));
            let (g5, h) = bound_at(p, vars, g4, hi, len);
            &&& typed(p, vars, x)
            &&& bound_typed(p, vars, lo)
            &&& bound_typed(p, vars, hi)
            &&& row_ok(length_row(t))
            &&& row_ok(slice_row(t))
            &&& code_at(p, vars, g, e) == placed_row(g5, slice_row(t), seq![o, l, h, len])
        }),
{
    reveal(typed);
    reveal(bound_typed);
    reveal(code_at);
    reveal(bound_at);
    reveal(type_at);
    let (x, lo, hi) = (*e.kind->Slice_seq, e.kind->Slice_lo, e.kind->Slice_hi);
    let t = ty_of(p, vars, x);
    let (g1, o) = lower(p, vars, g, x);
    code_null(g1, o);
    code_length(null_at(g1, o), o, t);
    let (g3, len) = length(null_at(g1, o), o, t);
    let (g4, l) = lower_bound(p, vars, g3, lo, OpndV::Int(0));
    let (g5, h) = lower_bound(p, vars, g4, hi, len);
    code_slice(g5, o, l, h, len, t);
}

pub proof fn sense_of_slice<V, W>(
    b: Base<V, W>,
    p: ProgramV,
    vars: Seq<VarV>,
    vals: Seq<V>,
    e: ExprV,
    w: W,
)
    requires
        e.kind is Slice,
    ensures
        ({
            let (x, lo, hi) = (*e.kind->Slice_seq, e.kind->Slice_lo, e.kind->Slice_hi);
            let t = type_at(p, vars, x);
            let zero = (b.konst)(OpndV::Int(0));
            sense(b, p, vars, vals, e, w) == match sense(b, p, vars, vals, x, w) {
                Value::Is(o, w1) => match value_of(b, null_row(), seq![o], w1) {
                    Value::Is(_, w2) => match value_of(b, length_row(t), seq![o], w2) {
                        Value::Is(len, w3) => match bound_sense(b, p, vars, vals, lo, zero, w3) {
                            Value::Is(l, w4) => match bound_sense(b, p, vars, vals, hi, len, w4) {
                                Value::Is(h, w5) => value_of(
                                    b,
                                    slice_row(t),
                                    seq![o, l, h, len],
                                    w5,
                                ),
                                other => other,
                            },
                            other => other,
                        },
                        other => other,
                    },
                    other => other,
                },
                other => other,
            }
        }),
{
    reveal(sense);
    reveal(bound_sense);
    reveal(type_at);
}

pub proof fn parts_of_bound(p: ProgramV, vars: Seq<VarV>, g: Gen, e: Option<Box<ExprV>>, other: OpndV)
    requires
        bound_typed(p, vars, e),
    ensures
        match e {
            Some(x) => typed(p, vars, *x) && bound_at(p, vars, g, e, other) == code_at(
                p,
                vars,
                g,
                *x,
            ),
            None => bound_at(p, vars, g, e, other) == (g, other),
        },
{
    reveal(typed);
    reveal(bound_typed);
    reveal(bound_at);
    reveal(code_at);
}

pub proof fn sense_of_bound<V, W>(
    b: Base<V, W>,
    p: ProgramV,
    vars: Seq<VarV>,
    vals: Seq<V>,
    e: Option<Box<ExprV>>,
    other: V,
    w: W,
)
    ensures
        match e {
            Some(x) => bound_sense(b, p, vars, vals, e, other, w) == sense(
                b,
                p,
                vars,
                vals,
                *x,
                w,
            ),
            None => bound_sense(b, p, vars, vals, e, other, w) == Value::Is(other, w),
        },
{
    reveal(bound_sense);
    reveal(sense);
}

pub proof fn parts_of_list(
    p: ProgramV,
    vars: Seq<VarV>,
    g: Gen,
    es: Seq<ExprV>,
    i: int,
    acc: Seq<OpndV>,
)
    requires
        0 <= i <= es.len(),
    ensures
        i == es.len() ==> list_at(p, vars, g, es, i, acc) == (g, acc),
        i < es.len() ==> {
            let (g1, v) = code_at(p, vars, g, es[i]);
            list_at(p, vars, g, es, i, acc) == list_at(p, vars, g1, es, i + 1, acc.push(v))
        },
{
    reveal(code_at);
    reveal(list_at);
}

pub proof fn sense_of_list<V, W>(
    b: Base<V, W>,
    p: ProgramV,
    vars: Seq<VarV>,
    vals: Seq<V>,
    es: Seq<ExprV>,
    i: int,
    acc: Seq<V>,
    w: W,
)
    requires
        0 <= i <= es.len(),
    ensures
        i == es.len() ==> list_sense(b, p, vars, vals, es, i, acc, w) == Values::Are(acc, w),
        i < es.len() ==> list_sense(b, p, vars, vals, es, i, acc, w) == match sense(
            b,
            p,
            vars,
            vals,
            es[i],
            w,
        ) {
            Value::Is(v, w1) => list_sense(b, p, vars, vals, es, i + 1, acc.push(v), w1),
            Value::Halt(msg, w1) => Values::Halt(msg, w1),
            Value::Stop(w1) => Values::Stop(w1),
        },
{
    reveal(sense);
    reveal(list_sense);
}

pub proof fn parts_of_call(p: ProgramV, vars: Seq<VarV>, g: Gen, e: ExprV)
    requires
        typed(p, vars, e),
        e.kind is Call,
    ensures
        ({
            let (name, args) = (e.kind->Call_name, e.kind->Call_args);
            &&& call_typed(p, vars, name, args)
            &&& code_at(p, vars, g, e) == call_at(p, vars, g, name, args)
        }),
{
    reveal(typed);
    reveal(call_typed);
    reveal(code_at);
    reveal(call_at);
    assert(typing::call_type(p, tenv(vars), e.kind->Call_name, e.kind->Call_args, e.span) is Ok);
}

pub proof fn sense_of_call<V, W>(
    b: Base<V, W>,
    p: ProgramV,
    vars: Seq<VarV>,
    vals: Seq<V>,
    e: ExprV,
    w: W,
)
    requires
        e.kind is Call,
    ensures
        sense(b, p, vars, vals, e, w) == call_sense(
            b,
            p,
            vars,
            vals,
            e.kind->Call_name,
            e.kind->Call_args,
            w,
        ),
{
    reveal(sense);
    reveal(call_sense);
}

/// The arguments of an accepted call are accepted, and a built-in function is given as many
/// values as it works on.
pub proof fn call_is_typed(p: ProgramV, vars: Seq<VarV>, name: Seq<char>, args: Seq<ExprV>)
    requires
        call_typed(p, vars, name, args),
    ensures
        all_typed(p, vars, args),
        builtin_named(name) matches Some(f) ==> {
            &&& checks_first(f) ==> args.len() == 2
            &&& f == Builtin::ReadLine ==> args.len() == 0
            &&& f != Builtin::ReadLine && !checks_first(f) && plain_rt(f) is None ==> args.len()
                == needs(f)
        },
{
    reveal(typed);
    reveal(call_typed);
    let span = choose|span: Span| typing::call_type(p, tenv(vars), name, args, span) is Ok;
    lemma_call_typed(p, tenv(vars), name, args, span);
}

/// A built-in function whose first argument is checked before the second is evaluated.
pub proof fn parts_of_checked(
    p: ProgramV,
    vars: Seq<VarV>,
    g: Gen,
    name: Seq<char>,
    args: Seq<ExprV>,
    f: Builtin,
)
    requires
        builtin_named(name) == Some(f),
        checks_first(f),
        args.len() == 2,
    ensures
        ({
            let (g1, x) = code_at(p, vars, g, args[0]);
            let g2 = null_at(g1, x);
            let (g3, y) = code_at(p, vars, g2, args[1]);
            if f == Builtin::Push {
                call_at(p, vars, g, name, args) == push_value(g3, x, y)
            } else {
                &&& row_ok(second_row(f))
                &&& call_at(p, vars, g, name, args) == placed_row(g3, second_row(f), seq![x, y])
            }
        }),
{
    reveal(code_at);
    reveal(call_at);
    let (g1, x) = lower(p, vars, g, args[0]);
    code_null(g1, x);
    let (g3, y) = lower(p, vars, null_at(g1, x), args[1]);
    if f != Builtin::Push {
        code_second(g3, f, x, y);
    }
}

pub proof fn sense_of_checked<V, W>(
    b: Base<V, W>,
    p: ProgramV,
    vars: Seq<VarV>,
    vals: Seq<V>,
    name: Seq<char>,
    args: Seq<ExprV>,
    f: Builtin,
    w: W,
)
    requires
        builtin_named(name) == Some(f),
        checks_first(f),
        args.len() == 2,
    ensures
        call_sense(b, p, vars, vals, name, args, w) == match sense(b, p, vars, vals, args[0], w) {
            Value::Is(x, w1) => match value_of(b, null_row(), seq![x], w1) {
                Value::Is(_, w2) => match sense(b, p, vars, vals, args[1], w2) {
                    Value::Is(y, w3) => if f == Builtin::Push {
                        pushed(b, x, y, w3)
                    } else {
                        value_of(b, second_row(f), seq![x, y], w3)
                    },
                    other => other,
                },
                other => other,
            },
            other => other,
        },
{
    reveal(sense);
    reveal(call_sense);
}

/// A built-in function whose arguments are evaluated one after the other.
pub proof fn parts_of_plain(
    p: ProgramV,
    vars: Seq<VarV>,
    g: Gen,
    name: Seq<char>,
    args: Seq<ExprV>,
    f: Builtin,
)
    requires
        builtin_named(name) == Some(f),
        !checks_first(f),
        call_typed(p, vars, name, args),
        list_at(p, vars, g, args, 0, Seq::empty()).1.len() == args.len(),
    ensures
        ({
            let (g1, os) = list_at(p, vars, g, args, 0, Seq::empty());
            let r = builtin_row(f, first_type(p, vars, args));
            if f == Builtin::ReadLine {
                call_at(p, vars, g, name, args) == read_line(g1)
            } else {
                &&& row_ok(r)
                &&& call_at(p, vars, g, name, args) == placed_row(g1, r, os)
            }
        }),
{
    call_is_typed(p, vars, name, args);
    reveal(list_at);
    reveal(call_at);
    reveal(first_type);
    let (g1, os) = lower_list(p, vars, g, args, 0, Seq::empty());
    if f != Builtin::ReadLine {
        code_builtin(g1, f, os, first_type(p, vars, args));
    }
}

pub proof fn sense_of_plain<V, W>(
    b: Base<V, W>,
    p: ProgramV,
    vars: Seq<VarV>,
    vals: Seq<V>,
    name: Seq<char>,
    args: Seq<ExprV>,
    f: Builtin,
    w: W,
)
    requires
        builtin_named(name) == Some(f),
        !checks_first(f),
    ensures
        call_sense(b, p, vars, vals, name, args, w) == match list_sense(
            b,
            p,
            vars,
            vals,
            args,
            0,
            Seq::empty(),
            w,
        ) {
            Values::Are(vs, w1) => if f == Builtin::ReadLine {
                line(b, w1)
            } else {
                value_of(b, builtin_row(f, first_type(p, vars, args)), vs, w1)
            },
            Values::Halt(msg, w1) => Value::Halt(msg, w1),
            Values::Stop(w1) => Value::Stop(w1),
        },
{
    reveal(list_sense);
    reveal(call_sense);
    reveal(first_type);
}

/// A variant or a function of the program.
pub proof fn parts_of_own(p: ProgramV, vars: Seq<VarV>, g: Gen, name: Seq<char>, args: Seq<ExprV>)
    requires
        builtin_named(name) is None,
    ensures
        ({
            let (g1, os) = list_at(p, vars, g, args, 0, Seq::empty());
            let k = func_index(p, name, 0);
            call_at(p, vars, g, name, args) == if variant_named(p, name) is Some {
                build_variant(p, g1, name, os)
            } else {
                call_func(g1, k as nat, basic_ty(resolve(p, p.funcs[k].ret)), os)
            }
        }),
{
    reveal(list_at);
    reveal(call_at);
}

pub proof fn sense_of_own<V, W>(
    b: Base<V, W>,
    p: ProgramV,
    vars: Seq<VarV>,
    vals: Seq<V>,
    name: Seq<char>,
    args: Seq<ExprV>,
    w: W,
)
    requires
        builtin_named(name) is None,
    ensures
        call_sense(b, p, vars, vals, name, args, w) == match list_sense(
            b,
            p,
            vars,
            vals,
            args,
            0,
            Seq::empty(),
            w,
        ) {
            Values::Are(vs, w1) => if variant_named(p, name) is Some {
                variant(b, p, name, vs, w1)
            } else {
                match (b.call)(func_index(p, name, 0) as nat, vs, w1) {
                    Done::Go(v, w2) => Value::Is(v, w2),
                    Done::Stop(w2) => Value::Stop(w2),
                }
            },
            Values::Halt(msg, w1) => Value::Halt(msg, w1),
            Values::Stop(w1) => Value::Stop(w1),
        },
{
    reveal(list_sense);
    reveal(call_sense);
}

} // verus!
