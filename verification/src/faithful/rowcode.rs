//! The code of the rows that [`crate::meaning`] speaks of.
use crate::ast::{BinOp, UnOp};
use crate::builtins::Builtin;
use crate::ir::{IrTy, Op, Pred, Rt};
use vstd::prelude::*;
#[allow(unused_imports)]
use crate::faithful::machine::{
    parts_ok, place, place_part, placed, placed_row, src_ok, src_opnd, src_opnds,
};
#[allow(unused_imports)]
use crate::ir::{basic_ty, OpndV};
#[allow(unused_imports)]
use crate::lowering::{
    absolute, arith, builtin, builtin_checked, byte_text, convert, elem_addr, elem_of, elem_slot,
    emit, extremum, from_slot, length, load_slot, null_check, plain_rt, pop_value, pred_of, prefix,
    print_value, put, put_entry, ref_compare, require3, slice, sort_fn, store, store_slot,
    str_arith, substr, to_slot, to_text, Gen,
};
#[allow(unused_imports)]
use crate::meaning::{
    absolute_row, append_row, array_data, array_row, bool_row, builtin_row, byte_get_row,
    checked_row, chomp_row, chr_row, contains_row, convert_row, elem_get_row, elem_set_row,
    extremum_row, from_slot_parts, grow_row, infix_row, item_row, length_row, line_row, load_row,
    map_get_row, map_put_row, null_row, place_parts, pop_row, prefix_row, print_row, refs_row,
    replace_row, room_row, same, second_row, single, slice_row, store_row, substr_row, text_row,
    variant_row, Part, Row, Src, Srcs,
};
#[allow(unused_imports)]
use crate::types::Ty;

verus! {

/// A row whose constants are no registers and whose operations are none on variables.
pub open spec fn row_ok(r: Row) -> bool {
    parts_ok(r.parts) && src_ok(r.out)
}

pub proof fn code_single(g: Gen, ty: IrTy, op: Op, args: Srcs, ins: Seq<OpndV>)
    ensures
        emit(g, ty, op, src_opnds(ins, g.regs.len(), 0, args)) == placed_row(
            g,
            single(ty, op, args),
            ins,
        ),
{
    reveal(single);
    reveal(placed);
    reveal(placed_row);
    reveal_with_fuel(place, 2);
}

pub proof fn code_null(g: Gen, v: OpndV)
    ensures
        null_check(g, v) == placed(g, null_row().parts, seq![v]),
        placed_row(g, null_row(), seq![v]).1 == v,
        row_ok(null_row()),
{
    reveal(null_row);
    reveal(placed);
    reveal(placed_row);
    reveal_with_fuel(place, 3);
}

pub proof fn code_prefix(g: Gen, op: UnOp, v: OpndV, t: Ty)
    ensures
        prefix(g, op, v, t) == placed_row(g, prefix_row(op, t), seq![v]),
        row_ok(prefix_row(op, t)),
{
    reveal(prefix_row);
    reveal(single);
    reveal(placed);
    reveal(placed_row);
    reveal_with_fuel(place, 2);
}

pub proof fn code_infix(g: Gen, op: BinOp, l: OpndV, r: OpndV, t: Ty)
    ensures
        arith(g, op, l, r, t) == placed_row(g, infix_row(op, t), seq![l, r]),
        row_ok(infix_row(op, t)),
{
    reveal(infix_row);
    reveal(single);
    reveal(placed);
    reveal(placed_row);
    reveal_with_fuel(place, 8);
}

pub proof fn code_refs(g: Gen, op: BinOp, l: OpndV, r: OpndV)
    ensures
        ref_compare(g, op, l, r) == placed_row(g, refs_row(op), seq![l, r]),
        row_ok(refs_row(op)),
{
    reveal(refs_row);
    reveal(placed);
    reveal(placed_row);
    reveal_with_fuel(place, 4);
}

pub proof fn code_length(g: Gen, v: OpndV, t: Ty)
    ensures
        length(g, v, t) == placed_row(g, length_row(t), seq![v]),
        row_ok(length_row(t)),
{
    reveal(length_row);
    reveal(single);
    reveal(placed);
    reveal(placed_row);
    reveal_with_fuel(place, 2);
}

proof fn code_convert(g: Gen, to_int: bool, v: OpndV, t: Ty)
    ensures
        convert(g, to_int, v, t) == placed_row(g, convert_row(to_int, t), seq![v]),
        row_ok(convert_row(to_int, t)),
{
    reveal(single);
    reveal(placed);
    reveal(placed_row);
    reveal_with_fuel(place, 2);
}

proof fn code_absolute(g: Gen, v: OpndV, t: Ty)
    ensures
        absolute(g, v, t) == placed_row(g, absolute_row(t), seq![v]),
        row_ok(absolute_row(t)),
{
    reveal(single);
    reveal(placed);
    reveal(placed_row);
    reveal_with_fuel(place, 4);
}

proof fn code_extremum(g: Gen, min: bool, x: OpndV, y: OpndV, t: Ty)
    ensures
        extremum(g, min, x, y, t) == placed_row(g, extremum_row(min, t), seq![x, y]),
        row_ok(extremum_row(min, t)),
{
    reveal(single);
    reveal(placed);
    reveal(placed_row);
    reveal_with_fuel(place, 3);
}

proof fn code_text(g: Gen, v: OpndV, t: Ty)
    ensures
        to_text(g, v, t) == placed_row(g, text_row(t), seq![v]),
        row_ok(text_row(t)),
{
    reveal(single);
    reveal(placed);
    reveal(placed_row);
    reveal_with_fuel(place, 3);
}

proof fn code_chr(g: Gen, v: OpndV)
    ensures
        byte_text(g, v) == placed_row(g, chr_row(), seq![v]),
        row_ok(chr_row()),
{
    reveal(placed);
    reveal(placed_row);
    reveal_with_fuel(place, 5);
}

proof fn code_substr(g: Gen, s: OpndV, start: OpndV, count: OpndV)
    ensures
        substr(g, s, start, count) == placed_row(g, substr_row(), seq![s, start, count]),
        row_ok(substr_row()),
{
    reveal(placed);
    reveal(placed_row);
    reveal_with_fuel(place, 10);
}

proof fn code_pop(g: Gen, hdr: OpndV, t: Ty)
    ensures
        pop_value(g, hdr, t) == placed_row(g, pop_row(t), seq![hdr]),
        row_ok(pop_row(t)),
{
    reveal(placed);
    reveal(placed_row);
    reveal_with_fuel(place, 13);
}

/// How many values a built-in function works on.
pub open spec fn needs(f: Builtin) -> nat {
    match f {
        Builtin::Min | Builtin::Max | Builtin::Contains => 2,
        Builtin::Substr | Builtin::Replace => 3,
        _ => 1,
    }
}

pub proof fn code_builtin(g: Gen, f: Builtin, vs: Seq<OpndV>, t: Ty)
    requires
        plain_rt(f) is None ==> vs.len() == needs(f),
        f != Builtin::ReadLine,
    ensures
        builtin(g, f, vs, t) == placed_row(g, builtin_row(f, t), vs),
        row_ok(builtin_row(f, t)),
{
    reveal(builtin_row);
    reveal(length_row);
    reveal(single);
    reveal(placed);
    reveal(placed_row);
    match plain_rt(f) {
        Some((rt, ty, more)) => {
            reveal_with_fuel(place, 2);
        },
        None => {
            if needs(f) == 1 {
                assert(vs =~= seq![vs[0]]);
            } else if needs(f) == 2 {
                assert(vs =~= seq![vs[0], vs[1]]);
            } else {
                assert(vs =~= seq![vs[0], vs[1], vs[2]]);
            }
            assert(vs + Seq::<OpndV>::empty() =~= vs);
            if f == Builtin::Int {
                code_convert(g, true, vs[0], t);
            } else if f == Builtin::Float {
                code_convert(g, false, vs[0], t);
            } else if f == Builtin::Abs {
                code_absolute(g, vs[0], t);
            } else if f == Builtin::Min {
                code_extremum(g, true, vs[0], vs[1], t);
            } else if f == Builtin::Max {
                code_extremum(g, false, vs[0], vs[1], t);
            } else if f == Builtin::Len {
                code_length(g, vs[0], t);
            } else if f == Builtin::Str {
                code_text(g, vs[0], t);
            } else if f == Builtin::Chr {
                code_chr(g, vs[0]);
            } else if f == Builtin::Substr {
                code_substr(g, vs[0], vs[1], vs[2]);
            } else if f == Builtin::Pop {
                code_pop(g, vs[0], elem_of(t));
            } else {
                reveal_with_fuel(place, 4);
            }
        },
    }
}

pub proof fn code_second(g: Gen, f: Builtin, x: OpndV, y: OpndV)
    requires
        f != Builtin::Push,
    ensures
        builtin_checked(g, f, x, y) == placed_row(g, second_row(f), seq![x, y]),
        row_ok(second_row(f)),
{
    reveal(second_row);
    reveal(single);
    reveal(placed);
    reveal(placed_row);
    reveal_with_fuel(place, 3);
}

pub proof fn code_store(g: Gen, p: OpndV, i: usize, v: OpndV)
    ensures
        store_slot(g, p, i, v) == placed(g, store_row(i), seq![p, v]),
        parts_ok(store_row(i)),
{
    reveal(store_row);
    reveal(placed);
    reveal(placed_row);
    reveal_with_fuel(place, 3);
}

pub proof fn code_load(g: Gen, ty: IrTy, p: OpndV, i: usize)
    ensures
        load_slot(g, ty, p, i) == placed_row(g, load_row(ty, i), seq![p]),
        row_ok(load_row(ty, i)),
{
    reveal(load_row);
    reveal(placed);
    reveal(placed_row);
    reveal_with_fuel(place, 3);
}

pub proof fn code_variant(g: Gen, n: usize, k: usize)
    ensures
        ({
            let (g1, obj) = emit(g, IrTy::Ptr, Op::NewTagged(n), Seq::empty());
            (store(g1, obj, OpndV::Size(k)), obj)
        }) == placed_row(g, variant_row(n, k), Seq::empty()),
        row_ok(variant_row(n, k)),
{
    reveal(variant_row);
    reveal(placed);
    reveal(placed_row);
    reveal_with_fuel(place, 3);
}

/// An array literal before its elements: the code, the array and its data.
pub open spec fn array_start(g: Gen, n: usize) -> (Gen, OpndV, OpndV) {
    let (g1, hdr) = emit(g, IrTy::Ptr, Op::New(3), Seq::empty());
    let (g2, data) = if n == 0 {
        (g1, OpndV::Null)
    } else {
        emit(g1, IrTy::Ptr, Op::New(n), Seq::empty())
    };
    let g3 = store(g2, hdr, OpndV::Size(n));
    let g4 = store_slot(g3, hdr, 1, OpndV::Size(n));
    (store_slot(g4, hdr, 2, data), hdr, data)
}

pub proof fn code_array(g: Gen, n: usize)
    ensures
        array_start(g, n).0 == placed(g, array_row(n).parts, Seq::empty()),
        array_start(g, n).1 == placed_row(g, array_row(n), Seq::empty()).1,
        ({
            let h = array_start(g, n).0;
            array_start(g, n).2 == src_opnd(
                Seq::empty(),
                g.regs.len(),
                h.regs.len() - g.regs.len(),
                array_data(n),
            )
        }),
        row_ok(array_row(n)),
{
    reveal(array_row);
    reveal(placed);
    reveal(placed_row);
    reveal_with_fuel(place, 8);
}

pub proof fn code_map_get(g: Gen, a: OpndV, key: OpndV, t: Ty)
    ensures
        ({
            let (g1, h) = emit(g, IrTy::I64, Op::Rt(Rt::StrHash), seq![key]);
            let (g2, raw) = emit(g1, IrTy::I64, Op::Rt(Rt::MapGet), seq![a, key, h]);
            from_slot(g2, raw, t)
        }) == placed_row(g, map_get_row(t), seq![a, key]),
        row_ok(map_get_row(t)),
{
    reveal(map_get_row);
    reveal(placed);
    reveal(placed_row);
    reveal_with_fuel(place, 4);
}

pub proof fn code_byte_get(g: Gen, a: OpndV, i: OpndV)
    ensures
        ({
            let (g1, len) = emit(g, IrTy::I64, Op::Rt(Rt::StrLen), seq![a]);
            let g2 = crate::lowering::bounds_check(g1, i, len);
            let (g3, at) = emit(g2, IrTy::Ptr, Op::Offset, seq![a, i]);
            emit(g3, IrTy::I64, Op::LoadByte, seq![at])
        }) == placed_row(g, byte_get_row(), seq![a, i]),
        row_ok(byte_get_row()),
{
    reveal(byte_get_row);
    reveal(placed);
    reveal(placed_row);
    reveal_with_fuel(place, 6);
}

pub proof fn code_elem_get(g: Gen, a: OpndV, i: OpndV, ty: IrTy)
    ensures
        ({
            let (g1, at) = elem_addr(g, a, i);
            emit(g1, ty, Op::Load(ty), seq![at])
        }) == placed_row(g, elem_get_row(ty), seq![a, i]),
        row_ok(elem_get_row(ty)),
{
    reveal(elem_get_row);
    reveal(placed);
    reveal(placed_row);
    reveal_with_fuel(place, 9);
}

pub proof fn code_elem_set(g: Gen, a: OpndV, i: OpndV, v: OpndV)
    ensures
        ({
            let (g1, at) = elem_addr(g, a, i);
            store(g1, at, v)
        }) == placed(g, elem_set_row(), seq![a, i, v]),
        parts_ok(elem_set_row()),
{
    reveal(elem_set_row);
    reveal(placed);
    reveal(placed_row);
    reveal_with_fuel(place, 9);
}

pub proof fn code_slice(g: Gen, s: OpndV, l: OpndV, h: OpndV, len: OpndV, t: Ty)
    ensures
        slice(g, s, l, h, len, t) == placed_row(g, slice_row(t), seq![s, l, h, len]),
        row_ok(slice_row(t)),
{
    reveal(slice_row);
    reveal(placed);
    reveal(placed_row);
    reveal_with_fuel(place, 9);
}

pub proof fn code_map_put(g: Gen, hdr: OpndV, key: OpndV, v: OpndV, t: Ty)
    ensures
        put_entry(g, hdr, key, v, t) == placed(g, map_put_row(t), seq![hdr, key, v]),
        parts_ok(map_put_row(t)),
{
    reveal(map_put_row);
    reveal(placed);
    reveal(placed_row);
    reveal_with_fuel(place, 4);
}

pub proof fn code_print(g: Gen, v: OpndV, t: Ty)
    ensures
        print_value(g, v, t) == placed(g, print_row(t), seq![v]),
        parts_ok(print_row(t)),
{
    reveal(print_row);
    reveal(single);
    reveal(placed);
    reveal(placed_row);
    reveal_with_fuel(place, 3);
}

pub proof fn code_item(g: Gen, arr: OpndV, i: OpndV, ty: IrTy)
    ensures
        ({
            let (g0, data) = load_slot(g, IrTy::Ptr, arr, 2);
            let (g1, at) = elem_slot(g0, data, i);
            emit(g1, ty, Op::Load(ty), seq![at])
        }) == placed_row(g, item_row(ty), seq![arr, i]),
        row_ok(item_row(ty)),
{
    reveal(item_row);
    reveal(placed);
    reveal(placed_row);
    reveal_with_fuel(place, 6);
}

/// The start of `read_line()`: the code, the room, the line, and whether there is none.
pub open spec fn line_start(g: Gen) -> (Gen, OpndV, OpndV, OpndV) {
    let (g1, buf) = emit(g, IrTy::Ptr, Op::Rt(Rt::Alloc), seq![OpndV::Int(4096)]);
    let (g2, line) = emit(g1, IrTy::Ptr, Op::Rt(Rt::Fgets), seq![buf, OpndV::Int(4096)]);
    let (g3, end) = emit(g2, IrTy::I1, Op::IsNull, seq![line]);
    (g3, buf, line, end)
}

pub proof fn code_line(g: Gen)
    ensures
        line_start(g).0 == placed(g, line_row(), Seq::empty()),
        parts_ok(line_row()),
{
    reveal(line_row);
    reveal(placed);
    reveal(placed_row);
    reveal_with_fuel(place, 4);
}

/// Takes the line feed off what is in `buf`.
pub open spec fn chomp(g: Gen, buf: OpndV) -> Gen {
    let (s1, pos) = emit(g, IrTy::I64, Op::Rt(Rt::NewlinePos), seq![buf]);
    let (s2, at) = emit(s1, IrTy::Ptr, Op::Offset, seq![buf, pos]);
    put(s2, IrTy::I64, Op::StoreByte, seq![at, OpndV::Int(0)])
}

pub proof fn code_chomp(g: Gen, buf: OpndV)
    ensures
        chomp(g, buf) == placed(g, chomp_row(), seq![buf]),
        parts_ok(chomp_row()),
{
    reveal(chomp_row);
    reveal(placed);
    reveal(placed_row);
    reveal_with_fuel(place, 4);
}

/// The start of `push(a, x)`: the code, the length, the room, and whether that is enough.
pub open spec fn room(g: Gen, hdr: OpndV) -> (Gen, OpndV, OpndV, OpndV) {
    let (g1, len) = emit(g, IrTy::I64, Op::Load(IrTy::I64), seq![hdr]);
    let (g2, cap) = load_slot(g1, IrTy::I64, hdr, 1);
    let (g3, enough) = emit(g2, IrTy::I1, Op::ICmp(Pred::Lt), seq![len, cap]);
    (g3, len, cap, enough)
}

pub proof fn code_room(g: Gen, hdr: OpndV)
    ensures
        room(g, hdr).0 == placed(g, room_row(), seq![hdr]),
        parts_ok(room_row()),
{
    reveal(room_row);
    reveal(placed);
    reveal(placed_row);
    reveal_with_fuel(place, 5);
}

/// Makes more room for an array.
pub open spec fn grow(g: Gen, hdr: OpndV, cap: OpndV) -> Gen {
    let (s1, old) = load_slot(g, IrTy::Ptr, hdr, 2);
    let (s2, none) = emit(s1, IrTy::I1, Op::ICmp(Pred::Eq), seq![cap, OpndV::Int(0)]);
    let (s3, twice) = emit(s2, IrTy::I64, Op::Mul, seq![cap, OpndV::Int(2)]);
    let (s4, room) = emit(s3, IrTy::I64, Op::Select, seq![none, OpndV::Int(4), twice]);
    let (s5, size) = emit(s4, IrTy::I64, Op::Mul, seq![room, OpndV::Int(8)]);
    let (s6, data) = emit(s5, IrTy::Ptr, Op::Rt(Rt::Realloc), seq![old, size]);
    let s7 = store_slot(s6, hdr, 2, data);
    store_slot(s7, hdr, 1, room)
}

pub proof fn code_grow(g: Gen, hdr: OpndV, cap: OpndV)
    ensures
        grow(g, hdr, cap) == placed(g, grow_row(), seq![hdr, cap]),
        parts_ok(grow_row()),
{
    reveal(grow_row);
    reveal(placed);
    reveal(placed_row);
    reveal_with_fuel(place, 12);
}

/// The end of `push(a, x)`.
pub open spec fn append(g: Gen, hdr: OpndV, v: OpndV, len: OpndV) -> Gen {
    let (g5, data2) = load_slot(g, IrTy::Ptr, hdr, 2);
    let (g6, at) = elem_slot(g5, data2, len);
    let g7 = store(g6, at, v);
    let (g8, more) = emit(g7, IrTy::I64, Op::Add, seq![len, OpndV::Int(1)]);
    store(g8, hdr, more)
}

pub proof fn code_append(g: Gen, hdr: OpndV, v: OpndV, len: OpndV)
    ensures
        append(g, hdr, v, len) == placed(g, append_row(), seq![hdr, v, len]),
        parts_ok(append_row()),
{
    reveal(append_row);
    reveal(placed);
    reveal(placed_row);
    reveal_with_fuel(place, 8);
}

} // verus!
