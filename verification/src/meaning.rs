//! What a program means.
//!
//! A program is carried out on values and a world of which only the primitive operations
//! are known: the instructions of [`crate::ir`], but for variables, which are kept here.
//! Variables are a row with the innermost last; a block leaves behind none of its own. What
//! comes of an expression, a statement or a function is said in the order in which its
//! parts are evaluated, with the checks in between and the message that a failed check
//! ends the program with.
use crate::ast::{BinOp, UnOp};
use crate::builtins::Builtin;
use crate::ir::{IrTy, Op, Pred, Rt};
use vstd::prelude::*;
#[allow(unused_imports)]
use crate::ast::{
    EnumDefV, ExprKindV, ExprV, FieldInitV, FunctionV, MatchArmV, ParamV, ProgramV, StmtKindV,
    StmtV,
};
#[allow(unused_imports)]
use crate::builtins::builtin_named;
#[allow(unused_imports)]
use crate::flow::tag_index;
#[allow(unused_imports)]
use crate::ir::{basic_ty, OpndV};
#[allow(unused_imports)]
use crate::lowering::{
    checks_first, elem_of, field_slot, float_op, init_index, int_op, max_arity, plain_rt,
    pred_of, sort_fn, zero_of,
};
#[allow(unused_imports)]
use crate::types::Ty;
#[allow(unused_imports)]
use crate::typing::{
    func_index, item_type, let_type, resolve, scrut_enum, struct_named, type_of, variant_home,
    variant_index, variant_named,
};

verus! {

/// What comes of an operation: a value and the world after it, or the end of the program.
pub ghost enum Done<V, W> {
    Go(V, W),
    Stop(W),
}

/// The primitive operations.
#[verifier::reject_recursive_types(V)]
#[verifier::reject_recursive_types(W)]
pub ghost struct Base<V, W> {
    /// What an instruction does.
    pub op: spec_fn(Op, Seq<V>, W) -> Done<V, W>,
    /// What a call of a function of the program does.
    pub call: spec_fn(nat, Seq<V>, W) -> Done<V, W>,
    /// The value of a constant.
    pub konst: spec_fn(OpndV) -> V,
    /// Whether a value counts as true.
    pub truth: spec_fn(V) -> bool,
    /// The number that a value is.
    pub number: spec_fn(V) -> int,
}

// Straight rows of operations.

/// A value that an operation works on: one that the row was given, what came of an earlier
/// operation of the row, or a constant. Where there is no such value, it is null.
pub ghost enum Src {
    In(nat),
    Res(nat),
    Konst(OpndV),
}

/// The values that an operation works on.
pub ghost enum Srcs {
    S0,
    S1(Src),
    S2(Src, Src),
    S3(Src, Src, Src),
    S4(Src, Src, Src, Src),
    /// All that the row was given, and then these constants.
    All(Seq<OpndV>),
}

/// A part of a row: an operation, or a check that ends the program with a message.
pub ghost enum Part {
    Do(IrTy, Op, Srcs),
    StopIf(Src, Seq<char>),
    StopUnless(Src, Seq<char>),
}

/// What comes of a row: what came of its operations.
pub ghost enum RowEnd<V, W> {
    Done(Seq<V>, W),
    Halt(Seq<char>, W),
    Stop(W),
}

pub open spec fn src_val<V, W>(b: Base<V, W>, ins: Seq<V>, res: Seq<V>, s: Src) -> V {
    match s {
        Src::In(i) => if i < ins.len() {
            ins[i as int]
        } else {
            (b.konst)(OpndV::Null)
        },
        Src::Res(i) => if i < res.len() {
            res[i as int]
        } else {
            (b.konst)(OpndV::Null)
        },
        Src::Konst(c) => (b.konst)(c),
    }
}

pub open spec fn konsts<V, W>(b: Base<V, W>, cs: Seq<OpndV>) -> Seq<V> {
    Seq::new(cs.len(), |i: int| (b.konst)(cs[i]))
}

pub open spec fn src_vals<V, W>(b: Base<V, W>, ins: Seq<V>, res: Seq<V>, ss: Srcs) -> Seq<V> {
    match ss {
        Srcs::S0 => Seq::empty(),
        Srcs::S1(x) => seq![src_val(b, ins, res, x)],
        Srcs::S2(x, y) => seq![src_val(b, ins, res, x), src_val(b, ins, res, y)],
        Srcs::S3(x, y, z) => seq![
            src_val(b, ins, res, x),
            src_val(b, ins, res, y),
            src_val(b, ins, res, z),
        ],
        Srcs::S4(x, y, z, u) => seq![
            src_val(b, ins, res, x),
            src_val(b, ins, res, y),
            src_val(b, ins, res, z),
            src_val(b, ins, res, u),
        ],
        Srcs::All(cs) => ins + konsts(b, cs),
    }
}

/// What comes of a row from part `i` on, after what came of its operations so far.
pub open spec fn row_from<V, W>(
    b: Base<V, W>,
    parts: Seq<Part>,
    i: int,
    ins: Seq<V>,
    res: Seq<V>,
    w: W,
) -> RowEnd<V, W>
    decreases parts.len() - i,
{
    if !(0 <= i < parts.len()) {
        RowEnd::Done(res, w)
    } else {
        match parts[i] {
            Part::Do(_, op, args) => match (b.op)(op, src_vals(b, ins, res, args), w) {
                Done::Go(v, w1) => row_from(b, parts, i + 1, ins, res.push(v), w1),
                Done::Stop(w1) => RowEnd::Stop(w1),
            },
            Part::StopIf(c, msg) => if (b.truth)(src_val(b, ins, res, c)) {
                RowEnd::Halt(msg, w)
            } else {
                row_from(b, parts, i + 1, ins, res, w)
            },
            Part::StopUnless(c, msg) => if (b.truth)(src_val(b, ins, res, c)) {
                row_from(b, parts, i + 1, ins, res, w)
            } else {
                RowEnd::Halt(msg, w)
            },
        }
    }
}

/// What comes of a row.
#[verifier::opaque]
pub open spec fn row<V, W>(b: Base<V, W>, parts: Seq<Part>, ins: Seq<V>, w: W) -> RowEnd<V, W> {
    row_from(b, parts, 0, ins, Seq::empty(), w)
}

/// A row and the value that it is for.
pub ghost struct Row {
    pub parts: Seq<Part>,
    pub out: Src,
}

/// What comes of an expression.
pub ghost enum Value<V, W> {
    Is(V, W),
    Halt(Seq<char>, W),
    Stop(W),
}

/// What comes of a row that is for a value.
#[verifier::opaque]
pub open spec fn value_of<V, W>(b: Base<V, W>, r: Row, ins: Seq<V>, w: W) -> Value<V, W> {
    match row(b, r.parts, ins, w) {
        RowEnd::Done(res, w1) => Value::Is(src_val(b, ins, res, r.out), w1),
        RowEnd::Halt(msg, w1) => Value::Halt(msg, w1),
        RowEnd::Stop(w1) => Value::Stop(w1),
    }
}

/// The value that was given.
pub open spec fn same() -> Row {
    Row { parts: Seq::empty(), out: Src::In(0) }
}

/// One operation.
#[verifier::opaque]
pub open spec fn single(ty: IrTy, op: Op, args: Srcs) -> Row {
    Row { parts: seq![Part::Do(ty, op, args)], out: Src::Res(0) }
}

#[verifier::opaque]
pub open spec fn null_row() -> Row {
    Row {
        parts: seq![
            Part::Do(IrTy::I1, Op::IsNull, Srcs::S1(Src::In(0))),
            Part::StopIf(Src::Res(0), "lumo: null reference\n"@),
        ],
        out: Src::In(0),
    }
}

/// Operators before their operand, of type `t`.
#[verifier::opaque]
pub open spec fn prefix_row(op: UnOp, t: Ty) -> Row {
    match op {
        UnOp::Neg => if t is Float {
            single(IrTy::F64, Op::FNeg, Srcs::S1(Src::In(0)))
        } else {
            single(IrTy::I64, Op::Neg, Srcs::S1(Src::In(0)))
        },
        UnOp::Not => single(IrTy::I1, Op::Not, Srcs::S1(Src::In(0))),
        UnOp::BitNot => single(IrTy::I64, Op::BitNot, Srcs::S1(Src::In(0))),
    }
}

/// Operators between operands, of which the left is of type `t`. A divisor may not be zero.
#[verifier::opaque]
pub open spec fn infix_row(op: BinOp, t: Ty) -> Row {
    let both = Srcs::S2(Src::In(0), Src::In(1));
    if t is Str {
        match pred_of(op) {
            Some(pr) => Row {
                parts: seq![
                    Part::Do(IrTy::I64, Op::Rt(Rt::StrCmp), both),
                    Part::Do(
                        IrTy::I1,
                        Op::ICmp(pr),
                        Srcs::S2(Src::Res(0), Src::Konst(OpndV::Int(0))),
                    ),
                ],
                out: Src::Res(1),
            },
            None => Row {
                parts: seq![
                    Part::Do(IrTy::I64, Op::Rt(Rt::StrLen), Srcs::S1(Src::In(0))),
                    Part::Do(IrTy::I64, Op::Rt(Rt::StrLen), Srcs::S1(Src::In(1))),
                    Part::Do(IrTy::I64, Op::Add, Srcs::S2(Src::Res(0), Src::Res(1))),
                    Part::Do(
                        IrTy::I64,
                        Op::Add,
                        Srcs::S2(Src::Res(2), Src::Konst(OpndV::Int(1))),
                    ),
                    Part::Do(IrTy::Ptr, Op::Rt(Rt::Alloc), Srcs::S1(Src::Res(3))),
                    Part::Do(IrTy::Ptr, Op::Rt(Rt::StrCpy), Srcs::S2(Src::Res(4), Src::In(0))),
                    Part::Do(IrTy::Ptr, Op::Rt(Rt::StrCat), Srcs::S2(Src::Res(4), Src::In(1))),
                ],
                out: Src::Res(4),
            },
        }
    } else if t is Float {
        match pred_of(op) {
            Some(pr) => single(IrTy::I1, Op::FCmp(pr), both),
            None => single(IrTy::F64, float_op(op), both),
        }
    } else {
        match pred_of(op) {
            Some(pr) => single(IrTy::I1, Op::ICmp(pr), both),
            None => if op == BinOp::Div || op == BinOp::Mod {
                Row {
                    parts: seq![
                        Part::Do(
                            IrTy::I1,
                            Op::ICmp(Pred::Eq),
                            Srcs::S2(Src::In(1), Src::Konst(OpndV::Int(0))),
                        ),
                        Part::StopIf(Src::Res(0), "lumo: division by zero\n"@),
                        Part::Do(IrTy::I64, int_op(op), both),
                    ],
                    out: Src::Res(1),
                }
            } else {
                single(IrTy::I64, int_op(op), both)
            },
        }
    }
}

/// References compared with `null`.
#[verifier::opaque]
pub open spec fn refs_row(op: BinOp) -> Row {
    Row {
        parts: seq![
            Part::Do(IrTy::I64, Op::PtrToSlot, Srcs::S1(Src::In(0))),
            Part::Do(IrTy::I64, Op::PtrToSlot, Srcs::S1(Src::In(1))),
            Part::Do(
                IrTy::I1,
                Op::ICmp(pred_of(op)->0),
                Srcs::S2(Src::Res(0), Src::Res(1)),
            ),
        ],
        out: Src::Res(2),
    }
}

/// `int(v)` and `float(v)`.
pub open spec fn convert_row(to_int: bool, t: Ty) -> Row {
    let v = Srcs::S1(Src::In(0));
    if to_int {
        match t {
            Ty::Float => single(IrTy::I64, Op::FpToSi, v),
            Ty::Str => single(IrTy::I64, Op::Rt(Rt::ParseInt), v),
            _ => same(),
        }
    } else {
        match t {
            Ty::Int => single(IrTy::F64, Op::SiToFp, v),
            Ty::Str => single(IrTy::F64, Op::Rt(Rt::ParseFloat), v),
            _ => same(),
        }
    }
}

pub open spec fn absolute_row(t: Ty) -> Row {
    if t is Float {
        single(IrTy::F64, Op::Rt(Rt::Fabs), Srcs::S1(Src::In(0)))
    } else {
        Row {
            parts: seq![
                Part::Do(IrTy::I64, Op::Neg, Srcs::S1(Src::In(0))),
                Part::Do(
                    IrTy::I1,
                    Op::ICmp(Pred::Lt),
                    Srcs::S2(Src::In(0), Src::Konst(OpndV::Int(0))),
                ),
                Part::Do(
                    IrTy::I64,
                    Op::Select,
                    Srcs::S3(Src::Res(1), Src::Res(0), Src::In(0)),
                ),
            ],
            out: Src::Res(2),
        }
    }
}

/// `min(a, b)` and `max(a, b)`.
pub open spec fn extremum_row(min: bool, t: Ty) -> Row {
    let both = Srcs::S2(Src::In(0), Src::In(1));
    if t is Float {
        single(
            IrTy::F64,
            Op::Rt(
                if min {
                    Rt::MinNum
                } else {
                    Rt::MaxNum
                },
            ),
            both,
        )
    } else {
        Row {
            parts: seq![
                Part::Do(
                    IrTy::I1,
                    Op::ICmp(
                        if min {
                            Pred::Lt
                        } else {
                            Pred::Gt
                        },
                    ),
                    both,
                ),
                Part::Do(
                    IrTy::I64,
                    Op::Select,
                    Srcs::S3(Src::Res(0), Src::In(0), Src::In(1)),
                ),
            ],
            out: Src::Res(1),
        }
    }
}

/// `len(v)`.
#[verifier::opaque]
pub open spec fn length_row(t: Ty) -> Row {
    if t is Str {
        single(IrTy::I64, Op::Rt(Rt::StrLen), Srcs::S1(Src::In(0)))
    } else {
        single(IrTy::I64, Op::Load(IrTy::I64), Srcs::S1(Src::In(0)))
    }
}

/// `true` or `false` as a string.
pub open spec fn bool_row() -> Row {
    single(
        IrTy::Ptr,
        Op::Select,
        Srcs::S3(
            Src::In(0),
            Src::Konst(OpndV::Str("true"@)),
            Src::Konst(OpndV::Str("false"@)),
        ),
    )
}

/// `str(v)`.
pub open spec fn text_row(t: Ty) -> Row {
    match t {
        Ty::Str => same(),
        Ty::Bool => bool_row(),
        _ => Row {
            parts: seq![
                Part::Do(IrTy::Ptr, Op::Rt(Rt::Alloc), Srcs::S1(Src::Konst(OpndV::Int(32)))),
                Part::Do(
                    IrTy::Ptr,
                    Op::Rt(
                        if t is Float {
                            Rt::FormatFloat
                        } else {
                            Rt::FormatInt
                        },
                    ),
                    Srcs::S3(Src::Res(0), Src::Konst(OpndV::Int(32)), Src::In(0)),
                ),
            ],
            out: Src::Res(0),
        },
    }
}

/// `chr(v)`.
pub open spec fn chr_row() -> Row {
    Row {
        parts: seq![
            Part::Do(IrTy::Ptr, Op::Rt(Rt::Alloc), Srcs::S1(Src::Konst(OpndV::Int(2)))),
            Part::Do(IrTy::I64, Op::StoreByte, Srcs::S2(Src::Res(0), Src::In(0))),
            Part::Do(
                IrTy::Ptr,
                Op::Offset,
                Srcs::S2(Src::Res(0), Src::Konst(OpndV::Int(1))),
            ),
            Part::Do(
                IrTy::I64,
                Op::StoreByte,
                Srcs::S2(Src::Res(2), Src::Konst(OpndV::Int(0))),
            ),
        ],
        out: Src::Res(0),
    }
}

/// A line, with its line feed: the room for it, the line, and whether there is none.
#[verifier::opaque]
pub open spec fn line_row() -> Seq<Part> {
    seq![
        Part::Do(IrTy::Ptr, Op::Rt(Rt::Alloc), Srcs::S1(Src::Konst(OpndV::Int(4096)))),
        Part::Do(
            IrTy::Ptr,
            Op::Rt(Rt::Fgets),
            Srcs::S2(Src::Res(0), Src::Konst(OpndV::Int(4096))),
        ),
        Part::Do(IrTy::I1, Op::IsNull, Srcs::S1(Src::Res(1))),
    ]
}

/// Takes the line feed off.
#[verifier::opaque]
pub open spec fn chomp_row() -> Seq<Part> {
    seq![
        Part::Do(IrTy::I64, Op::Rt(Rt::NewlinePos), Srcs::S1(Src::In(0))),
        Part::Do(IrTy::Ptr, Op::Offset, Srcs::S2(Src::In(0), Src::Res(0))),
        Part::Do(
            IrTy::I64,
            Op::StoreByte,
            Srcs::S2(Src::Res(1), Src::Konst(OpndV::Int(0))),
        ),
    ]
}

/// `substr(s, start, count)`: the part must lie in the string.
pub open spec fn substr_row() -> Row {
    Row {
        parts: seq![
            Part::Do(IrTy::I64, Op::Rt(Rt::StrLen), Srcs::S1(Src::In(0))),
            Part::Do(
                IrTy::I1,
                Op::ICmp(Pred::Ge),
                Srcs::S2(Src::In(1), Src::Konst(OpndV::Int(0))),
            ),
            Part::Do(
                IrTy::I1,
                Op::ICmp(Pred::Ge),
                Srcs::S2(Src::In(2), Src::Konst(OpndV::Int(0))),
            ),
            Part::Do(IrTy::I64, Op::Sub, Srcs::S2(Src::Res(0), Src::In(1))),
            Part::Do(IrTy::I1, Op::ICmp(Pred::Le), Srcs::S2(Src::In(2), Src::Res(3))),
            Part::Do(IrTy::I1, Op::Both, Srcs::S2(Src::Res(1), Src::Res(2))),
            Part::Do(IrTy::I1, Op::Both, Srcs::S2(Src::Res(5), Src::Res(4))),
            Part::StopUnless(Src::Res(6), "lumo: substr out of range\n"@),
            Part::Do(
                IrTy::Ptr,
                Op::Rt(Rt::Substr),
                Srcs::S3(Src::In(0), Src::In(1), Src::In(2)),
            ),
        ],
        out: Src::Res(7),
    }
}

/// The length of an array, the address of its room, its room, and whether there is more
/// room than elements.
#[verifier::opaque]
pub open spec fn room_row() -> Seq<Part> {
    seq![
        Part::Do(IrTy::I64, Op::Load(IrTy::I64), Srcs::S1(Src::In(0))),
        Part::Do(IrTy::Ptr, Op::Slot(1), Srcs::S1(Src::In(0))),
        Part::Do(IrTy::I64, Op::Load(IrTy::I64), Srcs::S1(Src::Res(1))),
        Part::Do(IrTy::I1, Op::ICmp(Pred::Lt), Srcs::S2(Src::Res(0), Src::Res(2))),
    ]
}

/// Twice the room for an array, or room for four where there was none.
#[verifier::opaque]
pub open spec fn grow_row() -> Seq<Part> {
    seq![
        Part::Do(IrTy::Ptr, Op::Slot(2), Srcs::S1(Src::In(0))),
        Part::Do(IrTy::Ptr, Op::Load(IrTy::Ptr), Srcs::S1(Src::Res(0))),
        Part::Do(
            IrTy::I1,
            Op::ICmp(Pred::Eq),
            Srcs::S2(Src::In(1), Src::Konst(OpndV::Int(0))),
        ),
        Part::Do(IrTy::I64, Op::Mul, Srcs::S2(Src::In(1), Src::Konst(OpndV::Int(2)))),
        Part::Do(
            IrTy::I64,
            Op::Select,
            Srcs::S3(Src::Res(2), Src::Konst(OpndV::Int(4)), Src::Res(3)),
        ),
        Part::Do(IrTy::I64, Op::Mul, Srcs::S2(Src::Res(4), Src::Konst(OpndV::Int(8)))),
        Part::Do(IrTy::Ptr, Op::Rt(Rt::Realloc), Srcs::S2(Src::Res(1), Src::Res(5))),
        Part::Do(IrTy::Ptr, Op::Slot(2), Srcs::S1(Src::In(0))),
        Part::Do(IrTy::I64, Op::Store, Srcs::S2(Src::Res(7), Src::Res(6))),
        Part::Do(IrTy::Ptr, Op::Slot(1), Srcs::S1(Src::In(0))),
        Part::Do(IrTy::I64, Op::Store, Srcs::S2(Src::Res(9), Src::Res(4))),
    ]
}

/// Writes a value behind the last element of an array of a length, and counts it.
#[verifier::opaque]
pub open spec fn append_row() -> Seq<Part> {
    seq![
        Part::Do(IrTy::Ptr, Op::Slot(2), Srcs::S1(Src::In(0))),
        Part::Do(IrTy::Ptr, Op::Load(IrTy::Ptr), Srcs::S1(Src::Res(0))),
        Part::Do(IrTy::I64, Op::Mul, Srcs::S2(Src::In(2), Src::Konst(OpndV::Int(8)))),
        Part::Do(IrTy::Ptr, Op::Offset, Srcs::S2(Src::Res(1), Src::Res(2))),
        Part::Do(IrTy::I64, Op::Store, Srcs::S2(Src::Res(3), Src::In(1))),
        Part::Do(IrTy::I64, Op::Add, Srcs::S2(Src::In(2), Src::Konst(OpndV::Int(1)))),
        Part::Do(IrTy::I64, Op::Store, Srcs::S2(Src::In(0), Src::Res(5))),
    ]
}

/// `pop(a)`, of elements of type `t`.
pub open spec fn pop_row(t: Ty) -> Row {
    Row {
        parts: seq![
            Part::Do(IrTy::I1, Op::IsNull, Srcs::S1(Src::In(0))),
            Part::StopIf(Src::Res(0), "lumo: null reference\n"@),
            Part::Do(IrTy::I64, Op::Load(IrTy::I64), Srcs::S1(Src::In(0))),
            Part::Do(
                IrTy::I1,
                Op::ICmp(Pred::Eq),
                Srcs::S2(Src::Res(1), Src::Konst(OpndV::Int(0))),
            ),
            Part::StopIf(Src::Res(2), "lumo: pop from empty array\n"@),
            Part::Do(
                IrTy::I64,
                Op::Sub,
                Srcs::S2(Src::Res(1), Src::Konst(OpndV::Int(1))),
            ),
            Part::Do(IrTy::I64, Op::Store, Srcs::S2(Src::In(0), Src::Res(3))),
            Part::Do(IrTy::Ptr, Op::Slot(2), Srcs::S1(Src::In(0))),
            Part::Do(IrTy::Ptr, Op::Load(IrTy::Ptr), Srcs::S1(Src::Res(5))),
            Part::Do(
                IrTy::I64,
                Op::Mul,
                Srcs::S2(Src::Res(3), Src::Konst(OpndV::Int(8))),
            ),
            Part::Do(IrTy::Ptr, Op::Offset, Srcs::S2(Src::Res(6), Src::Res(7))),
            Part::Do(basic_ty(t), Op::Load(basic_ty(t)), Srcs::S1(Src::Res(8))),
        ],
        out: Src::Res(9),
    }
}

/// A call of what is no part of the program, after a check for `null`.
pub open spec fn checked_row(f: Rt) -> Row {
    Row {
        parts: seq![
            Part::Do(IrTy::I1, Op::IsNull, Srcs::S1(Src::In(0))),
            Part::StopIf(Src::Res(0), "lumo: null reference\n"@),
            Part::Do(IrTy::Ptr, Op::Rt(f), Srcs::All(Seq::empty())),
        ],
        out: Src::Res(1),
    }
}

/// `contains(s, t)`.
pub open spec fn contains_row() -> Row {
    Row {
        parts: seq![
            Part::Do(IrTy::I64, Op::Rt(Rt::Find), Srcs::All(Seq::empty())),
            Part::Do(
                IrTy::I1,
                Op::ICmp(Pred::Ge),
                Srcs::S2(Src::Res(0), Src::Konst(OpndV::Int(0))),
            ),
        ],
        out: Src::Res(1),
    }
}

/// `replace(s, from, to)`.
pub open spec fn replace_row() -> Row {
    Row {
        parts: seq![
            Part::Do(IrTy::Ptr, Op::Rt(Rt::Split), Srcs::S2(Src::In(0), Src::In(1))),
            Part::Do(IrTy::Ptr, Op::Rt(Rt::Join), Srcs::S2(Src::Res(0), Src::In(2))),
        ],
        out: Src::Res(1),
    }
}

/// The built-in functions whose arguments are evaluated one after the other, on a first
/// argument of type `t`; but for `read_line`.
#[verifier::opaque]
pub open spec fn builtin_row(f: Builtin, t: Ty) -> Row {
    match plain_rt(f) {
        Some((rt, ty, more)) => single(ty, Op::Rt(rt), Srcs::All(more)),
        None => if f == Builtin::Int {
            convert_row(true, t)
        } else if f == Builtin::Float {
            convert_row(false, t)
        } else if f == Builtin::Abs {
            absolute_row(t)
        } else if f == Builtin::Min {
            extremum_row(true, t)
        } else if f == Builtin::Max {
            extremum_row(false, t)
        } else if f == Builtin::Len {
            length_row(t)
        } else if f == Builtin::Str {
            text_row(t)
        } else if f == Builtin::Chr {
            chr_row()
        } else if f == Builtin::Substr {
            substr_row()
        } else if f == Builtin::Contains {
            contains_row()
        } else if f == Builtin::Replace {
            replace_row()
        } else if f == Builtin::Pop {
            pop_row(elem_of(t))
        } else if f == Builtin::Sorted {
            checked_row(sort_fn(elem_of(t)))
        } else if f == Builtin::Reversed {
            checked_row(Rt::Reverse)
        } else {
            checked_row(Rt::MapKeys)
        },
    }
}

/// `join(a, s)`, `has(m, k)` and `delete(m, k)`, after the check of the first argument.
#[verifier::opaque]
pub open spec fn second_row(f: Builtin) -> Row {
    let both = Srcs::S2(Src::In(0), Src::In(1));
    let entry = Srcs::S3(Src::In(0), Src::In(1), Src::Res(0));
    if f == Builtin::Join {
        single(IrTy::Ptr, Op::Rt(Rt::Join), both)
    } else if f == Builtin::Has {
        Row {
            parts: seq![
                Part::Do(IrTy::I64, Op::Rt(Rt::StrHash), Srcs::S1(Src::In(1))),
                Part::Do(IrTy::I1, Op::Rt(Rt::MapHas), entry),
            ],
            out: Src::Res(1),
        }
    } else {
        Row {
            parts: seq![
                Part::Do(IrTy::I64, Op::Rt(Rt::StrHash), Srcs::S1(Src::In(1))),
                Part::Do(IrTy::I64, Op::Rt(Rt::MapDel), entry),
            ],
            out: Src::Konst(OpndV::Int(0)),
        }
    }
}

/// Writes a value to slot `i` of an object.
#[verifier::opaque]
pub open spec fn store_row(i: usize) -> Seq<Part> {
    seq![
        Part::Do(IrTy::Ptr, Op::Slot(i), Srcs::S1(Src::In(0))),
        Part::Do(IrTy::I64, Op::Store, Srcs::S2(Src::Res(0), Src::In(1))),
    ]
}

/// Reads slot `i` of an object.
#[verifier::opaque]
pub open spec fn load_row(ty: IrTy, i: usize) -> Row {
    Row {
        parts: seq![
            Part::Do(IrTy::Ptr, Op::Slot(i), Srcs::S1(Src::In(0))),
            Part::Do(ty, Op::Load(ty), Srcs::S1(Src::Res(0))),
        ],
        out: Src::Res(1),
    }
}

/// Room for a variant, with its index `k`.
#[verifier::opaque]
pub open spec fn variant_row(n: usize, k: usize) -> Row {
    Row {
        parts: seq![
            Part::Do(IrTy::Ptr, Op::NewTagged(n), Srcs::S0),
            Part::Do(
                IrTy::I64,
                Op::Store,
                Srcs::S2(Src::Res(0), Src::Konst(OpndV::Size(k))),
            ),
        ],
        out: Src::Res(0),
    }
}

/// Where the elements of an array with room for `n` are.
pub open spec fn array_data(n: usize) -> Src {
    if n == 0 {
        Src::Konst(OpndV::Null)
    } else {
        Src::Res(1)
    }
}

/// An array of `n` elements that are not there yet.
#[verifier::opaque]
pub open spec fn array_row(n: usize) -> Row {
    let size = Src::Konst(OpndV::Size(n));
    let d: nat = if n == 0 {
        0
    } else {
        1
    };
    let first = if n == 0 {
        seq![Part::Do(IrTy::Ptr, Op::New(3), Srcs::S0)]
    } else {
        seq![
            Part::Do(IrTy::Ptr, Op::New(3), Srcs::S0),
            Part::Do(IrTy::Ptr, Op::New(n), Srcs::S0),
        ]
    };
    Row {
        parts: first + seq![
            Part::Do(IrTy::I64, Op::Store, Srcs::S2(Src::Res(0), size)),
            Part::Do(IrTy::Ptr, Op::Slot(1), Srcs::S1(Src::Res(0))),
            Part::Do(IrTy::I64, Op::Store, Srcs::S2(Src::Res(d + 2), size)),
            Part::Do(IrTy::Ptr, Op::Slot(2), Srcs::S1(Src::Res(0))),
            Part::Do(IrTy::I64, Op::Store, Srcs::S2(Src::Res(d + 4), array_data(n))),
        ],
        out: Src::Res(0),
    }
}

/// A slot as a value of type `t`, after the operations of a row of which the last made it.
pub open spec fn from_slot_parts(at: nat, t: Ty) -> Seq<Part> {
    let raw = Srcs::S1(Src::Res(at));
    match t {
        Ty::Int => Seq::empty(),
        Ty::Bool => seq![Part::Do(IrTy::I1, Op::SlotToBool, raw)],
        Ty::Float => seq![Part::Do(IrTy::F64, Op::SlotToFloat, raw)],
        _ => seq![Part::Do(IrTy::Ptr, Op::SlotToPtr, raw)],
    }
}

/// `m[k]`, of values of type `t`.
#[verifier::opaque]
pub open spec fn map_get_row(t: Ty) -> Row {
    Row {
        parts: seq![
            Part::Do(IrTy::I64, Op::Rt(Rt::StrHash), Srcs::S1(Src::In(1))),
            Part::Do(
                IrTy::I64,
                Op::Rt(Rt::MapGet),
                Srcs::S3(Src::In(0), Src::In(1), Src::Res(0)),
            ),
        ] + from_slot_parts(1, t),
        out: if t is Int {
            Src::Res(1)
        } else {
            Src::Res(2)
        },
    }
}

/// `s[i]`, of a string.
#[verifier::opaque]
pub open spec fn byte_get_row() -> Row {
    Row {
        parts: seq![
            Part::Do(IrTy::I64, Op::Rt(Rt::StrLen), Srcs::S1(Src::In(0))),
            Part::Do(IrTy::I1, Op::ICmp(Pred::AtLeast), Srcs::S2(Src::In(1), Src::Res(0))),
            Part::StopIf(Src::Res(1), "lumo: index out of bounds\n"@),
            Part::Do(IrTy::Ptr, Op::Offset, Srcs::S2(Src::In(0), Src::In(1))),
            Part::Do(IrTy::I64, Op::LoadByte, Srcs::S1(Src::Res(2))),
        ],
        out: Src::Res(3),
    }
}

/// Where `a[i]` is, of an array: the index must be below the length.
pub open spec fn place_parts() -> Seq<Part> {
    seq![
        Part::Do(IrTy::I64, Op::Load(IrTy::I64), Srcs::S1(Src::In(0))),
        Part::Do(IrTy::I1, Op::ICmp(Pred::AtLeast), Srcs::S2(Src::In(1), Src::Res(0))),
        Part::StopIf(Src::Res(1), "lumo: index out of bounds\n"@),
        Part::Do(IrTy::Ptr, Op::Slot(2), Srcs::S1(Src::In(0))),
        Part::Do(IrTy::Ptr, Op::Load(IrTy::Ptr), Srcs::S1(Src::Res(2))),
        Part::Do(IrTy::I64, Op::Mul, Srcs::S2(Src::In(1), Src::Konst(OpndV::Int(8)))),
        Part::Do(IrTy::Ptr, Op::Offset, Srcs::S2(Src::Res(3), Src::Res(4))),
    ]
}

/// `a[i]`, of elements held as `ty`.
#[verifier::opaque]
pub open spec fn elem_get_row(ty: IrTy) -> Row {
    Row {
        parts: place_parts().push(Part::Do(ty, Op::Load(ty), Srcs::S1(Src::Res(5)))),
        out: Src::Res(6),
    }
}

/// `a[i] = v`.
#[verifier::opaque]
pub open spec fn elem_set_row() -> Seq<Part> {
    place_parts().push(Part::Do(IrTy::I64, Op::Store, Srcs::S2(Src::Res(5), Src::In(2))))
}

/// The checks of the bounds of a slice.
pub open spec fn bound_parts() -> Seq<Part> {
    seq![
        Part::Do(
            IrTy::I1,
            Op::ICmp(Pred::Ge),
            Srcs::S2(Src::In(1), Src::Konst(OpndV::Int(0))),
        ),
        Part::Do(IrTy::I1, Op::ICmp(Pred::Le), Srcs::S2(Src::In(1), Src::In(2))),
        Part::Do(IrTy::I1, Op::ICmp(Pred::Le), Srcs::S2(Src::In(2), Src::In(3))),
        Part::Do(IrTy::I1, Op::Both, Srcs::S2(Src::Res(0), Src::Res(1))),
        Part::Do(IrTy::I1, Op::Both, Srcs::S2(Src::Res(3), Src::Res(2))),
        Part::StopUnless(Src::Res(4), "lumo: slice out of range\n"@),
    ]
}

/// `s[l:h]`, of something of a length and of type `t`.
#[verifier::opaque]
pub open spec fn slice_row(t: Ty) -> Row {
    if t is Str {
        Row {
            parts: bound_parts() + seq![
                Part::Do(IrTy::I64, Op::Sub, Srcs::S2(Src::In(2), Src::In(1))),
                Part::Do(
                    IrTy::Ptr,
                    Op::Rt(Rt::Substr),
                    Srcs::S3(Src::In(0), Src::In(1), Src::Res(5)),
                ),
            ],
            out: Src::Res(6),
        }
    } else {
        Row {
            parts: bound_parts() + seq![
                Part::Do(
                    IrTy::Ptr,
                    Op::Rt(Rt::ArraySlice),
                    Srcs::S3(Src::In(0), Src::In(1), Src::In(2)),
                ),
            ],
            out: Src::Res(5),
        }
    }
}

/// `m[k] = v`, of a value of type `t`.
#[verifier::opaque]
pub open spec fn map_put_row(t: Ty) -> Seq<Part> {
    let hash = Part::Do(IrTy::I64, Op::Rt(Rt::StrHash), Srcs::S1(Src::In(1)));
    let raw = Srcs::S1(Src::In(2));
    let op = match t {
        Ty::Bool => Op::BoolToSlot,
        Ty::Float => Op::FloatToSlot,
        _ => Op::PtrToSlot,
    };
    if t is Int {
        seq![
            hash,
            Part::Do(
                IrTy::I64,
                Op::Rt(Rt::MapPut),
                Srcs::S4(Src::In(0), Src::In(1), Src::Res(0), Src::In(2)),
            ),
        ]
    } else {
        seq![
            hash,
            Part::Do(IrTy::I64, op, raw),
            Part::Do(
                IrTy::I64,
                Op::Rt(Rt::MapPut),
                Srcs::S4(Src::In(0), Src::In(1), Src::Res(0), Src::Res(1)),
            ),
        ]
    }
}

/// `print v`, of a value of type `t`.
#[verifier::opaque]
pub open spec fn print_row(t: Ty) -> Seq<Part> {
    match t {
        Ty::Int => seq![Part::Do(IrTy::I64, Op::Rt(Rt::PrintInt), Srcs::S1(Src::In(0)))],
        Ty::Float => seq![Part::Do(IrTy::I64, Op::Rt(Rt::PrintFloat), Srcs::S1(Src::In(0)))],
        Ty::Bool => bool_row().parts.push(
            Part::Do(IrTy::I64, Op::Rt(Rt::PrintStr), Srcs::S1(Src::Res(0))),
        ),
        _ => seq![Part::Do(IrTy::I64, Op::Rt(Rt::PrintStr), Srcs::S1(Src::In(0)))],
    }
}

/// The element at an index of an array, held as `ty`, without a check. Where the data of the
/// array is, is looked up.
#[verifier::opaque]
pub open spec fn item_row(ty: IrTy) -> Row {
    Row {
        parts: seq![
            Part::Do(IrTy::Ptr, Op::Slot(2), Srcs::S1(Src::In(0))),
            Part::Do(IrTy::Ptr, Op::Load(IrTy::Ptr), Srcs::S1(Src::Res(0))),
            Part::Do(IrTy::I64, Op::Mul, Srcs::S2(Src::In(1), Src::Konst(OpndV::Int(8)))),
            Part::Do(IrTy::Ptr, Op::Offset, Srcs::S2(Src::Res(1), Src::Res(2))),
            Part::Do(ty, Op::Load(ty), Srcs::S1(Src::Res(3))),
        ],
        out: Src::Res(4),
    }
}

// Expressions.

/// A variable: its name and its type.
pub type Names = Seq<(Seq<char>, Ty)>;

/// The index of the innermost variable of this name.
pub open spec fn var_index(names: Names, name: Seq<char>) -> int
    decreases names.len(),
{
    if names.len() == 0 {
        -1
    } else if names.last().0 == name {
        names.len() - 1
    } else {
        var_index(names.drop_last(), name)
    }
}

/// What comes of expressions one after the other.
pub ghost enum Values<V, W> {
    Are(Seq<V>, W),
    Halt(Seq<char>, W),
    Stop(W),
}

/// Writes the values from `i` on behind the index of a variant.
pub open spec fn fill<V, W>(b: Base<V, W>, obj: V, vs: Seq<V>, i: int, w: W) -> Value<V, W>
    decreases vs.len() - i,
{
    if !(0 <= i < vs.len()) {
        Value::Is(obj, w)
    } else {
        match row(b, store_row((i + 1) as usize), seq![obj, vs[i]], w) {
            RowEnd::Done(_, w1) => fill(b, obj, vs, i + 1, w1),
            RowEnd::Halt(msg, w1) => Value::Halt(msg, w1),
            RowEnd::Stop(w1) => Value::Stop(w1),
        }
    }
}

/// A value of a sum type.
pub open spec fn variant<V, W>(b: Base<V, W>, p: ProgramV, name: Seq<char>, vs: Seq<V>, w: W) -> Value<
    V,
    W,
> {
    let variants = p.enums[variant_home(p, name, 0)].variants;
    let r = variant_row(
        max_arity(variants) as usize,
        variant_index(variants, name, 0) as usize,
    );
    match value_of(b, r, Seq::empty(), w) {
        Value::Is(obj, w1) => fill(b, obj, vs, 0, w1),
        other => other,
    }
}

/// `read_line()`.
pub open spec fn line<V, W>(b: Base<V, W>, w: W) -> Value<V, W> {
    match row(b, line_row(), Seq::empty(), w) {
        RowEnd::Done(res, w1) => if (b.truth)(res[2]) {
            Value::Is(res[1], w1)
        } else {
            match row(b, chomp_row(), seq![res[0]], w1) {
                RowEnd::Done(_, w2) => Value::Is(res[1], w2),
                RowEnd::Halt(msg, w2) => Value::Halt(msg, w2),
                RowEnd::Stop(w2) => Value::Stop(w2),
            }
        },
        RowEnd::Halt(msg, w1) => Value::Halt(msg, w1),
        RowEnd::Stop(w1) => Value::Stop(w1),
    }
}

/// The end of `push(a, x)`, of an array of a length.
pub open spec fn appended<V, W>(b: Base<V, W>, a: V, x: V, len: V, w: W) -> Value<V, W> {
    match row(b, append_row(), seq![a, x, len], w) {
        RowEnd::Done(_, w1) => Value::Is(a, w1),
        RowEnd::Halt(msg, w1) => Value::Halt(msg, w1),
        RowEnd::Stop(w1) => Value::Stop(w1),
    }
}

/// `push(a, x)`, of an array that is not `null`.
pub open spec fn pushed<V, W>(b: Base<V, W>, a: V, x: V, w: W) -> Value<V, W> {
    match row(b, room_row(), seq![a], w) {
        RowEnd::Done(res, w1) => if (b.truth)(res[3]) {
            appended(b, a, x, res[0], w1)
        } else {
            match row(b, grow_row(), seq![a, res[2]], w1) {
                RowEnd::Done(_, w2) => appended(b, a, x, res[0], w2),
                RowEnd::Halt(msg, w2) => Value::Halt(msg, w2),
                RowEnd::Stop(w2) => Value::Stop(w2),
            }
        },
        RowEnd::Halt(msg, w1) => Value::Halt(msg, w1),
        RowEnd::Stop(w1) => Value::Stop(w1),
    }
}

/// The type of an expression that the type checker accepts.
pub open spec fn typ(p: ProgramV, names: Names, e: ExprV) -> Ty {
    type_of(p, names, e)->Ok_0
}

/// What comes of an expression.
pub open spec fn expr<V, W>(
    b: Base<V, W>,
    p: ProgramV,
    names: Names,
    vals: Seq<V>,
    e: ExprV,
    w: W,
) -> Value<V, W>
    decreases e, 0int,
{
    match e.kind {
        ExprKindV::Int(n) => Value::Is((b.konst)(OpndV::Int(n)), w),
        ExprKindV::Float(s) => Value::Is((b.konst)(OpndV::Float(s)), w),
        ExprKindV::Bool(x) => Value::Is((b.konst)(OpndV::Bool(x)), w),
        ExprKindV::Str(s) => Value::Is((b.konst)(OpndV::Str(s)), w),
        ExprKindV::Null => Value::Is((b.konst)(OpndV::Null), w),
        ExprKindV::Var(name) => if variant_named(p, name) is Some {
            variant(b, p, name, Seq::empty(), w)
        } else {
            Value::Is(vals[var_index(names, name)], w)
        },
        ExprKindV::Unary { op, expr: x } => match expr(b, p, names, vals, *x, w) {
            Value::Is(v, w1) => value_of(b, prefix_row(op, typ(p, names, *x)), seq![v], w1),
            other => other,
        },
        ExprKindV::Binary { op, lhs, rhs } => match expr(b, p, names, vals, *lhs, w) {
            Value::Is(l, w1) => if op == BinOp::And {
                if (b.truth)(l) {
                    expr(b, p, names, vals, *rhs, w1)
                } else {
                    Value::Is((b.konst)(OpndV::Bool(false)), w1)
                }
            } else if op == BinOp::Or {
                if (b.truth)(l) {
                    Value::Is((b.konst)(OpndV::Bool(true)), w1)
                } else {
                    expr(b, p, names, vals, *rhs, w1)
                }
            } else {
                match expr(b, p, names, vals, *rhs, w1) {
                    Value::Is(r, w2) => {
                        let lt = typ(p, names, *lhs);
                        let rt = typ(p, names, *rhs);
                        if (op == BinOp::Eq || op == BinOp::Ne) && (lt is Null || rt is Null) {
                            value_of(b, refs_row(op), seq![l, r], w2)
                        } else {
                            value_of(b, infix_row(op, lt), seq![l, r], w2)
                        }
                    },
                    other => other,
                }
            },
            other => other,
        },
        ExprKindV::Call { name, args } => call(b, p, names, vals, name, args, w),
        ExprKindV::Array(elems) => {
            let n = elems.len() as usize;
            match row(b, array_row(n).parts, Seq::empty(), w) {
                RowEnd::Done(res, w1) => elements(
                    b,
                    p,
                    names,
                    vals,
                    src_val(b, Seq::empty(), res, array_data(n)),
                    elems,
                    0,
                    res[0],
                    w1,
                ),
                RowEnd::Halt(msg, w1) => Value::Halt(msg, w1),
                RowEnd::Stop(w1) => Value::Stop(w1),
            }
        },
        ExprKindV::Index { array, index } => match expr(b, p, names, vals, *array, w) {
            Value::Is(a, w1) => match value_of(b, null_row(), seq![a], w1) {
                Value::Is(_, w2) => match expr(b, p, names, vals, *index, w2) {
                    Value::Is(i, w3) => value_of(
                        b,
                        match typ(p, names, *array) {
                            Ty::MapOf(t) => map_get_row(*t),
                            Ty::Str => byte_get_row(),
                            t => elem_get_row(basic_ty(elem_of(t))),
                        },
                        seq![a, i],
                        w3,
                    ),
                    other => other,
                },
                other => other,
            },
            other => other,
        },
        ExprKindV::Slice { seq, lo, hi } => match expr(b, p, names, vals, *seq, w) {
            Value::Is(s, w1) => {
                let t = typ(p, names, *seq);
                match value_of(b, null_row(), seq![s], w1) {
                    Value::Is(_, w2) => match value_of(b, length_row(t), seq![s], w2) {
                        Value::Is(len, w3) => {
                            let zero = (b.konst)(OpndV::Int(0));
                            match bound(b, p, names, vals, lo, zero, w3) {
                                Value::Is(l, w4) => match bound(b, p, names, vals, hi, len, w4) {
                                    Value::Is(h, w5) => value_of(
                                        b,
                                        slice_row(t),
                                        seq![s, l, h, len],
                                        w5,
                                    ),
                                    other => other,
                                },
                                other => other,
                            }
                        },
                        other => other,
                    },
                    other => other,
                }
            },
            other => other,
        },
        ExprKindV::StructLit { name, fields } => {
            let def = struct_named(p, name)->0;
            let r = single(IrTy::Ptr, Op::New(def.fields.len() as usize), Srcs::S0);
            match value_of(b, r, Seq::empty(), w) {
                Value::Is(obj, w1) => inits(b, p, names, vals, obj, def.fields, fields, 0, w1),
                other => other,
            }
        },
        ExprKindV::MapLit(es) => {
            let r = single(IrTy::Ptr, Op::Rt(Rt::MapNew), Srcs::S0);
            match value_of(b, r, Seq::empty(), w) {
                Value::Is(m, w1) => pairs(b, p, names, vals, m, es, 0, w1),
                other => other,
            }
        },
        ExprKindV::Field { obj, field } => match expr(b, p, names, vals, *obj, w) {
            Value::Is(o, w1) => match value_of(b, null_row(), seq![o], w1) {
                Value::Is(_, w2) => value_of(
                    b,
                    load_row(
                        basic_ty(typ(p, names, e)),
                        field_slot(p, typ(p, names, *obj), field),
                    ),
                    seq![o],
                    w2,
                ),
                other => other,
            },
            other => other,
        },
    }
}

/// A bound of a slice, or `other` where it is left out.
pub open spec fn bound<V, W>(
    b: Base<V, W>,
    p: ProgramV,
    names: Names,
    vals: Seq<V>,
    e: Option<Box<ExprV>>,
    other: V,
    w: W,
) -> Value<V, W>
    decreases e, 0int,
{
    match e {
        Some(e) => expr(b, p, names, vals, *e, w),
        None => Value::Is(other, w),
    }
}

/// Evaluates the elements of an array literal from `i` on, and writes each to its data. The
/// value is the array.
pub open spec fn elements<V, W>(
    b: Base<V, W>,
    p: ProgramV,
    names: Names,
    vals: Seq<V>,
    data: V,
    es: Seq<ExprV>,
    i: int,
    whole: V,
    w: W,
) -> Value<V, W>
    decreases es, es.len() - i,
{
    if !(0 <= i < es.len()) {
        Value::Is(whole, w)
    } else {
        match expr(b, p, names, vals, es[i], w) {
            Value::Is(v, w1) => match row(b, store_row(i as usize), seq![data, v], w1) {
                RowEnd::Done(_, w2) => elements(b, p, names, vals, data, es, i + 1, whole, w2),
                RowEnd::Halt(msg, w2) => Value::Halt(msg, w2),
                RowEnd::Stop(w2) => Value::Stop(w2),
            },
            other => other,
        }
    }
}

/// Evaluates the fields of a structure from `i` on, in the order of its definition, and
/// writes each to it. The value is the structure.
pub open spec fn inits<V, W>(
    b: Base<V, W>,
    p: ProgramV,
    names: Names,
    vals: Seq<V>,
    obj: V,
    fields: Seq<ParamV>,
    fs: Seq<FieldInitV>,
    i: int,
    w: W,
) -> Value<V, W>
    decreases fs, fields.len() - i,
{
    if !(0 <= i < fields.len()) {
        Value::Is(obj, w)
    } else {
        let k = init_index(fs, fields[i].name, 0);
        if 0 <= k < fs.len() {
            match expr(b, p, names, vals, fs[k].value, w) {
                Value::Is(v, w1) => match row(b, store_row(i as usize), seq![obj, v], w1) {
                    RowEnd::Done(_, w2) => inits(b, p, names, vals, obj, fields, fs, i + 1, w2),
                    RowEnd::Halt(msg, w2) => Value::Halt(msg, w2),
                    RowEnd::Stop(w2) => Value::Stop(w2),
                },
                other => other,
            }
        } else {
            Value::Is(obj, w)
        }
    }
}

/// Evaluates the entries of a map literal from `i` on, and puts each into the map, which is
/// the value.
pub open spec fn pairs<V, W>(
    b: Base<V, W>,
    p: ProgramV,
    names: Names,
    vals: Seq<V>,
    m: V,
    es: Seq<(ExprV, ExprV)>,
    i: int,
    w: W,
) -> Value<V, W>
    decreases es, es.len() - i,
{
    if !(0 <= i < es.len()) {
        Value::Is(m, w)
    } else {
        match expr(b, p, names, vals, es[i].0, w) {
            Value::Is(k, w1) => match expr(b, p, names, vals, es[i].1, w1) {
                Value::Is(v, w2) => match row(
                    b,
                    map_put_row(typ(p, names, es[i].1)),
                    seq![m, k, v],
                    w2,
                ) {
                    RowEnd::Done(_, w3) => pairs(b, p, names, vals, m, es, i + 1, w3),
                    RowEnd::Halt(msg, w3) => Value::Halt(msg, w3),
                    RowEnd::Stop(w3) => Value::Stop(w3),
                },
                other => other,
            },
            other => other,
        }
    }
}

/// Evaluates the expressions from `i` on, after the values in `acc`.
pub open spec fn list<V, W>(
    b: Base<V, W>,
    p: ProgramV,
    names: Names,
    vals: Seq<V>,
    es: Seq<ExprV>,
    i: int,
    acc: Seq<V>,
    w: W,
) -> Values<V, W>
    decreases es, es.len() - i,
{
    if !(0 <= i < es.len()) {
        Values::Are(acc, w)
    } else {
        match expr(b, p, names, vals, es[i], w) {
            Value::Is(v, w1) => list(b, p, names, vals, es, i + 1, acc.push(v), w1),
            Value::Halt(msg, w1) => Values::Halt(msg, w1),
            Value::Stop(w1) => Values::Stop(w1),
        }
    }
}

/// A call of a built-in function, of a variant or of a function of the program.
pub open spec fn call<V, W>(
    b: Base<V, W>,
    p: ProgramV,
    names: Names,
    vals: Seq<V>,
    name: Seq<char>,
    args: Seq<ExprV>,
    w: W,
) -> Value<V, W>
    decreases args, args.len() + 1,
{
    match builtin_named(name) {
        Some(f) => if checks_first(f) && args.len() == 2 {
            match expr(b, p, names, vals, args[0], w) {
                Value::Is(x, w1) => match value_of(b, null_row(), seq![x], w1) {
                    Value::Is(_, w2) => match expr(b, p, names, vals, args[1], w2) {
                        Value::Is(y, w3) => if f == Builtin::Push {
                            pushed(b, x, y, w3)
                        } else {
                            value_of(b, second_row(f), seq![x, y], w3)
                        },
                        other => other,
                    },
                    other => other,
                },
                other => other,
            }
        } else {
            match list(b, p, names, vals, args, 0, Seq::empty(), w) {
                Values::Are(vs, w1) => if f == Builtin::ReadLine {
                    line(b, w1)
                } else {
                    value_of(
                        b,
                        builtin_row(
                            f,
                            if args.len() == 0 {
                                Ty::Null
                            } else {
                                typ(p, names, args[0])
                            },
                        ),
                        vs,
                        w1,
                    )
                },
                Values::Halt(msg, w1) => Value::Halt(msg, w1),
                Values::Stop(w1) => Value::Stop(w1),
            }
        },
        None => match list(b, p, names, vals, args, 0, Seq::empty(), w) {
            Values::Are(vs, w1) => if variant_named(p, name) is Some {
                variant(b, p, name, vs, w1)
            } else {
                match (b.call)(func_index(p, name, 0) as nat, vs, w1) {
                    Done::Go(v, w2) => Value::Is(v, w2),
                    Done::Stop(w2) => Value::Stop(w2),
                }
            },
            Values::Halt(msg, w1) => Value::Halt(msg, w1),
            Values::Stop(w1) => Value::Stop(w1),
        },
    }
}


// Statements.

/// What comes of a statement: the run goes on with these values of the variables, leaves a
/// loop, goes on with the next turn of a loop, returns a value, or ends.
pub ghost enum After<V, W> {
    Next(Seq<V>, W),
    Brk(Seq<V>, W),
    Cont(Seq<V>, W),
    Ret(V, W),
    Halt(Seq<char>, W),
    Stop(W),
}

/// The variables after a block: the first `n` of them.
pub open spec fn cut<V, W>(a: Option<After<V, W>>, n: nat) -> Option<After<V, W>> {
    match a {
        Some(After::Next(vals, w)) => Some(After::Next(vals.take(n as int), w)),
        Some(After::Brk(vals, w)) => Some(After::Brk(vals.take(n as int), w)),
        Some(After::Cont(vals, w)) => Some(After::Cont(vals.take(n as int), w)),
        other => other,
    }
}

/// What comes of a statement that is nothing but a row.
pub open spec fn effect<V, W>(r: RowEnd<V, W>, vals: Seq<V>) -> Option<After<V, W>> {
    match r {
        RowEnd::Done(_, w) => Some(After::Next(vals, w)),
        RowEnd::Halt(msg, w) => Some(After::Halt(msg, w)),
        RowEnd::Stop(w) => Some(After::Stop(w)),
    }
}

/// What comes of a statement whose expression gave no value.
pub open spec fn ended<V, W>(v: Value<V, W>) -> Option<After<V, W>> {
    match v {
        Value::Is(_, w) => Some(After::Stop(w)),
        Value::Halt(msg, w) => Some(After::Halt(msg, w)),
        Value::Stop(w) => Some(After::Stop(w)),
    }
}

/// The variables after a statement.
pub open spec fn names_after(p: ProgramV, names: Names, s: StmtV) -> Names {
    match s.kind {
        StmtKindV::Let { name, ty, value } => names.push(
            (name, let_type(p, names, ty, value, s.span)->Ok_0),
        ),
        _ => names,
    }
}

pub open spec fn names_after_opt(p: ProgramV, names: Names, s: Option<Box<StmtV>>) -> Names {
    match s {
        Some(s) => names_after(p, names, *s),
        None => names,
    }
}

/// `target = value`. The value is evaluated first.
pub open spec fn assign<V, W>(
    b: Base<V, W>,
    p: ProgramV,
    names: Names,
    vals: Seq<V>,
    target: ExprV,
    value: ExprV,
    w: W,
) -> Option<After<V, W>> {
    match expr(b, p, names, vals, value, w) {
        Value::Is(v, w1) => match target.kind {
            ExprKindV::Var(name) => Some(
                After::Next(vals.update(var_index(names, name), v), w1),
            ),
            ExprKindV::Index { array, index } => match expr(b, p, names, vals, *array, w1) {
                Value::Is(a, w2) => match value_of(b, null_row(), seq![a], w2) {
                    Value::Is(_, w3) => match expr(b, p, names, vals, *index, w3) {
                        Value::Is(i, w4) => effect(
                            row(
                                b,
                                if typ(p, names, *array) is MapOf {
                                    map_put_row(typ(p, names, value))
                                } else {
                                    elem_set_row()
                                },
                                seq![a, i, v],
                                w4,
                            ),
                            vals,
                        ),
                        other => ended(other),
                    },
                    other => ended(other),
                },
                other => ended(other),
            },
            ExprKindV::Field { obj, field } => match expr(b, p, names, vals, *obj, w1) {
                Value::Is(o, w2) => match value_of(b, null_row(), seq![o], w2) {
                    Value::Is(_, w3) => effect(
                        row(
                            b,
                            store_row(field_slot(p, typ(p, names, *obj), field)),
                            seq![o, v],
                            w3,
                        ),
                        vals,
                    ),
                    other => ended(other),
                },
                other => ended(other),
            },
            _ => Some(After::Next(vals, w1)),
        },
        other => ended(other),
    }
}

/// What comes of a statement. There is no answer where a loop takes more turns than `fuel`
/// allows.
pub open spec fn stmt<V, W>(
    b: Base<V, W>,
    p: ProgramV,
    names: Names,
    vals: Seq<V>,
    s: StmtV,
    w: W,
    fuel: nat,
) -> Option<After<V, W>>
    decreases fuel, s, 2int,
{
    let n = vals.len();
    match s.kind {
        StmtKindV::Let { value, .. } => match expr(b, p, names, vals, value, w) {
            Value::Is(v, w1) => Some(After::Next(vals.push(v), w1)),
            other => ended(other),
        },
        StmtKindV::Assign { target, value } => assign(b, p, names, vals, target, value, w),
        StmtKindV::Print(e) => match expr(b, p, names, vals, e, w) {
            Value::Is(v, w1) => effect(row(b, print_row(typ(p, names, e)), seq![v], w1), vals),
            other => ended(other),
        },
        StmtKindV::Return(e) => match expr(b, p, names, vals, e, w) {
            Value::Is(v, w1) => Some(After::Ret(v, w1)),
            other => ended(other),
        },
        StmtKindV::ExprStmt(e) => match expr(b, p, names, vals, e, w) {
            Value::Is(_, w1) => Some(After::Next(vals, w1)),
            other => ended(other),
        },
        StmtKindV::If { cond, then_body, else_body } => match expr(b, p, names, vals, cond, w) {
            Value::Is(c, w1) => if (b.truth)(c) {
                cut(stmts(b, p, names, vals, then_body, 0, w1, fuel), n)
            } else {
                cut(stmts(b, p, names, vals, else_body, 0, w1, fuel), n)
            },
            other => ended(other),
        },
        StmtKindV::While { .. } => turns(b, p, names, vals, s, w, fuel),
        StmtKindV::For { init, .. } => match opt(b, p, names, vals, init, w, fuel) {
            Some(After::Next(vals1, w1)) => cut(
                turns(b, p, names_after_opt(p, names, init), vals1, s, w1, fuel),
                n,
            ),
            other => other,
        },
        StmtKindV::ForIn { iter, .. } => match expr(b, p, names, vals, iter, w) {
            Value::Is(it, w1) => match value_of(b, null_row(), seq![it], w1) {
                Value::Is(_, w2) => match if typ(p, names, iter) is MapOf {
                    value_of(
                        b,
                        single(IrTy::Ptr, Op::Rt(Rt::MapKeys), Srcs::S1(Src::In(0))),
                        seq![it],
                        w2,
                    )
                } else {
                    Value::Is(it, w2)
                } {
                    Value::Is(arr, w3) => match value_of(
                        b,
                        length_row(Ty::Null),
                        seq![arr],
                        w3,
                    ) {
                        Value::Is(len, w4) => items(
                            b,
                            p,
                            names,
                            vals,
                            s,
                            len,
                            arr,
                            (b.konst)(OpndV::Int(0)),
                            w4,
                            fuel,
                        ),
                        other => ended(other),
                    },
                    other => ended(other),
                },
                other => ended(other),
            },
            other => ended(other),
        },
        StmtKindV::Match { scrut, arms } => match expr(b, p, names, vals, scrut, w) {
            Value::Is(v, w1) => match value_of(b, null_row(), seq![v], w1) {
                Value::Is(_, w2) => match value_of(b, length_row(Ty::Null), seq![v], w2) {
                    Value::Is(tag, w3) => cut(
                        arm(
                            b,
                            p,
                            names,
                            vals,
                            scrut_enum(p, names, scrut)->Ok_0,
                            arms,
                            v,
                            (b.number)(tag),
                            w3,
                            fuel,
                        ),
                        n,
                    ),
                    other => ended(other),
                },
                other => ended(other),
            },
            other => ended(other),
        },
        StmtKindV::Break => Some(After::Brk(vals, w)),
        StmtKindV::Continue => Some(After::Cont(vals, w)),
    }
}

/// A statement that may be left out.
pub open spec fn opt<V, W>(
    b: Base<V, W>,
    p: ProgramV,
    names: Names,
    vals: Seq<V>,
    s: Option<Box<StmtV>>,
    w: W,
    fuel: nat,
) -> Option<After<V, W>>
    decreases fuel, s, 0int,
{
    match s {
        Some(s) => stmt(b, p, names, vals, *s, w, fuel),
        None => Some(After::Next(vals, w)),
    }
}

/// The statements from `i` on.
pub open spec fn stmts<V, W>(
    b: Base<V, W>,
    p: ProgramV,
    names: Names,
    vals: Seq<V>,
    ss: Seq<StmtV>,
    i: int,
    w: W,
    fuel: nat,
) -> Option<After<V, W>>
    decreases fuel, ss, ss.len() - i,
{
    if !(0 <= i < ss.len()) {
        Some(After::Next(vals, w))
    } else {
        match stmt(b, p, names, vals, ss[i], w, fuel) {
            Some(After::Next(vals1, w1)) => stmts(
                b,
                p,
                names_after(p, names, ss[i]),
                vals1,
                ss,
                i + 1,
                w1,
                fuel,
            ),
            other => other,
        }
    }
}

/// The turns of a `while` or a `for`: its condition, its body, and what it does after that.
pub open spec fn turns<V, W>(
    b: Base<V, W>,
    p: ProgramV,
    names: Names,
    vals: Seq<V>,
    s: StmtV,
    w: W,
    fuel: nat,
) -> Option<After<V, W>>
    decreases fuel, s, 1int,
{
    if fuel == 0 {
        None
    } else {
        match s.kind {
            StmtKindV::While { cond, body } => match expr(b, p, names, vals, cond, w) {
                Value::Is(c, w1) => if (b.truth)(c) {
                    match cut(stmts(b, p, names, vals, body, 0, w1, fuel), vals.len()) {
                        Some(After::Next(vals2, w2)) => turns(
                            b,
                            p,
                            names,
                            vals2,
                            s,
                            w2,
                            (fuel - 1) as nat,
                        ),
                        Some(After::Cont(vals2, w2)) => turns(
                            b,
                            p,
                            names,
                            vals2,
                            s,
                            w2,
                            (fuel - 1) as nat,
                        ),
                        Some(After::Brk(vals2, w2)) => Some(After::Next(vals2, w2)),
                        other => other,
                    }
                } else {
                    Some(After::Next(vals, w1))
                },
                other => ended(other),
            },
            StmtKindV::For { cond, step, body, .. } => match expr(b, p, names, vals, cond, w) {
                Value::Is(c, w1) => if (b.truth)(c) {
                    match cut(stmts(b, p, names, vals, body, 0, w1, fuel), vals.len()) {
                        Some(After::Next(vals2, w2)) => stepped(
                            b,
                            p,
                            names,
                            vals2,
                            s,
                            cut(opt(b, p, names, vals2, step, w2, fuel), vals.len()),
                            fuel,
                        ),
                        Some(After::Cont(vals2, w2)) => stepped(
                            b,
                            p,
                            names,
                            vals2,
                            s,
                            cut(opt(b, p, names, vals2, step, w2, fuel), vals.len()),
                            fuel,
                        ),
                        Some(After::Brk(vals2, w2)) => Some(After::Next(vals2, w2)),
                        other => other,
                    }
                } else {
                    Some(After::Next(vals, w1))
                },
                other => ended(other),
            },
            _ => None,
        }
    }
}

/// The turns of a `for` after its step.
pub open spec fn stepped<V, W>(
    b: Base<V, W>,
    p: ProgramV,
    names: Names,
    vals: Seq<V>,
    s: StmtV,
    done: Option<After<V, W>>,
    fuel: nat,
) -> Option<After<V, W>>
    decreases fuel, s, 0int,
{
    match done {
        Some(After::Next(vals3, w3)) => if fuel == 0 {
            None
        } else {
            turns(b, p, names, vals3, s, w3, (fuel - 1) as nat)
        },
        other => other,
    }
}

/// The turns of a `for`-`in` from the index `i` on, over an array that had a length at the
/// start.
pub open spec fn items<V, W>(
    b: Base<V, W>,
    p: ProgramV,
    names: Names,
    vals: Seq<V>,
    s: StmtV,
    len: V,
    arr: V,
    i: V,
    w: W,
    fuel: nat,
) -> Option<After<V, W>>
    decreases fuel, s, 1int,
{
    if fuel == 0 {
        None
    } else {
        match s.kind {
            StmtKindV::ForIn { var, iter, body } => {
                let t = item_type(p, names, iter)->Ok_0;
                match (b.op)(Op::ICmp(Pred::Below), seq![i, len], w) {
                    Done::Go(c, w1) => if (b.truth)(c) {
                        match value_of(b, item_row(basic_ty(t)), seq![arr, i], w1) {
                            Value::Is(x, w2) => match cut(
                                stmts(
                                    b,
                                    p,
                                    names.push((var, t)),
                                    vals.push(x),
                                    body,
                                    0,
                                    w2,
                                    fuel,
                                ),
                                vals.len(),
                            ) {
                                Some(After::Next(vals3, w3)) => counted(
                                    b,
                                    p,
                                    names,
                                    vals3,
                                    s,
                                    len,
                                    arr,
                                    i,
                                    w3,
                                    fuel,
                                ),
                                Some(After::Cont(vals3, w3)) => counted(
                                    b,
                                    p,
                                    names,
                                    vals3,
                                    s,
                                    len,
                                    arr,
                                    i,
                                    w3,
                                    fuel,
                                ),
                                Some(After::Brk(vals3, w3)) => Some(After::Next(vals3, w3)),
                                other => other,
                            },
                            other => ended(other),
                        }
                    } else {
                        Some(After::Next(vals, w1))
                    },
                    Done::Stop(w1) => Some(After::Stop(w1)),
                }
            },
            _ => None,
        }
    }
}

/// The turns of a `for`-`in` after the one at index `i`.
pub open spec fn counted<V, W>(
    b: Base<V, W>,
    p: ProgramV,
    names: Names,
    vals: Seq<V>,
    s: StmtV,
    len: V,
    arr: V,
    i: V,
    w: W,
    fuel: nat,
) -> Option<After<V, W>>
    decreases fuel, s, 0int,
{
    match (b.op)(Op::Add, seq![i, (b.konst)(OpndV::Int(1))], w) {
        Done::Go(j, w1) => if fuel == 0 {
            None
        } else {
            items(b, p, names, vals, s, len, arr, j, w1, (fuel - 1) as nat)
        },
        Done::Stop(w1) => Some(After::Stop(w1)),
    }
}

/// The indices of the arms of a `match` among the first `n` that are for a variant.
pub open spec fn variant_arms(arms: Seq<MatchArmV>, n: nat) -> Seq<int>
    decreases n,
{
    if n == 0 {
        Seq::empty()
    } else {
        let rest = variant_arms(arms, (n - 1) as nat);
        if arms[n - 1].wildcard {
            rest
        } else {
            rest.push(n - 1)
        }
    }
}

/// The index of the last arm of a `match` among the first `n` that is for all else.
pub open spec fn wildcard_arm(arms: Seq<MatchArmV>, n: nat) -> Option<int>
    decreases n,
{
    if n == 0 {
        None
    } else if arms[n - 1].wildcard {
        Some(n - 1)
    } else {
        wildcard_arm(arms, (n - 1) as nat)
    }
}

/// The index in its definition of the variant that an arm is for.
pub open spec fn arm_tag(def: EnumDefV, arm: MatchArmV) -> usize {
    variant_index(def.variants, arm.variant, 0) as usize
}

/// The indices of the variants that the arms with these indices are for.
pub open spec fn arm_tags(def: EnumDefV, arms: Seq<MatchArmV>, which: Seq<int>) -> Seq<usize> {
    Seq::new(which.len(), |j: int| arm_tag(def, arms[which[j]]))
}

/// The names and values that an arm gives to the payload of `v` from `i` on.
pub open spec fn bound_names(p: ProgramV, names: Names, vars: Seq<Seq<char>>, fields: Seq<Ty>, i: int) -> Names
    decreases vars.len() - i,
{
    if !(0 <= i < vars.len()) {
        names
    } else {
        bound_names(p, names.push((vars[i], resolve(p, fields[i]))), vars, fields, i + 1)
    }
}

/// The values of the variables with the payload of `v` from `i` on.
pub open spec fn payload<V, W>(
    b: Base<V, W>,
    p: ProgramV,
    vals: Seq<V>,
    v: V,
    vars: Seq<Seq<char>>,
    fields: Seq<Ty>,
    i: int,
    w: W,
) -> Values<V, W>
    decreases vars.len() - i,
{
    if !(0 <= i < vars.len()) {
        Values::Are(vals, w)
    } else {
        let ty = basic_ty(resolve(p, fields[i]));
        match value_of(b, load_row(ty, (i + 1) as usize), seq![v], w) {
            Value::Is(x, w1) => payload(b, p, vals.push(x), v, vars, fields, i + 1, w1),
            Value::Halt(msg, w1) => Values::Halt(msg, w1),
            Value::Stop(w1) => Values::Stop(w1),
        }
    }
}

/// The arm of a `match` on `v`, which is of the variant with this index: the first that is
/// for the variant, or else the one for all else.
pub open spec fn arm<V, W>(
    b: Base<V, W>,
    p: ProgramV,
    names: Names,
    vals: Seq<V>,
    def: EnumDefV,
    arms: Seq<MatchArmV>,
    v: V,
    tag: int,
    w: W,
    fuel: nat,
) -> Option<After<V, W>>
    decreases fuel, arms, 0int,
{
    let which = variant_arms(arms, arms.len());
    let j = tag_index(arm_tags(def, arms, which), tag, 0);
    if 0 <= j < which.len() && 0 <= which[j] < arms.len() {
        let a = arms[which[j]];
        let fields = def.variants[variant_index(def.variants, a.variant, 0)].fields;
        match payload(b, p, vals, v, a.bindings, fields, 0, w) {
            Values::Are(vals1, w1) => stmts(
                b,
                p,
                bound_names(p, names, a.bindings, fields, 0),
                vals1,
                arms[which[j]].body,
                0,
                w1,
                fuel,
            ),
            Values::Halt(msg, w1) => Some(After::Halt(msg, w1)),
            Values::Stop(w1) => Some(After::Stop(w1)),
        }
    } else {
        match wildcard_arm(arms, arms.len()) {
            Some(k) => if 0 <= k < arms.len() {
                stmts(b, p, names, vals, arms[k].body, 0, w, fuel)
            } else {
                None
            },
            None => Some(After::Next(vals, w)),
        }
    }
}

// Programs.

/// The primitive operations, without calls of functions of the program.
#[verifier::reject_recursive_types(V)]
#[verifier::reject_recursive_types(W)]
pub ghost struct Ground<V, W> {
    pub op: spec_fn(Op, Seq<V>, W) -> Done<V, W>,
    pub konst: spec_fn(OpndV) -> V,
    pub truth: spec_fn(V) -> bool,
    pub number: spec_fn(V) -> int,
    /// The world after a message has ended the program.
    pub halt: spec_fn(Seq<char>, W) -> W,
    /// The world where no answer was found.
    pub lost: spec_fn(W) -> W,
}

pub open spec fn with_calls<V, W>(
    g: Ground<V, W>,
    call: spec_fn(nat, Seq<V>, W) -> Done<V, W>,
) -> Base<V, W> {
    Base { op: g.op, call, konst: g.konst, truth: g.truth, number: g.number }
}

/// The parameters as variables.
pub open spec fn param_names(p: ProgramV, ps: Seq<ParamV>) -> Names {
    Seq::new(ps.len(), |i: int| (ps[i].name, resolve(p, ps[i].ty)))
}

/// What comes of a function. Where its end is reached without a `return`, it returns the
/// zero of its type.
pub open spec fn function<V, W>(
    g: Ground<V, W>,
    b: Base<V, W>,
    p: ProgramV,
    f: FunctionV,
    args: Seq<V>,
    w: W,
    fuel: nat,
) -> Done<V, W> {
    match stmts(b, p, param_names(p, f.params), args, f.body, 0, w, fuel) {
        Some(After::Ret(v, w1)) => Done::Go(v, w1),
        Some(After::Next(_, w1)) => Done::Go((b.konst)(zero_of(resolve(p, f.ret))), w1),
        Some(After::Halt(msg, w1)) => Done::Stop((g.halt)(msg, w1)),
        Some(After::Stop(w1)) => Done::Stop(w1),
        _ => Done::Stop((g.lost)(w)),
    }
}

/// What calls of the functions of a program do, where they are nested no deeper than `depth`
/// and no loop takes more turns than `fuel` allows.
pub open spec fn calls<V, W>(g: Ground<V, W>, p: ProgramV, depth: nat, fuel: nat) -> spec_fn(
    nat,
    Seq<V>,
    W,
) -> Done<V, W>
    decreases depth,
{
    if depth == 0 {
        |f: nat, args: Seq<V>, w: W| Done::Stop((g.lost)(w))
    } else {
        let b = with_calls(g, calls(g, p, (depth - 1) as nat, fuel));
        |f: nat, args: Seq<V>, w: W|
            if f < p.funcs.len() && args.len() == p.funcs[f as int].params.len() {
                function(g, b, p, p.funcs[f as int], args, w, fuel)
            } else {
                Done::Stop((g.lost)(w))
            }
    }
}

} // verus!
