//! The assembly language of LLVM.
//!
//! Registers are `%r0`, `%r1` and so on, variables `%v0`, blocks `b0`, string constants
//! `@.s0`. A function of the program keeps its name, but for one that starts with `lumo_`,
//! as the functions do that the code calls and that are no part of the program: it gets
//! `fn.` before its name. Only `main` can be seen from outside, and none is taken for the
//! function of the C library that may have the same name.
use crate::blocks::{Block, FlatFunc, Term};
use crate::ir::{Inst, IrTy, Op, Opnd, Pred, Rt};
use crate::text::{append_dec, append_int, text_eq};
use vstd::prelude::*;
use vstd::utf8::*;
#[allow(unused_imports)]
use crate::blocks::{blocks_view, insts_view, targets_view, BlockV, FlatFuncV, TermV};
#[allow(unused_imports)]
use crate::ir::{opnds_view, InstV, OpndV};
#[allow(unused_imports)]
use crate::text::{byte_len, dec_text, int_text};

verus! {

/// Text so far, and the string constants that it refers to.
pub ghost struct Page {
    pub text: Seq<char>,
    pub strs: Seq<Seq<char>>,
}

/// What the text of a function refers to: the types of its registers and variables, and
/// the names of the functions of the program.
pub ghost struct Around {
    pub regs: Seq<IrTy>,
    pub slots: Seq<IrTy>,
    pub ret: IrTy,
    pub funcs: Seq<Seq<char>>,
}

pub open spec fn say(p: Page, s: Seq<char>) -> Page {
    Page { text: p.text + s, strs: p.strs }
}

pub open spec fn say_num(p: Page, n: nat) -> Page {
    Page { text: p.text + dec_text(n), strs: p.strs }
}

pub open spec fn ty_text(t: IrTy) -> Seq<char> {
    match t {
        IrTy::I64 => "i64"@,
        IrTy::I1 => "i1"@,
        IrTy::F64 => "double"@,
        IrTy::Ptr => "ptr"@,
    }
}

/// The type at an index, or that of integers where there is none.
pub open spec fn ty_at(ts: Seq<IrTy>, i: int) -> IrTy {
    if 0 <= i < ts.len() {
        ts[i]
    } else {
        IrTy::I64
    }
}

/// The type of an operand.
pub open spec fn opnd_ty(regs: Seq<IrTy>, v: OpndV) -> IrTy {
    match v {
        OpndV::Reg(r) => ty_at(regs, r as int),
        OpndV::Int(_) => IrTy::I64,
        OpndV::Size(_) => IrTy::I64,
        OpndV::Bool(_) => IrTy::I1,
        OpndV::Float(_) => IrTy::F64,
        OpndV::Str(_) => IrTy::Ptr,
        OpndV::Null => IrTy::Ptr,
    }
}

/// An operand. A string becomes one more constant.
pub open spec fn say_opnd(p: Page, v: OpndV) -> Page {
    match v {
        OpndV::Reg(r) => say_num(say(p, "%r"@), r),
        OpndV::Int(n) => say(p, int_text(n as int)),
        OpndV::Size(n) => say_num(p, n as nat),
        OpndV::Bool(b) => say(
            p,
            if b {
                "true"@
            } else {
                "false"@
            },
        ),
        OpndV::Float(s) => say(p, s),
        OpndV::Str(s) => {
            let q = say_num(say(p, "@.s"@), p.strs.len());
            Page { text: q.text, strs: q.strs.push(s) }
        },
        OpndV::Null => say(p, "null"@),
    }
}

/// The operand at an index, or null where there is none.
pub open spec fn arg(args: Seq<OpndV>, i: int) -> OpndV {
    if 0 <= i < args.len() {
        args[i]
    } else {
        OpndV::Null
    }
}

/// An operand with its type before it.
pub open spec fn say_typed(p: Page, regs: Seq<IrTy>, v: OpndV) -> Page {
    say_opnd(say(say(p, ty_text(opnd_ty(regs, v))), " "@), v)
}

/// The operands from `i` on, with their types.
pub open spec fn say_args(p: Page, regs: Seq<IrTy>, args: Seq<OpndV>, i: int) -> Page
    decreases args.len() - i,
{
    if !(0 <= i < args.len()) {
        p
    } else {
        let q = if i == 0 {
            p
        } else {
            say(p, ", "@)
        };
        say_args(say_typed(q, regs, args[i]), regs, args, i + 1)
    }
}

/// The start of an instruction with a value.
pub open spec fn say_def(p: Page, dst: nat) -> Page {
    say(say_num(say(p, "  %r"@), dst), " = "@)
}

/// An instruction on two operands.
pub open spec fn say_two(p: Page, dst: nat, what: Seq<char>, a: OpndV, b: OpndV) -> Page {
    say(say_opnd(say(say_opnd(say(say_def(p, dst), what), a), ", "@), b), "\n"@)
}

/// An instruction on one operand, with text before and after it.
pub open spec fn say_one(p: Page, dst: nat, what: Seq<char>, a: OpndV, after: Seq<char>) -> Page {
    say(say_opnd(say(say_def(p, dst), what), a), after)
}

/// A shift by the low bits of the second operand.
pub open spec fn say_shift(p: Page, dst: nat, what: Seq<char>, a: OpndV, b: OpndV) -> Page {
    let p1 = say(say_num(say(p, "  %r"@), dst), ".m = and i64 "@);
    let p2 = say(say_opnd(p1, b), ", 63\n"@);
    let p3 = say(say_opnd(say(say_def(p2, dst), what), a), ", %r"@);
    say(say_num(p3, dst), ".m\n"@)
}

pub open spec fn pred_text(p: Pred) -> Seq<char> {
    match p {
        Pred::Eq => "eq"@,
        Pred::Ne => "ne"@,
        Pred::Lt => "slt"@,
        Pred::Le => "sle"@,
        Pred::Gt => "sgt"@,
        Pred::Ge => "sge"@,
        Pred::Below => "ult"@,
        Pred::AtLeast => "uge"@,
    }
}

/// Comparisons of fractions. None holds of what is not a number.
pub open spec fn float_pred_text(p: Pred) -> Seq<char> {
    match p {
        Pred::Eq => "oeq"@,
        Pred::Ne => "one"@,
        Pred::Lt => "olt"@,
        Pred::Le => "ole"@,
        Pred::Gt => "ogt"@,
        Pred::Ge => "oge"@,
        Pred::Below => "olt"@,
        Pred::AtLeast => "oge"@,
    }
}

/// The name of a function that is no part of the program.
pub open spec fn rt_text(f: Rt) -> Seq<char> {
    match f {
        Rt::Alloc => "lumo_alloc"@,
        Rt::Realloc => "lumo_realloc"@,
        Rt::StrLen => "lumo_str_len"@,
        Rt::StrCpy => "lumo_str_cpy"@,
        Rt::StrCat => "lumo_str_cat"@,
        Rt::StrCmp => "lumo_str_cmp"@,
        Rt::FormatInt => "lumo_format_int"@,
        Rt::FormatFloat => "lumo_format_float"@,
        Rt::ParseInt => "lumo_parse_int"@,
        Rt::ParseFloat => "lumo_parse_float"@,
        Rt::IsInt => "lumo_is_int"@,
        Rt::IsFloat => "lumo_is_float"@,
        Rt::Sqrt => "lumo_sqrt"@,
        Rt::Floor => "lumo_floor"@,
        Rt::Ceil => "lumo_ceil"@,
        Rt::Fabs => "lumo_fabs"@,
        Rt::MinNum => "lumo_min_num"@,
        Rt::MaxNum => "lumo_max_num"@,
        Rt::Pow => "lumo_pow"@,
        Rt::PrintInt => "lumo_print_int"@,
        Rt::PrintFloat => "lumo_print_float"@,
        Rt::PrintStr => "lumo_print_str"@,
        Rt::Fgets => "lumo_read_line"@,
        Rt::NewlinePos => "lumo_newline_pos"@,
        Rt::ReadFile => "lumo_read_file"@,
        Rt::WriteFile => "lumo_write_file"@,
        Rt::Substr => "lumo_substr"@,
        Rt::Split => "lumo_split"@,
        Rt::Join => "lumo_join"@,
        Rt::ToCase => "lumo_to_case"@,
        Rt::Trim => "lumo_trim"@,
        Rt::Find => "lumo_find"@,
        Rt::HasAffix => "lumo_has_affix"@,
        Rt::Repeat => "lumo_repeat"@,
        Rt::ArraySlice => "lumo_array_slice"@,
        Rt::SortInt => "lumo_sort_int"@,
        Rt::SortFloat => "lumo_sort_float"@,
        Rt::SortStr => "lumo_sort_str"@,
        Rt::Reverse => "lumo_array_reverse"@,
        Rt::StrHash => "lumo_str_hash"@,
        Rt::MapNew => "lumo_map_new"@,
        Rt::MapPut => "lumo_map_put"@,
        Rt::MapGet => "lumo_map_get"@,
        Rt::MapHas => "lumo_map_has"@,
        Rt::MapDel => "lumo_map_del"@,
        Rt::MapKeys => "lumo_map_keys"@,
    }
}

/// The types of the parameters and of the value of such a function.
pub open spec fn rt_sig(f: Rt) -> (Seq<IrTy>, IrTy) {
    match f {
        Rt::Alloc => (seq![IrTy::I64], IrTy::Ptr),
        Rt::Realloc => (seq![IrTy::Ptr, IrTy::I64], IrTy::Ptr),
        Rt::StrLen => (seq![IrTy::Ptr], IrTy::I64),
        Rt::StrCpy => (seq![IrTy::Ptr, IrTy::Ptr], IrTy::Ptr),
        Rt::StrCat => (seq![IrTy::Ptr, IrTy::Ptr], IrTy::Ptr),
        Rt::StrCmp => (seq![IrTy::Ptr, IrTy::Ptr], IrTy::I64),
        Rt::FormatInt => (seq![IrTy::Ptr, IrTy::I64, IrTy::I64], IrTy::Ptr),
        Rt::FormatFloat => (seq![IrTy::Ptr, IrTy::I64, IrTy::F64], IrTy::Ptr),
        Rt::ParseInt => (seq![IrTy::Ptr], IrTy::I64),
        Rt::ParseFloat => (seq![IrTy::Ptr], IrTy::F64),
        Rt::IsInt => (seq![IrTy::Ptr], IrTy::I1),
        Rt::IsFloat => (seq![IrTy::Ptr], IrTy::I1),
        Rt::Sqrt => (seq![IrTy::F64], IrTy::F64),
        Rt::Floor => (seq![IrTy::F64], IrTy::F64),
        Rt::Ceil => (seq![IrTy::F64], IrTy::F64),
        Rt::Fabs => (seq![IrTy::F64], IrTy::F64),
        Rt::MinNum => (seq![IrTy::F64, IrTy::F64], IrTy::F64),
        Rt::MaxNum => (seq![IrTy::F64, IrTy::F64], IrTy::F64),
        Rt::Pow => (seq![IrTy::F64, IrTy::F64], IrTy::F64),
        Rt::PrintInt => (seq![IrTy::I64], IrTy::I64),
        Rt::PrintFloat => (seq![IrTy::F64], IrTy::I64),
        Rt::PrintStr => (seq![IrTy::Ptr], IrTy::I64),
        Rt::Fgets => (seq![IrTy::Ptr, IrTy::I64], IrTy::Ptr),
        Rt::NewlinePos => (seq![IrTy::Ptr], IrTy::I64),
        Rt::ReadFile => (seq![IrTy::Ptr], IrTy::Ptr),
        Rt::WriteFile => (seq![IrTy::Ptr, IrTy::Ptr], IrTy::I1),
        Rt::Substr => (seq![IrTy::Ptr, IrTy::I64, IrTy::I64], IrTy::Ptr),
        Rt::Split => (seq![IrTy::Ptr, IrTy::Ptr], IrTy::Ptr),
        Rt::Join => (seq![IrTy::Ptr, IrTy::Ptr], IrTy::Ptr),
        Rt::ToCase => (seq![IrTy::Ptr, IrTy::I1], IrTy::Ptr),
        Rt::Trim => (seq![IrTy::Ptr], IrTy::Ptr),
        Rt::Find => (seq![IrTy::Ptr, IrTy::Ptr], IrTy::I64),
        Rt::HasAffix => (seq![IrTy::Ptr, IrTy::Ptr, IrTy::I1], IrTy::I1),
        Rt::Repeat => (seq![IrTy::Ptr, IrTy::I64], IrTy::Ptr),
        Rt::ArraySlice => (seq![IrTy::Ptr, IrTy::I64, IrTy::I64], IrTy::Ptr),
        Rt::SortInt => (seq![IrTy::Ptr], IrTy::Ptr),
        Rt::SortFloat => (seq![IrTy::Ptr], IrTy::Ptr),
        Rt::SortStr => (seq![IrTy::Ptr], IrTy::Ptr),
        Rt::Reverse => (seq![IrTy::Ptr], IrTy::Ptr),
        Rt::StrHash => (seq![IrTy::Ptr], IrTy::I64),
        Rt::MapNew => (seq![], IrTy::Ptr),
        Rt::MapPut => (seq![IrTy::Ptr, IrTy::Ptr, IrTy::I64, IrTy::I64], IrTy::I64),
        Rt::MapGet => (seq![IrTy::Ptr, IrTy::Ptr, IrTy::I64], IrTy::I64),
        Rt::MapHas => (seq![IrTy::Ptr, IrTy::Ptr, IrTy::I64], IrTy::I1),
        Rt::MapDel => (seq![IrTy::Ptr, IrTy::Ptr, IrTy::I64], IrTy::I64),
        Rt::MapKeys => (seq![IrTy::Ptr], IrTy::Ptr),
    }
}

/// All of these functions.
pub open spec fn all_rts() -> Seq<Rt> {
    seq![
        Rt::Alloc,
        Rt::Realloc,
        Rt::StrLen,
        Rt::StrCpy,
        Rt::StrCat,
        Rt::StrCmp,
        Rt::FormatInt,
        Rt::FormatFloat,
        Rt::ParseInt,
        Rt::ParseFloat,
        Rt::IsInt,
        Rt::IsFloat,
        Rt::Sqrt,
        Rt::Floor,
        Rt::Ceil,
        Rt::Fabs,
        Rt::MinNum,
        Rt::MaxNum,
        Rt::Pow,
        Rt::PrintInt,
        Rt::PrintFloat,
        Rt::PrintStr,
        Rt::Fgets,
        Rt::NewlinePos,
        Rt::ReadFile,
        Rt::WriteFile,
        Rt::Substr,
        Rt::Split,
        Rt::Join,
        Rt::ToCase,
        Rt::Trim,
        Rt::Find,
        Rt::HasAffix,
        Rt::Repeat,
        Rt::ArraySlice,
        Rt::SortInt,
        Rt::SortFloat,
        Rt::SortStr,
        Rt::Reverse,
        Rt::StrHash,
        Rt::MapNew,
        Rt::MapPut,
        Rt::MapGet,
        Rt::MapHas,
        Rt::MapDel,
        Rt::MapKeys,
    ]
}

/// Integer and other instructions on two operands that only differ in their name.
pub open spec fn two_text(op: Op) -> Option<Seq<char>> {
    match op {
        Op::Add => Some("add i64 "@),
        Op::Sub => Some("sub i64 "@),
        Op::Mul => Some("mul i64 "@),
        Op::SDiv => Some("sdiv i64 "@),
        Op::SRem => Some("srem i64 "@),
        Op::And => Some("and i64 "@),
        Op::Or => Some("or i64 "@),
        Op::Xor => Some("xor i64 "@),
        Op::FAdd => Some("fadd double "@),
        Op::FSub => Some("fsub double "@),
        Op::FMul => Some("fmul double "@),
        Op::FDiv => Some("fdiv double "@),
        Op::Both => Some("and i1 "@),
        _ => None,
    }
}

/// Instructions on one operand, as the text before and after it.
pub open spec fn one_text(op: Op) -> Option<(Seq<char>, Seq<char>)> {
    match op {
        Op::Neg => Some(("sub i64 0, "@, "\n"@)),
        Op::BitNot => Some(("xor i64 "@, ", -1\n"@)),
        Op::FNeg => Some(("fneg double "@, "\n"@)),
        Op::Not => Some(("xor i1 "@, ", true\n"@)),
        Op::SiToFp => Some(("sitofp i64 "@, " to double\n"@)),
        Op::FpToSi => Some(("fptosi double "@, " to i64\n"@)),
        Op::BoolToSlot => Some(("zext i1 "@, " to i64\n"@)),
        Op::SlotToBool => Some(("icmp ne i64 "@, ", 0\n"@)),
        Op::FloatToSlot => Some(("bitcast double "@, " to i64\n"@)),
        Op::SlotToFloat => Some(("bitcast i64 "@, " to double\n"@)),
        Op::PtrToSlot => Some(("ptrtoint ptr "@, " to i64\n"@)),
        Op::SlotToPtr => Some(("inttoptr i64 "@, " to ptr\n"@)),
        Op::IsNull => Some(("icmp eq ptr "@, ", null\n"@)),
        _ => None,
    }
}

/// A call of a function whose name follows the start of the text.
pub open spec fn say_call(p: Page, w: Around, dst: nat, name: Seq<char>, args: Seq<OpndV>) -> Page {
    let p1 = say(say(say_def(p, dst), "call "@), ty_text(ty_at(w.regs, dst as int)));
    say(say_args(say(say(say(p1, " @"@), name), "("@), w.regs, args, 0), ")\n"@)
}

/// Writes a typed operand to the place that the text after it names.
pub open spec fn say_store(p: Page, w: Around, v: OpndV) -> Page {
    say(say_typed(say(p, "  store "@), w.regs, v), ", ptr "@)
}

/// An instruction.
pub open spec fn say_op(p: Page, w: Around, dst: nat, op: Op, args: Seq<OpndV>) -> Page {
    let a = arg(args, 0);
    let b = arg(args, 1);
    match (two_text(op), one_text(op)) {
        (Some(what), _) => say_two(p, dst, what, a, b),
        (None, Some((what, after))) => say_one(p, dst, what, a, after),
        (None, None) => match op {
            Op::Shl => say_shift(p, dst, "shl i64 "@, a, b),
            Op::AShr => say_shift(p, dst, "ashr i64 "@, a, b),
            Op::ICmp(pr) => {
                let p1 = say(say(say_def(p, dst), "icmp "@), pred_text(pr));
                say(say_opnd(say(say_typed(say(p1, " "@), w.regs, a), ", "@), b), "\n"@)
            },
            Op::FCmp(pr) => {
                let p1 = say(say(say_def(p, dst), "fcmp "@), float_pred_text(pr));
                say(say_opnd(say(say_opnd(say(p1, " double "@), a), ", "@), b), "\n"@)
            },
            Op::Select => {
                let p1 = say(say_opnd(say(say_def(p, dst), "select i1 "@), a), ", "@);
                let p2 = say(say_typed(p1, w.regs, b), ", "@);
                say(say_typed(p2, w.regs, arg(args, 2)), "\n"@)
            },
            Op::New(n) => say(
                say_num(say(say_def(p, dst), "call ptr @lumo_new(i64 "@), n as nat),
                ")\n"@,
            ),
            Op::NewTagged(n) => say(
                say_num(say(say_def(p, dst), "call ptr @lumo_new_tagged(i64 "@), n as nat),
                ")\n"@,
            ),
            Op::Slot(i) => {
                let p1 = say_opnd(
                    say(say_def(p, dst), "getelementptr inbounds i64, ptr "@),
                    a,
                );
                say(say_num(say(p1, ", i64 "@), i as nat), "\n"@)
            },
            Op::Offset => {
                let p1 = say_opnd(say(say_def(p, dst), "getelementptr inbounds i8, ptr "@), a);
                say(say_opnd(say(p1, ", i64 "@), b), "\n"@)
            },
            Op::Load(t) => {
                let p1 = say(say(say(say_def(p, dst), "load "@), ty_text(t)), ", ptr "@);
                say(say_opnd(p1, a), "\n"@)
            },
            Op::LoadByte => {
                let p1 = say(say_num(say(p, "  %r"@), dst), ".b = load i8, ptr "@);
                let p2 = say(say_opnd(p1, a), "\n"@);
                say(say_num(say(say_def(p2, dst), "zext i8 %r"@), dst), ".b to i64\n"@)
            },
            Op::Store => say(say_opnd(say_store(p, w, b), a), "\n"@),
            Op::StoreByte => {
                let p1 = say(say_num(say(p, "  %r"@), dst), ".b = trunc i64 "@);
                let p2 = say(say_opnd(p1, b), " to i8\n  store i8 %r"@);
                say(say_opnd(say(say_num(p2, dst), ".b, ptr "@), a), "\n"@)
            },
            Op::GetVar(i) => {
                let p1 = say(say(say_def(p, dst), "load "@), ty_text(ty_at(w.slots, i as int)));
                say(say_num(say(p1, ", ptr %v"@), i as nat), "\n"@)
            },
            Op::SetVar(i) => say(say_num(say(say_store(p, w, a), "%v"@), i as nat), "\n"@),
            Op::Rt(f) => say_call(p, w, dst, rt_text(f), args),
            _ => p,
        },
    }
}

pub open spec fn hex_digit(n: int) -> char {
    if n < 10 {
        ('0' as u32 + n) as char
    } else {
        ('A' as u32 + (n - 10)) as char
    }
}

/// A byte between double quotes: as it is, or as a backslash and two digits.
pub open spec fn byte_text(b: u8) -> Seq<char> {
    if 32 <= b <= 126 && b != 34 && b != 92 {
        seq![b as char]
    } else {
        seq!['\\', hex_digit(b as int / 16), hex_digit(b as int % 16)]
    }
}

/// The bytes from `i` on between double quotes.
pub open spec fn say_bytes(p: Page, bytes: Seq<u8>, i: int) -> Page
    decreases bytes.len() - i,
{
    if !(0 <= i < bytes.len()) {
        p
    } else {
        say_bytes(say(p, byte_text(bytes[i])), bytes, i + 1)
    }
}

/// A character that a name can hold without quotes.
pub open spec fn is_plain_char(c: char) -> bool {
    'a' <= c <= 'z' || 'A' <= c <= 'Z' || '0' <= c <= '9' || c == '_'
}

/// A name that needs no quotes.
pub open spec fn is_plain(name: Seq<char>) -> bool {
    forall|i: int| 0 <= i < name.len() ==> is_plain_char(#[trigger] name[i])
}

/// A name that starts as those of functions do that are no part of the program.
pub open spec fn is_taken(name: Seq<char>) -> bool {
    name.len() >= 5 && name[0] == 'l' && name[1] == 'u' && name[2] == 'm' && name[3] == 'o'
        && name[4] == '_'
}

/// The name of a function of the program.
pub open spec fn say_name(p: Page, name: Seq<char>) -> Page {
    if is_taken(name) {
        say(say_bytes(say(p, "\"fn."@), encode_utf8(name), 0), "\""@)
    } else if is_plain(name) {
        say(p, name)
    } else {
        say(say_bytes(say(p, "\""@), encode_utf8(name), 0), "\""@)
    }
}

/// How a function of the program starts.
pub open spec fn define_text(name: Seq<char>) -> Seq<char> {
    if name == "main"@ {
        "define "@
    } else {
        "define internal "@
    }
}

/// The name of the function at an index, if there is one.
pub open spec fn name_at(funcs: Seq<Seq<char>>, i: int) -> Seq<char> {
    if 0 <= i < funcs.len() {
        funcs[i]
    } else {
        "main"@
    }
}

pub open spec fn say_inst(p: Page, w: Around, x: InstV) -> Page {
    match x {
        InstV::Op { dst, op, args } => say_op(p, w, dst, op, args),
        InstV::Call { dst, func, args } => {
            let p1 = say(say(say_def(p, dst), "call "@), ty_text(ty_at(w.regs, dst as int)));
            let p2 = say_name(say(p1, " @"@), name_at(w.funcs, func as int));
            say(say_args(say(p2, "("@), w.regs, args, 0), ")\n"@)
        },
    }
}

/// The instructions from `i` on.
pub open spec fn say_insts(p: Page, w: Around, xs: Seq<InstV>, i: int) -> Page
    decreases xs.len() - i,
{
    if !(0 <= i < xs.len()) {
        p
    } else {
        say_insts(say_inst(p, w, xs[i]), w, xs, i + 1)
    }
}

/// The tags from `i` on, with the blocks that they lead to.
pub open spec fn say_cases(p: Page, tags: Seq<usize>, targets: Seq<nat>, i: int) -> Page
    decreases tags.len() - i,
{
    if !(0 <= i < tags.len() && i < targets.len()) {
        p
    } else {
        let p1 = say(say_num(say(p, " i64 "@), tags[i] as nat), ", label %b"@);
        say_cases(say_num(p1, targets[i]), tags, targets, i + 1)
    }
}

/// The end of a block.
pub open spec fn say_term(p: Page, w: Around, t: TermV) -> Page {
    match t {
        TermV::Jump(b) => say(say_num(say(p, "  br label %b"@), b), "\n"@),
        TermV::Branch { cond, then, els } => {
            let p1 = say(say_opnd(say(p, "  br i1 "@), cond), ", label %b"@);
            say(say_num(say(say_num(p1, then), ", label %b"@), els), "\n"@)
        },
        TermV::Switch { on, tags, targets, default } => {
            let p1 = say(say_opnd(say(p, "  switch i64 "@), on), ", label %b"@);
            say(say_cases(say(say_num(p1, default), " ["@), tags, targets, 0), " ]\n"@)
        },
        TermV::Return(v) => {
            let p1 = say(say(say(p, "  ret "@), ty_text(w.ret)), " "@);
            say(say_opnd(p1, v), "\n"@)
        },
        TermV::Panic(m) => say(
            say_opnd(say(p, "  call void @lumo_panic(ptr "@), OpndV::Str(m)),
            ")\n  unreachable\n"@,
        ),
    }
}

/// The blocks from `i` on.
pub open spec fn say_blocks(p: Page, w: Around, bs: Seq<BlockV>, i: int) -> Page
    decreases bs.len() - i,
{
    if !(0 <= i < bs.len()) {
        p
    } else {
        let p1 = say(say_num(say(p, "b"@), i as nat), ":\n"@);
        say_blocks(say_term(say_insts(p1, w, bs[i].insts, 0), w, bs[i].term), w, bs, i + 1)
    }
}

/// The parameters from `i` on.
pub open spec fn say_params(p: Page, ts: Seq<IrTy>, i: int) -> Page
    decreases ts.len() - i,
{
    if !(0 <= i < ts.len()) {
        p
    } else {
        let q = if i == 0 {
            p
        } else {
            say(p, ", "@)
        };
        say_params(say_num(say(say(q, ty_text(ts[i])), " %p"@), i as nat), ts, i + 1)
    }
}

/// Room for the variables from `i` on.
pub open spec fn say_slots(p: Page, ts: Seq<IrTy>, i: int) -> Page
    decreases ts.len() - i,
{
    if !(0 <= i < ts.len()) {
        p
    } else {
        let p1 = say(say_num(say(p, "  %v"@), i as nat), " = alloca "@);
        say_slots(say(say(p1, ty_text(ts[i])), "\n"@), ts, i + 1)
    }
}

/// Puts the parameters from `i` on into their variables.
pub open spec fn say_spills(p: Page, ts: Seq<IrTy>, i: int) -> Page
    decreases ts.len() - i,
{
    if !(0 <= i < ts.len()) {
        p
    } else {
        let p1 = say(say(say(p, "  store "@), ty_text(ts[i])), " %p"@);
        let p2 = say(say_num(p1, i as nat), ", ptr %v"@);
        say_spills(say(say_num(p2, i as nat), "\n"@), ts, i + 1)
    }
}

/// A function.
pub open spec fn say_func(p: Page, f: FlatFuncV, funcs: Seq<Seq<char>>) -> Page {
    let w = Around { regs: f.regs, slots: f.slots, ret: f.ret, funcs };
    let p1 = say(say(say(p, define_text(f.name)), ty_text(f.ret)), " @"@);
    let p2 = say_params(say(say_name(p1, f.name), "("@), f.params, 0);
    let p3 = say_slots(say(p2, ") \"no-builtins\" {\nentry:\n"@), f.slots, 0);
    let p4 = say(say_spills(p3, f.params, 0), "  br label %b0\n"@);
    say(say_blocks(p4, w, f.blocks, 0), "}\n"@)
}

/// The functions from `i` on.
pub open spec fn say_funcs(p: Page, fs: Seq<FlatFuncV>, funcs: Seq<Seq<char>>, i: int) -> Page
    decreases fs.len() - i,
{
    if !(0 <= i < fs.len()) {
        p
    } else {
        say_funcs(say_func(p, fs[i], funcs), fs, funcs, i + 1)
    }
}

/// The types from `i` on.
pub open spec fn say_types(p: Page, ts: Seq<IrTy>, i: int) -> Page
    decreases ts.len() - i,
{
    if !(0 <= i < ts.len()) {
        p
    } else {
        let q = if i == 0 {
            p
        } else {
            say(p, ", "@)
        };
        say_types(say(q, ty_text(ts[i])), ts, i + 1)
    }
}

/// The declarations from `i` on of functions that are no part of the program.
pub open spec fn say_decls(p: Page, fs: Seq<Rt>, i: int) -> Page
    decreases fs.len() - i,
{
    if !(0 <= i < fs.len()) {
        p
    } else {
        let (params, ret) = rt_sig(fs[i]);
        let p1 = say(say(say(p, "declare "@), ty_text(ret)), " @"@);
        let p2 = say(say(p1, rt_text(fs[i])), "("@);
        say_decls(say(say_types(p2, params, 0), ")\n"@), fs, i + 1)
    }
}

/// The string constants from `i` on, each with a zero after it.
pub open spec fn say_strs(p: Page, strs: Seq<Seq<char>>, i: int) -> Page
    decreases strs.len() - i,
{
    if !(0 <= i < strs.len()) {
        p
    } else {
        let p1 = say(
            say_num(say(p, "@.s"@), i as nat),
            " = private unnamed_addr constant ["@,
        );
        let p2 = say(say_num(p1, byte_len(strs[i]) + 1), " x i8] c\""@);
        say_strs(say(say_bytes(p2, encode_utf8(strs[i]), 0), "\\00\"\n"@), strs, i + 1)
    }
}

/// The names of the functions.
pub open spec fn names_of(fs: Seq<FlatFuncV>) -> Seq<Seq<char>> {
    Seq::new(fs.len(), |i: int| fs[i].name)
}

/// The text of a program.
pub open spec fn module_text(fs: Seq<FlatFuncV>) -> Seq<char> {
    let start = say(
        Page { text: Seq::empty(), strs: Seq::empty() },
        "declare ptr @lumo_new(i64)\ndeclare ptr @lumo_new_tagged(i64)\ndeclare void @lumo_panic(ptr)\n"@,
    );
    let p = say_funcs(say_decls(start, all_rts(), 0), fs, names_of(fs), 0);
    say_strs(p, p.strs, 0).text
}

// Writing the text.

struct Printer {
    text: String,
    strs: Vec<String>,
}

impl View for Printer {
    type V = Page;

    closed spec fn view(&self) -> Page {
        Page { text: self.text@, strs: Seq::new(self.strs@.len(), |i: int| self.strs@[i]@) }
    }
}

struct Context<'a> {
    f: &'a FlatFunc,
    all: &'a Vec<FlatFunc>,
}

spec fn around(f: FlatFuncV, all: Seq<FlatFunc>) -> Around {
    Around { regs: f.regs, slots: f.slots, ret: f.ret, funcs: names_of(flats_view(all)) }
}

pub open spec fn flats_view(v: Seq<FlatFunc>) -> Seq<FlatFuncV> {
    Seq::new(v.len(), |i: int| v[i]@)
}

impl<'a> View for Context<'a> {
    type V = Around;

    closed spec fn view(&self) -> Around {
        around(self.f@, self.all@)
    }
}

fn taken(name: &str) -> (r: bool)
    ensures
        r == is_taken(name@),
{
    name.unicode_len() >= 5 && name.get_char(0) == 'l' && name.get_char(1) == 'u'
        && name.get_char(2) == 'm' && name.get_char(3) == 'o' && name.get_char(4) == '_'
}

fn plain(name: &str) -> (r: bool)
    ensures
        r == is_plain(name@),
{
    let n: usize = name.unicode_len();
    let mut i: usize = 0;
    while i < n
        invariant
            i <= n,
            n == name@.len(),
            forall|j: int| 0 <= j < i ==> is_plain_char(#[trigger] name@[j]),
        decreases n - i,
    {
        let c = name.get_char(i);
        if !(('a' <= c && c <= 'z') || ('A' <= c && c <= 'Z') || ('0' <= c && c <= '9') || c
            == '_') {
            assert(!is_plain_char(name@[i as int]));
            return false;
        }
        i += 1;
    }
    true
}

fn type_text(t: IrTy) -> (s: &'static str)
    ensures
        s@ == ty_text(t),
{
    match t {
        IrTy::I64 => "i64",
        IrTy::I1 => "i1",
        IrTy::F64 => "double",
        IrTy::Ptr => "ptr",
    }
}

fn type_at(ts: &Vec<IrTy>, i: usize) -> (t: IrTy)
    ensures
        t == ty_at(ts@, i as int),
{
    if i < ts.len() {
        ts[i]
    } else {
        IrTy::I64
    }
}

fn opnd_type(regs: &Vec<IrTy>, v: &Opnd) -> (t: IrTy)
    ensures
        t == opnd_ty(regs@, v@),
{
    match v {
        Opnd::Reg(r) => type_at(regs, *r),
        Opnd::Int(_) => IrTy::I64,
        Opnd::Size(_) => IrTy::I64,
        Opnd::Bool(_) => IrTy::I1,
        Opnd::Float(_) => IrTy::F64,
        Opnd::Str(_) => IrTy::Ptr,
        Opnd::Null => IrTy::Ptr,
    }
}

fn pred_name(p: Pred) -> (s: &'static str)
    ensures
        s@ == pred_text(p),
{
    match p {
        Pred::Eq => "eq",
        Pred::Ne => "ne",
        Pred::Lt => "slt",
        Pred::Le => "sle",
        Pred::Gt => "sgt",
        Pred::Ge => "sge",
        Pred::Below => "ult",
        Pred::AtLeast => "uge",
    }
}

fn float_pred_name(p: Pred) -> (s: &'static str)
    ensures
        s@ == float_pred_text(p),
{
    match p {
        Pred::Eq => "oeq",
        Pred::Ne => "one",
        Pred::Lt => "olt",
        Pred::Le => "ole",
        Pred::Gt => "ogt",
        Pred::Ge => "oge",
        Pred::Below => "olt",
        Pred::AtLeast => "oge",
    }
}

/// The name of a function that is no part of the program.
pub fn rt_name(f: Rt) -> (s: &'static str)
    ensures
        s@ == rt_text(f),
{
    match f {
        Rt::Alloc => "lumo_alloc",
        Rt::Realloc => "lumo_realloc",
        Rt::StrLen => "lumo_str_len",
        Rt::StrCpy => "lumo_str_cpy",
        Rt::StrCat => "lumo_str_cat",
        Rt::StrCmp => "lumo_str_cmp",
        Rt::FormatInt => "lumo_format_int",
        Rt::FormatFloat => "lumo_format_float",
        Rt::ParseInt => "lumo_parse_int",
        Rt::ParseFloat => "lumo_parse_float",
        Rt::IsInt => "lumo_is_int",
        Rt::IsFloat => "lumo_is_float",
        Rt::Sqrt => "lumo_sqrt",
        Rt::Floor => "lumo_floor",
        Rt::Ceil => "lumo_ceil",
        Rt::Fabs => "lumo_fabs",
        Rt::MinNum => "lumo_min_num",
        Rt::MaxNum => "lumo_max_num",
        Rt::Pow => "lumo_pow",
        Rt::PrintInt => "lumo_print_int",
        Rt::PrintFloat => "lumo_print_float",
        Rt::PrintStr => "lumo_print_str",
        Rt::Fgets => "lumo_read_line",
        Rt::NewlinePos => "lumo_newline_pos",
        Rt::ReadFile => "lumo_read_file",
        Rt::WriteFile => "lumo_write_file",
        Rt::Substr => "lumo_substr",
        Rt::Split => "lumo_split",
        Rt::Join => "lumo_join",
        Rt::ToCase => "lumo_to_case",
        Rt::Trim => "lumo_trim",
        Rt::Find => "lumo_find",
        Rt::HasAffix => "lumo_has_affix",
        Rt::Repeat => "lumo_repeat",
        Rt::ArraySlice => "lumo_array_slice",
        Rt::SortInt => "lumo_sort_int",
        Rt::SortFloat => "lumo_sort_float",
        Rt::SortStr => "lumo_sort_str",
        Rt::Reverse => "lumo_array_reverse",
        Rt::StrHash => "lumo_str_hash",
        Rt::MapNew => "lumo_map_new",
        Rt::MapPut => "lumo_map_put",
        Rt::MapGet => "lumo_map_get",
        Rt::MapHas => "lumo_map_has",
        Rt::MapDel => "lumo_map_del",
        Rt::MapKeys => "lumo_map_keys",
    }
}

fn rt_types(f: Rt) -> (r: (Vec<IrTy>, IrTy))
    ensures
        (r.0@, r.1) == rt_sig(f),
{
    match f {
        Rt::Alloc => (vec![IrTy::I64], IrTy::Ptr),
        Rt::Realloc => (vec![IrTy::Ptr, IrTy::I64], IrTy::Ptr),
        Rt::StrLen => (vec![IrTy::Ptr], IrTy::I64),
        Rt::StrCpy => (vec![IrTy::Ptr, IrTy::Ptr], IrTy::Ptr),
        Rt::StrCat => (vec![IrTy::Ptr, IrTy::Ptr], IrTy::Ptr),
        Rt::StrCmp => (vec![IrTy::Ptr, IrTy::Ptr], IrTy::I64),
        Rt::FormatInt => (vec![IrTy::Ptr, IrTy::I64, IrTy::I64], IrTy::Ptr),
        Rt::FormatFloat => (vec![IrTy::Ptr, IrTy::I64, IrTy::F64], IrTy::Ptr),
        Rt::ParseInt => (vec![IrTy::Ptr], IrTy::I64),
        Rt::ParseFloat => (vec![IrTy::Ptr], IrTy::F64),
        Rt::IsInt => (vec![IrTy::Ptr], IrTy::I1),
        Rt::IsFloat => (vec![IrTy::Ptr], IrTy::I1),
        Rt::Sqrt => (vec![IrTy::F64], IrTy::F64),
        Rt::Floor => (vec![IrTy::F64], IrTy::F64),
        Rt::Ceil => (vec![IrTy::F64], IrTy::F64),
        Rt::Fabs => (vec![IrTy::F64], IrTy::F64),
        Rt::MinNum => (vec![IrTy::F64, IrTy::F64], IrTy::F64),
        Rt::MaxNum => (vec![IrTy::F64, IrTy::F64], IrTy::F64),
        Rt::Pow => (vec![IrTy::F64, IrTy::F64], IrTy::F64),
        Rt::PrintInt => (vec![IrTy::I64], IrTy::I64),
        Rt::PrintFloat => (vec![IrTy::F64], IrTy::I64),
        Rt::PrintStr => (vec![IrTy::Ptr], IrTy::I64),
        Rt::Fgets => (vec![IrTy::Ptr, IrTy::I64], IrTy::Ptr),
        Rt::NewlinePos => (vec![IrTy::Ptr], IrTy::I64),
        Rt::ReadFile => (vec![IrTy::Ptr], IrTy::Ptr),
        Rt::WriteFile => (vec![IrTy::Ptr, IrTy::Ptr], IrTy::I1),
        Rt::Substr => (vec![IrTy::Ptr, IrTy::I64, IrTy::I64], IrTy::Ptr),
        Rt::Split => (vec![IrTy::Ptr, IrTy::Ptr], IrTy::Ptr),
        Rt::Join => (vec![IrTy::Ptr, IrTy::Ptr], IrTy::Ptr),
        Rt::ToCase => (vec![IrTy::Ptr, IrTy::I1], IrTy::Ptr),
        Rt::Trim => (vec![IrTy::Ptr], IrTy::Ptr),
        Rt::Find => (vec![IrTy::Ptr, IrTy::Ptr], IrTy::I64),
        Rt::HasAffix => (vec![IrTy::Ptr, IrTy::Ptr, IrTy::I1], IrTy::I1),
        Rt::Repeat => (vec![IrTy::Ptr, IrTy::I64], IrTy::Ptr),
        Rt::ArraySlice => (vec![IrTy::Ptr, IrTy::I64, IrTy::I64], IrTy::Ptr),
        Rt::SortInt => (vec![IrTy::Ptr], IrTy::Ptr),
        Rt::SortFloat => (vec![IrTy::Ptr], IrTy::Ptr),
        Rt::SortStr => (vec![IrTy::Ptr], IrTy::Ptr),
        Rt::Reverse => (vec![IrTy::Ptr], IrTy::Ptr),
        Rt::StrHash => (vec![IrTy::Ptr], IrTy::I64),
        Rt::MapNew => (vec![], IrTy::Ptr),
        Rt::MapPut => (vec![IrTy::Ptr, IrTy::Ptr, IrTy::I64, IrTy::I64], IrTy::I64),
        Rt::MapGet => (vec![IrTy::Ptr, IrTy::Ptr, IrTy::I64], IrTy::I64),
        Rt::MapHas => (vec![IrTy::Ptr, IrTy::Ptr, IrTy::I64], IrTy::I1),
        Rt::MapDel => (vec![IrTy::Ptr, IrTy::Ptr, IrTy::I64], IrTy::I64),
        Rt::MapKeys => (vec![IrTy::Ptr], IrTy::Ptr),
    }
}

fn two_name(op: Op) -> (r: Option<&'static str>)
    ensures
        match r {
            Some(s) => two_text(op) == Some(s@),
            None => two_text(op) is None,
        },
{
    match op {
        Op::Add => Some("add i64 "),
        Op::Sub => Some("sub i64 "),
        Op::Mul => Some("mul i64 "),
        Op::SDiv => Some("sdiv i64 "),
        Op::SRem => Some("srem i64 "),
        Op::And => Some("and i64 "),
        Op::Or => Some("or i64 "),
        Op::Xor => Some("xor i64 "),
        Op::FAdd => Some("fadd double "),
        Op::FSub => Some("fsub double "),
        Op::FMul => Some("fmul double "),
        Op::FDiv => Some("fdiv double "),
        Op::Both => Some("and i1 "),
        _ => None,
    }
}

fn one_names(op: Op) -> (r: Option<(&'static str, &'static str)>)
    ensures
        match r {
            Some((a, b)) => one_text(op) == Some((a@, b@)),
            None => one_text(op) is None,
        },
{
    match op {
        Op::Neg => Some(("sub i64 0, ", "\n")),
        Op::BitNot => Some(("xor i64 ", ", -1\n")),
        Op::FNeg => Some(("fneg double ", "\n")),
        Op::Not => Some(("xor i1 ", ", true\n")),
        Op::SiToFp => Some(("sitofp i64 ", " to double\n")),
        Op::FpToSi => Some(("fptosi double ", " to i64\n")),
        Op::BoolToSlot => Some(("zext i1 ", " to i64\n")),
        Op::SlotToBool => Some(("icmp ne i64 ", ", 0\n")),
        Op::FloatToSlot => Some(("bitcast double ", " to i64\n")),
        Op::SlotToFloat => Some(("bitcast i64 ", " to double\n")),
        Op::PtrToSlot => Some(("ptrtoint ptr ", " to i64\n")),
        Op::SlotToPtr => Some(("inttoptr i64 ", " to ptr\n")),
        Op::IsNull => Some(("icmp eq ptr ", ", null\n")),
        _ => None,
    }
}

fn hex_char(n: u8) -> (c: char)
    requires
        n < 16,
    ensures
        c == hex_digit(n as int),
{
    match n {
        0 => '0',
        1 => '1',
        2 => '2',
        3 => '3',
        4 => '4',
        5 => '5',
        6 => '6',
        7 => '7',
        8 => '8',
        9 => '9',
        10 => 'A',
        11 => 'B',
        12 => 'C',
        13 => 'D',
        14 => 'E',
        _ => 'F',
    }
}

fn copy_text(s: &String) -> (r: String)
    ensures
        r@ == s@,
{
    s.clone()
}

impl Printer {
    fn say(&mut self, s: &str)
        ensures
            final(self)@ == say(old(self)@, s@),
    {
        self.text.append(s);
        assert(self@.strs =~= old(self)@.strs);
    }

    fn say_num(&mut self, n: usize)
        ensures
            final(self)@ == say_num(old(self)@, n as nat),
    {
        append_dec(&mut self.text, n as u64);
        assert(self@.strs =~= old(self)@.strs);
    }

    /// The number after `n`.
    fn say_next(&mut self, n: usize)
        ensures
            final(self)@ == say_num(old(self)@, n as nat + 1),
    {
        if n < usize::MAX {
            self.say_num(n + 1);
        } else {
            let m: u128 = n as u128 + 1;
            append_dec(&mut self.text, (m / 10) as u64);
            self.text.push(crate::text::digit_of((m % 10) as u64));
            proof {
                assert(self@.text =~= say_num(old(self)@, n as nat + 1).text);
                assert(self@.strs =~= old(self)@.strs);
            }
        }
    }

    fn say_opnd(&mut self, v: &Opnd)
        ensures
            final(self)@ == say_opnd(old(self)@, v@),
    {
        match v {
            Opnd::Reg(r) => {
                self.say("%r");
                self.say_num(*r);
            },
            Opnd::Int(n) => {
                append_int(&mut self.text, *n);
                assert(self@.strs =~= old(self)@.strs);
            },
            Opnd::Size(n) => self.say_num(*n),
            Opnd::Bool(b) => self.say(
                if *b {
                    "true"
                } else {
                    "false"
                },
            ),
            Opnd::Float(s) => self.say(s.as_str()),
            Opnd::Str(s) => self.say_str(s.as_str()),
            Opnd::Null => self.say("null"),
        }
    }

    fn say_str(&mut self, s: &str)
        ensures
            final(self)@ == say_opnd(old(self)@, OpndV::Str(s@)),
    {
        self.say("@.s");
        let n: usize = self.strs.len();
        self.say_num(n);
        let ghost before = self@.strs;
        self.strs.push(s.to_string());
        assert(self@.strs =~= before.push(s@));
    }

    /// The operand at an index, or null where there is none.
    fn say_arg(&mut self, args: &Vec<Opnd>, i: usize)
        ensures
            final(self)@ == say_opnd(old(self)@, arg(opnds_view(args@), i as int)),
    {
        if i < args.len() {
            self.say_opnd(&args[i]);
        } else {
            self.say("null");
        }
    }

    fn say_typed(&mut self, w: &Context, v: &Opnd)
        ensures
            final(self)@ == say_typed(old(self)@, w@.regs, v@),
    {
        self.say(type_text(opnd_type(&w.f.regs, v)));
        self.say(" ");
        self.say_opnd(v);
    }

    fn say_typed_arg(&mut self, w: &Context, args: &Vec<Opnd>, i: usize)
        ensures
            final(self)@ == say_typed(old(self)@, w@.regs, arg(opnds_view(args@), i as int)),
    {
        if i < args.len() {
            self.say_typed(w, &args[i]);
        } else {
            self.say_typed(w, &Opnd::Null);
        }
    }

    fn say_args(&mut self, w: &Context, args: &Vec<Opnd>)
        ensures
            final(self)@ == say_args(old(self)@, w@.regs, opnds_view(args@), 0),
    {
        let mut i: usize = 0;
        let ghost all = opnds_view(args@);
        let ghost want = say_args(self@, w@.regs, all, 0);
        while i < args.len()
            invariant
                0 <= i <= args@.len(),
                all == opnds_view(args@),
                want == say_args(self@, w@.regs, all, i as int),
            decreases args@.len() - i,
        {
            if i > 0 {
                self.say(", ");
            }
            self.say_typed(w, &args[i]);
            i += 1;
        }
    }

    fn say_def(&mut self, dst: usize)
        ensures
            final(self)@ == say_def(old(self)@, dst as nat),
    {
        self.say("  %r");
        self.say_num(dst);
        self.say(" = ");
    }

    fn say_shift(&mut self, dst: usize, what: &str, args: &Vec<Opnd>)
        ensures
            final(self)@ == say_shift(
                old(self)@,
                dst as nat,
                what@,
                arg(opnds_view(args@), 0),
                arg(opnds_view(args@), 1),
            ),
    {
        self.say("  %r");
        self.say_num(dst);
        self.say(".m = and i64 ");
        self.say_arg(args, 1);
        self.say(", 63\n");
        self.say_def(dst);
        self.say(what);
        self.say_arg(args, 0);
        self.say(", %r");
        self.say_num(dst);
        self.say(".m\n");
    }

    fn say_call(&mut self, w: &Context, dst: usize, name: &str, args: &Vec<Opnd>)
        ensures
            final(self)@ == say_call(old(self)@, w@, dst as nat, name@, opnds_view(args@)),
    {
        self.say_def(dst);
        self.say("call ");
        self.say(type_text(type_at(&w.f.regs, dst)));
        self.say(" @");
        self.say(name);
        self.say("(");
        self.say_args(w, args);
        self.say(")\n");
    }

    #[verifier::rlimit(40)]
    fn say_op(&mut self, w: &Context, dst: usize, op: Op, args: &Vec<Opnd>)
        ensures
            final(self)@ == say_op(old(self)@, w@, dst as nat, op, opnds_view(args@)),
    {
        if let Some(what) = two_name(op) {
            self.say_def(dst);
            self.say(what);
            self.say_arg(args, 0);
            self.say(", ");
            self.say_arg(args, 1);
            self.say("\n");
            return;
        }
        if let Some((what, after)) = one_names(op) {
            self.say_def(dst);
            self.say(what);
            self.say_arg(args, 0);
            self.say(after);
            return;
        }
        match op {
            Op::Shl => self.say_shift(dst, "shl i64 ", args),
            Op::AShr => self.say_shift(dst, "ashr i64 ", args),
            Op::ICmp(pr) => {
                self.say_def(dst);
                self.say("icmp ");
                self.say(pred_name(pr));
                self.say(" ");
                self.say_typed_arg(w, args, 0);
                self.say(", ");
                self.say_arg(args, 1);
                self.say("\n");
            },
            Op::FCmp(pr) => {
                self.say_def(dst);
                self.say("fcmp ");
                self.say(float_pred_name(pr));
                self.say(" double ");
                self.say_arg(args, 0);
                self.say(", ");
                self.say_arg(args, 1);
                self.say("\n");
            },
            Op::Select => {
                self.say_def(dst);
                self.say("select i1 ");
                self.say_arg(args, 0);
                self.say(", ");
                self.say_typed_arg(w, args, 1);
                self.say(", ");
                self.say_typed_arg(w, args, 2);
                self.say("\n");
            },
            Op::New(n) => {
                self.say_def(dst);
                self.say("call ptr @lumo_new(i64 ");
                self.say_num(n);
                self.say(")\n");
            },
            Op::NewTagged(n) => {
                self.say_def(dst);
                self.say("call ptr @lumo_new_tagged(i64 ");
                self.say_num(n);
                self.say(")\n");
            },
            Op::Slot(i) => {
                self.say_def(dst);
                self.say("getelementptr inbounds i64, ptr ");
                self.say_arg(args, 0);
                self.say(", i64 ");
                self.say_num(i);
                self.say("\n");
            },
            Op::Offset => {
                self.say_def(dst);
                self.say("getelementptr inbounds i8, ptr ");
                self.say_arg(args, 0);
                self.say(", i64 ");
                self.say_arg(args, 1);
                self.say("\n");
            },
            Op::Load(t) => {
                self.say_def(dst);
                self.say("load ");
                self.say(type_text(t));
                self.say(", ptr ");
                self.say_arg(args, 0);
                self.say("\n");
            },
            _ => self.say_access(w, dst, op, args),
        }
    }

    /// The instructions on bytes, variables and what is no part of the program.
    fn say_access(&mut self, w: &Context, dst: usize, op: Op, args: &Vec<Opnd>)
        requires
            two_text(op) is None,
            one_text(op) is None,
            !(op is Shl || op is AShr || op is ICmp || op is FCmp || op is Select || op is New
                || op is NewTagged || op is Slot || op is Offset || op is Load),
        ensures
            final(self)@ == say_op(old(self)@, w@, dst as nat, op, opnds_view(args@)),
    {
        match op {
            Op::LoadByte => {
                self.say("  %r");
                self.say_num(dst);
                self.say(".b = load i8, ptr ");
                self.say_arg(args, 0);
                self.say("\n");
                self.say_def(dst);
                self.say("zext i8 %r");
                self.say_num(dst);
                self.say(".b to i64\n");
            },
            Op::Store => {
                self.say("  store ");
                self.say_typed_arg(w, args, 1);
                self.say(", ptr ");
                self.say_arg(args, 0);
                self.say("\n");
            },
            Op::StoreByte => {
                self.say("  %r");
                self.say_num(dst);
                self.say(".b = trunc i64 ");
                self.say_arg(args, 1);
                self.say(" to i8\n  store i8 %r");
                self.say_num(dst);
                self.say(".b, ptr ");
                self.say_arg(args, 0);
                self.say("\n");
            },
            Op::GetVar(i) => {
                self.say_def(dst);
                self.say("load ");
                self.say(type_text(type_at(&w.f.slots, i)));
                self.say(", ptr %v");
                self.say_num(i);
                self.say("\n");
            },
            Op::SetVar(i) => {
                self.say("  store ");
                self.say_typed_arg(w, args, 0);
                self.say(", ptr ");
                self.say("%v");
                self.say_num(i);
                self.say("\n");
            },
            Op::Rt(f) => self.say_call(w, dst, rt_name(f), args),
            _ => {},
        }
    }

    fn say_bytes(&mut self, s: &str)
        ensures
            final(self)@ == say_bytes(old(self)@, encode_utf8(s@), 0),
    {
        let bytes = s.as_bytes();
        let ghost all = encode_utf8(s@);
        let ghost want = say_bytes(self@, all, 0);
        let mut i: usize = 0;
        while i < bytes.len()
            invariant
                0 <= i <= bytes@.len(),
                bytes@ == all,
                want == say_bytes(self@, all, i as int),
            decreases bytes@.len() - i,
        {
            let b = bytes[i];
            let ghost before = self@;
            if 32 <= b && b <= 126 && b != 34 && b != 92 {
                self.text.push(b as char);
            } else {
                self.text.push('\\');
                self.text.push(hex_char(b / 16));
                self.text.push(hex_char(b % 16));
            }
            proof {
                assert(self@.text =~= before.text + byte_text(b));
                assert(self@.strs =~= before.strs);
            }
            i += 1;
        }
    }

    fn say_name(&mut self, name: &str)
        ensures
            final(self)@ == say_name(old(self)@, name@),
    {
        if taken(name) {
            self.say("\"fn.");
            self.say_bytes(name);
            self.say("\"");
        } else if plain(name) {
            self.say(name);
        } else {
            self.say("\"");
            self.say_bytes(name);
            self.say("\"");
        }
    }

    fn say_inst(&mut self, w: &Context, x: &Inst)
        ensures
            final(self)@ == say_inst(old(self)@, w@, x@),
    {
        match x {
            Inst::Op { dst, op, args } => self.say_op(w, *dst, *op, args),
            Inst::Call { dst, func, args } => {
                self.say_def(*dst);
                self.say("call ");
                self.say(type_text(type_at(&w.f.regs, *dst)));
                self.say(" @");
                if *func < w.all.len() {
                    self.say_name(w.all[*func].name.as_str());
                } else {
                    self.say_name("main");
                }
                self.say("(");
                self.say_args(w, args);
                self.say(")\n");
            },
        }
    }

    fn say_term(&mut self, w: &Context, t: &Term)
        ensures
            final(self)@ == say_term(old(self)@, w@, t@),
    {
        match t {
            Term::Jump(b) => {
                self.say("  br label %b");
                self.say_num(*b);
                self.say("\n");
            },
            Term::Branch { cond, then, els } => {
                self.say("  br i1 ");
                self.say_opnd(cond);
                self.say(", label %b");
                self.say_num(*then);
                self.say(", label %b");
                self.say_num(*els);
                self.say("\n");
            },
            Term::Switch { on, tags, targets, default } => {
                self.say("  switch i64 ");
                self.say_opnd(on);
                self.say(", label %b");
                self.say_num(*default);
                self.say(" [");
                self.say_cases(tags, targets);
                self.say(" ]\n");
            },
            Term::Return(v) => {
                self.say("  ret ");
                self.say(type_text(w.f.ret));
                self.say(" ");
                self.say_opnd(v);
                self.say("\n");
            },
            Term::Panic(m) => {
                self.say("  call void @lumo_panic(ptr ");
                self.say_str(*m);
                self.say(")\n  unreachable\n");
            },
        }
    }

    fn say_cases(&mut self, tags: &Vec<usize>, targets: &Vec<usize>)
        ensures
            final(self)@ == say_cases(old(self)@, tags@, targets_view(targets@), 0),
    {
        let ghost all = targets_view(targets@);
        let ghost want = say_cases(self@, tags@, all, 0);
        let mut i: usize = 0;
        while i < tags.len() && i < targets.len()
            invariant
                0 <= i <= tags@.len(),
                i <= targets@.len(),
                all == targets_view(targets@),
                want == say_cases(self@, tags@, all, i as int),
            decreases tags@.len() - i,
        {
            self.say(" i64 ");
            self.say_num(tags[i]);
            self.say(", label %b");
            self.say_num(targets[i]);
            i += 1;
        }
    }

    fn say_block(&mut self, w: &Context, b: &Block)
        ensures
            final(self)@ == say_term(
                say_insts(old(self)@, w@, b@.insts, 0),
                w@,
                b@.term,
            ),
    {
        let ghost all = b@.insts;
        let ghost want = say_insts(self@, w@, all, 0);
        let mut i: usize = 0;
        while i < b.insts.len()
            invariant
                0 <= i <= b.insts@.len(),
                all == insts_view(b.insts@),
                want == say_insts(self@, w@, all, i as int),
            decreases b.insts@.len() - i,
        {
            self.say_inst(w, &b.insts[i]);
            i += 1;
        }
        self.say_term(w, &b.term);
    }

    fn say_func(&mut self, w: &Context)
        ensures
            final(self)@ == say_func(old(self)@, w.f@, w@.funcs),
    {
        let f = w.f;
        if text_eq(f.name.as_str(), "main") {
            self.say("define ");
        } else {
            self.say("define internal ");
        }
        self.say(type_text(f.ret));
        self.say(" @");
        self.say_name(f.name.as_str());
        self.say("(");
        self.say_params(&f.params);
        self.say(") \"no-builtins\" {\nentry:\n");
        self.say_slots(&f.slots);
        self.say_spills(&f.params);
        self.say("  br label %b0\n");
        let ghost all = blocks_view(f.blocks@);
        let ghost want = say_blocks(self@, w@, all, 0);
        let mut i: usize = 0;
        while i < f.blocks.len()
            invariant
                0 <= i <= f.blocks@.len(),
                all == blocks_view(f.blocks@),
                want == say_blocks(self@, w@, all, i as int),
            decreases f.blocks@.len() - i,
        {
            self.say("b");
            self.say_num(i);
            self.say(":\n");
            self.say_block(w, &f.blocks[i]);
            i += 1;
        }
        self.say("}\n");
    }

    fn say_params(&mut self, ts: &Vec<IrTy>)
        ensures
            final(self)@ == say_params(old(self)@, ts@, 0),
    {
        let ghost want = say_params(self@, ts@, 0);
        let mut i: usize = 0;
        while i < ts.len()
            invariant
                0 <= i <= ts@.len(),
                want == say_params(self@, ts@, i as int),
            decreases ts@.len() - i,
        {
            if i > 0 {
                self.say(", ");
            }
            self.say(type_text(ts[i]));
            self.say(" %p");
            self.say_num(i);
            i += 1;
        }
    }

    fn say_slots(&mut self, ts: &Vec<IrTy>)
        ensures
            final(self)@ == say_slots(old(self)@, ts@, 0),
    {
        let ghost want = say_slots(self@, ts@, 0);
        let mut i: usize = 0;
        while i < ts.len()
            invariant
                0 <= i <= ts@.len(),
                want == say_slots(self@, ts@, i as int),
            decreases ts@.len() - i,
        {
            self.say("  %v");
            self.say_num(i);
            self.say(" = alloca ");
            self.say(type_text(ts[i]));
            self.say("\n");
            i += 1;
        }
    }

    fn say_spills(&mut self, ts: &Vec<IrTy>)
        ensures
            final(self)@ == say_spills(old(self)@, ts@, 0),
    {
        let ghost want = say_spills(self@, ts@, 0);
        let mut i: usize = 0;
        while i < ts.len()
            invariant
                0 <= i <= ts@.len(),
                want == say_spills(self@, ts@, i as int),
            decreases ts@.len() - i,
        {
            self.say("  store ");
            self.say(type_text(ts[i]));
            self.say(" %p");
            self.say_num(i);
            self.say(", ptr %v");
            self.say_num(i);
            self.say("\n");
            i += 1;
        }
    }

    fn say_decl(&mut self, f: Rt)
        ensures
            final(self)@ == ({
                let (params, ret) = rt_sig(f);
                let p1 = say(say(say(old(self)@, "declare "@), ty_text(ret)), " @"@);
                let p2 = say(say(p1, rt_text(f)), "("@);
                say(say_types(p2, params, 0), ")\n"@)
            }),
    {
        let (params, ret) = rt_types(f);
        self.say("declare ");
        self.say(type_text(ret));
        self.say(" @");
        self.say(rt_name(f));
        self.say("(");
        let ghost want = say_types(self@, params@, 0);
        let mut i: usize = 0;
        while i < params.len()
            invariant
                0 <= i <= params@.len(),
                want == say_types(self@, params@, i as int),
            decreases params@.len() - i,
        {
            if i > 0 {
                self.say(", ");
            }
            self.say(type_text(params[i]));
            i += 1;
        }
        self.say(")\n");
    }

    fn say_strs(&mut self)
        ensures
            final(self)@.text == say_strs(old(self)@, old(self)@.strs, 0).text,
    {
        let ghost all = self@.strs;
        let ghost want = say_strs(self@, all, 0);
        let mut i: usize = 0;
        while i < self.strs.len()
            invariant
                0 <= i <= self.strs@.len(),
                self@.strs == all,
                want == say_strs(self@, all, i as int),
            decreases self.strs@.len() - i,
        {
            let s = copy_text(&self.strs[i]);
            assert(s@ == all[i as int]);
            self.say("@.s");
            self.say_num(i);
            self.say(" = private unnamed_addr constant [");
            self.say_next(crate::text::utf8_len(s.as_str()));
            self.say(" x i8] c\"");
            proof {
                lemma_bytes_keep(self@, encode_utf8(s@), 0);
            }
            self.say_bytes(s.as_str());
            self.say("\\00\"\n");
            assert(self.strs@.len() == self@.strs.len());
            i += 1;
        }
    }
}

proof fn lemma_bytes_keep(p: Page, bytes: Seq<u8>, i: int)
    ensures
        say_bytes(p, bytes, i).strs == p.strs,
    decreases bytes.len() - i,
{
    if 0 <= i < bytes.len() {
        lemma_bytes_keep(say(p, byte_text(bytes[i])), bytes, i + 1);
    }
}

fn rts() -> (r: Vec<Rt>)
    ensures
        r@ == all_rts(),
{
    let r = vec![
        Rt::Alloc,
        Rt::Realloc,
        Rt::StrLen,
        Rt::StrCpy,
        Rt::StrCat,
        Rt::StrCmp,
        Rt::FormatInt,
        Rt::FormatFloat,
        Rt::ParseInt,
        Rt::ParseFloat,
        Rt::IsInt,
        Rt::IsFloat,
        Rt::Sqrt,
        Rt::Floor,
        Rt::Ceil,
        Rt::Fabs,
        Rt::MinNum,
        Rt::MaxNum,
        Rt::Pow,
        Rt::PrintInt,
        Rt::PrintFloat,
        Rt::PrintStr,
        Rt::Fgets,
        Rt::NewlinePos,
        Rt::ReadFile,
        Rt::WriteFile,
        Rt::Substr,
        Rt::Split,
        Rt::Join,
        Rt::ToCase,
        Rt::Trim,
        Rt::Find,
        Rt::HasAffix,
        Rt::Repeat,
        Rt::ArraySlice,
        Rt::SortInt,
        Rt::SortFloat,
        Rt::SortStr,
        Rt::Reverse,
        Rt::StrHash,
        Rt::MapNew,
        Rt::MapPut,
        Rt::MapGet,
        Rt::MapHas,
        Rt::MapDel,
        Rt::MapKeys,
    ];
    assert(r@ =~= all_rts());
    r
}

/// The text of a program.
pub fn assembly(fs: &Vec<FlatFunc>) -> (r: String)
    ensures
        r@ == module_text(flats_view(fs@)),
{
    let mut out = Printer { text: String::new(), strs: Vec::new() };
    assert(out@.strs =~= Seq::empty());
    assert(out@.text =~= Seq::empty());
    out.say(
        "declare ptr @lumo_new(i64)\ndeclare ptr @lumo_new_tagged(i64)\ndeclare void @lumo_panic(ptr)\n",
    );
    let decls = rts();
    let mut i: usize = 0;
    let ghost want = say_decls(out@, all_rts(), 0);
    while i < decls.len()
        invariant
            0 <= i <= decls@.len(),
            decls@ == all_rts(),
            want == say_decls(out@, all_rts(), i as int),
        decreases decls@.len() - i,
    {
        out.say_decl(decls[i]);
        i += 1;
    }
    let ghost all = flats_view(fs@);
    let ghost names = names_of(all);
    let ghost page = say_funcs(out@, all, names, 0);
    let mut j: usize = 0;
    while j < fs.len()
        invariant
            0 <= j <= fs@.len(),
            all == flats_view(fs@),
            names == names_of(all),
            page == say_funcs(out@, all, names, j as int),
        decreases fs@.len() - j,
    {
        let w = Context { f: &fs[j], all: fs };
        out.say_func(&w);
        j += 1;
    }
    out.say_strs();
    out.text
}

} // verus!
