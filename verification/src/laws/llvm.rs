//! What the instructions of LLVM do.
//!
//! This says what a line of the assembly language does by the words in it: what `sub i64`
//! does, what `icmp slt` compares, which function a call is of. It says nothing of how the
//! text was made.
use crate::ir::{IrTy, Op, Pred, Rt};
use vstd::prelude::*;
#[allow(unused_imports)]
use crate::ir::OpndV;
#[allow(unused_imports)]
use crate::laws::lines::Line;
#[allow(unused_imports)]
use crate::lexer::{digits_value, is_digit};
#[allow(unused_imports)]
use crate::meaning::{Base, Done};
#[allow(unused_imports)]
use crate::memory::heap::{
    allocated, divides, machine_op, number, quotient, remainder, unsigned, wrapped, zeros, Block,
    Heap, Word,
};

verus! {

/// The instructions.
pub ghost enum Mn {
    Add,
    Sub,
    Mul,
    Sdiv,
    Srem,
    And,
    Or,
    Xor,
    Shl,
    Ashr,
    Fadd,
    Fsub,
    Fmul,
    Fdiv,
    Fneg,
    IntTest,
    FloatTest,
    Select,
    Sitofp,
    Fptosi,
    Zext,
    Trunc,
    Bitcast,
    Ptrtoint,
    Inttoptr,
    Gep,
    Load,
    Call,
}

/// The instruction that a word names.
#[verifier::opaque]
pub open spec fn mnemonic(w: Seq<char>) -> Option<Mn> {
    if w == "add"@ {
        Some(Mn::Add)
    } else if w == "sub"@ {
        Some(Mn::Sub)
    } else if w == "mul"@ {
        Some(Mn::Mul)
    } else if w == "sdiv"@ {
        Some(Mn::Sdiv)
    } else if w == "srem"@ {
        Some(Mn::Srem)
    } else if w == "and"@ {
        Some(Mn::And)
    } else if w == "or"@ {
        Some(Mn::Or)
    } else if w == "xor"@ {
        Some(Mn::Xor)
    } else if w == "shl"@ {
        Some(Mn::Shl)
    } else if w == "ashr"@ {
        Some(Mn::Ashr)
    } else if w == "fadd"@ {
        Some(Mn::Fadd)
    } else if w == "fsub"@ {
        Some(Mn::Fsub)
    } else if w == "fmul"@ {
        Some(Mn::Fmul)
    } else if w == "fdiv"@ {
        Some(Mn::Fdiv)
    } else if w == "fneg"@ {
        Some(Mn::Fneg)
    } else if w == "icmp"@ {
        Some(Mn::IntTest)
    } else if w == "fcmp"@ {
        Some(Mn::FloatTest)
    } else if w == "select"@ {
        Some(Mn::Select)
    } else if w == "sitofp"@ {
        Some(Mn::Sitofp)
    } else if w == "fptosi"@ {
        Some(Mn::Fptosi)
    } else if w == "zext"@ {
        Some(Mn::Zext)
    } else if w == "trunc"@ {
        Some(Mn::Trunc)
    } else if w == "bitcast"@ {
        Some(Mn::Bitcast)
    } else if w == "ptrtoint"@ {
        Some(Mn::Ptrtoint)
    } else if w == "inttoptr"@ {
        Some(Mn::Inttoptr)
    } else if w == "getelementptr"@ {
        Some(Mn::Gep)
    } else if w == "load"@ {
        Some(Mn::Load)
    } else if w == "call"@ {
        Some(Mn::Call)
    } else {
        None
    }
}

/// The width of a type, in bits; a fraction has none here.
#[verifier::opaque]
pub open spec fn width(w: Seq<char>) -> int {
    if w == "i1"@ {
        1
    } else if w == "i8"@ {
        8
    } else if w == "i64"@ {
        64
    } else if w == "ptr"@ {
        -1
    } else {
        0
    }
}

/// What a comparison of numbers says: the sign counts where the name starts with `s`, and
/// not where it starts with `u`.
#[verifier::opaque]
pub open spec fn int_test(pred: Seq<char>, a: int, b: int) -> bool {
    if pred == "eq"@ {
        a == b
    } else if pred == "ne"@ {
        a != b
    } else if pred == "slt"@ {
        a < b
    } else if pred == "sle"@ {
        a <= b
    } else if pred == "sgt"@ {
        a > b
    } else if pred == "sge"@ {
        a >= b
    } else if pred == "ult"@ {
        unsigned(a) < unsigned(b)
    } else {
        pred == "uge"@ && unsigned(a) >= unsigned(b)
    }
}

/// Which comparison of fractions a name is.
#[verifier::opaque]
pub open spec fn float_test(pred: Seq<char>) -> Option<Pred> {
    if pred == "oeq"@ {
        Some(Pred::Eq)
    } else if pred == "one"@ {
        Some(Pred::Ne)
    } else if pred == "olt"@ {
        Some(Pred::Lt)
    } else if pred == "ole"@ {
        Some(Pred::Le)
    } else if pred == "ogt"@ {
        Some(Pred::Gt)
    } else if pred == "oge"@ {
        Some(Pred::Ge)
    } else {
        None
    }
}

/// The function of a name, of those that programs are linked with.
#[verifier::opaque]
pub open spec fn linked(w: Seq<char>) -> Option<Rt> {
    if w == "@lumo_alloc"@ {
        Some(Rt::Alloc)
    } else if w == "@lumo_realloc"@ {
        Some(Rt::Realloc)
    } else if w == "@lumo_str_len"@ {
        Some(Rt::StrLen)
    } else if w == "@lumo_str_cpy"@ {
        Some(Rt::StrCpy)
    } else if w == "@lumo_str_cat"@ {
        Some(Rt::StrCat)
    } else if w == "@lumo_str_cmp"@ {
        Some(Rt::StrCmp)
    } else if w == "@lumo_format_int"@ {
        Some(Rt::FormatInt)
    } else if w == "@lumo_format_float"@ {
        Some(Rt::FormatFloat)
    } else if w == "@lumo_parse_int"@ {
        Some(Rt::ParseInt)
    } else if w == "@lumo_parse_float"@ {
        Some(Rt::ParseFloat)
    } else if w == "@lumo_is_int"@ {
        Some(Rt::IsInt)
    } else if w == "@lumo_is_float"@ {
        Some(Rt::IsFloat)
    } else if w == "@lumo_sqrt"@ {
        Some(Rt::Sqrt)
    } else if w == "@lumo_floor"@ {
        Some(Rt::Floor)
    } else if w == "@lumo_ceil"@ {
        Some(Rt::Ceil)
    } else if w == "@lumo_fabs"@ {
        Some(Rt::Fabs)
    } else if w == "@lumo_min_num"@ {
        Some(Rt::MinNum)
    } else if w == "@lumo_max_num"@ {
        Some(Rt::MaxNum)
    } else if w == "@lumo_pow"@ {
        Some(Rt::Pow)
    } else if w == "@lumo_print_int"@ {
        Some(Rt::PrintInt)
    } else if w == "@lumo_print_float"@ {
        Some(Rt::PrintFloat)
    } else if w == "@lumo_print_str"@ {
        Some(Rt::PrintStr)
    } else if w == "@lumo_read_line"@ {
        Some(Rt::Fgets)
    } else {
        linked_on(w)
    }
}

#[verifier::opaque]
pub open spec fn linked_on(w: Seq<char>) -> Option<Rt> {
    if w == "@lumo_newline_pos"@ {
        Some(Rt::NewlinePos)
    } else if w == "@lumo_read_file"@ {
        Some(Rt::ReadFile)
    } else if w == "@lumo_write_file"@ {
        Some(Rt::WriteFile)
    } else if w == "@lumo_substr"@ {
        Some(Rt::Substr)
    } else if w == "@lumo_split"@ {
        Some(Rt::Split)
    } else if w == "@lumo_join"@ {
        Some(Rt::Join)
    } else if w == "@lumo_to_case"@ {
        Some(Rt::ToCase)
    } else if w == "@lumo_trim"@ {
        Some(Rt::Trim)
    } else if w == "@lumo_find"@ {
        Some(Rt::Find)
    } else if w == "@lumo_has_affix"@ {
        Some(Rt::HasAffix)
    } else if w == "@lumo_repeat"@ {
        Some(Rt::Repeat)
    } else if w == "@lumo_array_slice"@ {
        Some(Rt::ArraySlice)
    } else if w == "@lumo_sort_int"@ {
        Some(Rt::SortInt)
    } else if w == "@lumo_sort_float"@ {
        Some(Rt::SortFloat)
    } else if w == "@lumo_sort_str"@ {
        Some(Rt::SortStr)
    } else if w == "@lumo_array_reverse"@ {
        Some(Rt::Reverse)
    } else if w == "@lumo_str_hash"@ {
        Some(Rt::StrHash)
    } else if w == "@lumo_map_new"@ {
        Some(Rt::MapNew)
    } else if w == "@lumo_map_put"@ {
        Some(Rt::MapPut)
    } else if w == "@lumo_map_get"@ {
        Some(Rt::MapGet)
    } else if w == "@lumo_map_has"@ {
        Some(Rt::MapHas)
    } else if w == "@lumo_map_del"@ {
        Some(Rt::MapDel)
    } else if w == "@lumo_map_keys"@ {
        Some(Rt::MapKeys)
    } else {
        None
    }
}

/// Digits, with a minus sign before them or without.
pub open spec fn writes_int(w: Seq<char>) -> bool {
    let d = if w.len() > 0 && w[0] == '-' {
        w.drop_first()
    } else {
        w
    };
    d.len() > 0 && forall|i: int| 0 <= i < d.len() ==> is_digit(#[trigger] d[i])
}

pub open spec fn int_written(w: Seq<char>) -> int {
    if w.len() > 0 && w[0] == '-' {
        -(digits_value(w.drop_first()) as int)
    } else {
        digits_value(w) as int
    }
}

/// The names of registers, variables and constants, with what they hold.
pub type Env = Map<Seq<char>, Word>;

/// The value of an operand.
#[verifier::opaque]
pub open spec fn value(other: Base<Word, Heap>, env: Env, w: Seq<char>) -> Word {
    if w.len() > 0 && (w[0] == '%' || w[0] == '@') {
        env[w]
    } else if w == "true"@ {
        Word::Bit(true)
    } else if w == "false"@ {
        Word::Bit(false)
    } else if w == "null"@ {
        Word::Null
    } else if writes_int(w) {
        Word::Int(wrapped(int_written(w)))
    } else {
        (other.konst)(OpndV::Float(w))
    }
}

/// What comes of two numbers.
pub open spec fn ints(a: Word, b: Word, h: Heap, f: spec_fn(i64, i64) -> Done<Word, Heap>) -> Done<
    Word,
    Heap,
> {
    match (a, b) {
        (Word::Int(x), Word::Int(y)) => f(x, y),
        _ => Done::Stop(h),
    }
}

/// What comes of two truth values.
pub open spec fn bits(a: Word, b: Word, h: Heap, f: spec_fn(bool, bool) -> bool) -> Done<
    Word,
    Heap,
> {
    match (a, b) {
        (Word::Bit(x), Word::Bit(y)) => Done::Go(Word::Bit(f(x, y)), h),
        _ => Done::Stop(h),
    }
}

/// `add i64 a, b` and the like.
pub open spec fn arith(
    other: Base<Word, Heap>,
    mn: Mn,
    bits_wide: int,
    a: Word,
    b: Word,
    h: Heap,
) -> Done<Word, Heap> {
    match mn {
        Mn::Add => ints(a, b, h, |x: i64, y: i64| number(x + y, h)),
        Mn::Sub => ints(a, b, h, |x: i64, y: i64| number(x - y, h)),
        Mn::Mul => ints(a, b, h, |x: i64, y: i64| number(x * y, h)),
        Mn::Sdiv => ints(
            a,
            b,
            h,
            |x: i64, y: i64|
                if divides(x as int, y as int) {
                    number(quotient(x as int, y as int), h)
                } else {
                    (other.op)(Op::SDiv, seq![a, b], h)
                },
        ),
        Mn::Srem => ints(
            a,
            b,
            h,
            |x: i64, y: i64|
                if divides(x as int, y as int) {
                    number(remainder(x as int, y as int), h)
                } else {
                    (other.op)(Op::SRem, seq![a, b], h)
                },
        ),
        Mn::And => if bits_wide == 1 {
            bits(a, b, h, |x: bool, y: bool| x && y)
        } else {
            ints(a, b, h, |x: i64, y: i64| Done::Go(Word::Int(x & y), h))
        },
        Mn::Or => ints(a, b, h, |x: i64, y: i64| Done::Go(Word::Int(x | y), h)),
        Mn::Xor => if bits_wide == 1 {
            bits(a, b, h, |x: bool, y: bool| x != y)
        } else {
            ints(a, b, h, |x: i64, y: i64| Done::Go(Word::Int(x ^ y), h))
        },
        Mn::Shl => ints(
            a,
            b,
            h,
            |x: i64, y: i64|
                if 0 <= y < 64 {
                    Done::Go(Word::Int(x << (y as u64)), h)
                } else {
                    Done::Stop(h)
                },
        ),
        Mn::Ashr => ints(
            a,
            b,
            h,
            |x: i64, y: i64|
                if 0 <= y < 64 {
                    Done::Go(Word::Int(x >> (y as u64)), h)
                } else {
                    Done::Stop(h)
                },
        ),
        Mn::Fadd => (other.op)(Op::FAdd, seq![a, b], h),
        Mn::Fsub => (other.op)(Op::FSub, seq![a, b], h),
        Mn::Fmul => (other.op)(Op::FMul, seq![a, b], h),
        Mn::Fdiv => (other.op)(Op::FDiv, seq![a, b], h),
        _ => Done::Stop(h),
    }
}

/// `icmp pred type a, b`: numbers by their order, and places by whether they are the same.
pub open spec fn compare(pred: Seq<char>, bits_wide: int, a: Word, b: Word, h: Heap) -> Done<
    Word,
    Heap,
> {
    match (a, b) {
        (Word::Int(x), Word::Int(y)) => Done::Go(Word::Bit(int_test(pred, x as int, y as int)), h),
        _ => if bits_wide > 0 {
            Done::Stop(h)
        } else if pred == "eq"@ {
            Done::Go(Word::Bit(a == b), h)
        } else if pred == "ne"@ {
            Done::Go(Word::Bit(a != b), h)
        } else {
            Done::Stop(h)
        },
    }
}

/// A number of another width, or a value of another type.
pub open spec fn convert(other: Base<Word, Heap>, mn: Mn, bits_wide: int, a: Word, h: Heap) -> Done<
    Word,
    Heap,
> {
    match mn {
        Mn::Zext => match a {
            Word::Bit(x) => if bits_wide == 1 {
                Done::Go(
                    Word::Int(
                        if x {
                            1
                        } else {
                            0
                        },
                    ),
                    h,
                )
            } else {
                Done::Stop(h)
            },
            Word::Int(n) => if bits_wide == 8 {
                Done::Go(a, h)
            } else {
                Done::Stop(h)
            },
            _ => Done::Stop(h),
        },
        Mn::Trunc => match a {
            Word::Int(n) => Done::Go(Word::Int((n as int % 256) as i64), h),
            _ => Done::Stop(h),
        },
        Mn::Bitcast | Mn::Ptrtoint | Mn::Inttoptr => Done::Go(a, h),
        Mn::Sitofp => (other.op)(Op::SiToFp, seq![a], h),
        Mn::Fptosi => (other.op)(Op::FpToSi, seq![a], h),
        Mn::Fneg => (other.op)(Op::FNeg, seq![a], h),
        _ => Done::Stop(h),
    }
}

/// A place, so many things of a width further on.
pub open spec fn further(bits_wide: int, a: Word, n: Word, h: Heap) -> Done<Word, Heap> {
    match (a, n) {
        (Word::At(k, at), Word::Int(m)) => if bits_wide == 64 {
            Done::Go(Word::At(k, at + 8 * m), h)
        } else if bits_wide == 8 {
            Done::Go(Word::At(k, at + m), h)
        } else {
            Done::Stop(h)
        },
        _ => Done::Stop(h),
    }
}

/// The operands of a call, each behind its type.
pub open spec fn operands(other: Base<Word, Heap>, env: Env, ws: Line, i: int) -> Seq<Word>
    decreases ws.len() - i,
{
    if !(0 <= i && i + 1 < ws.len()) {
        Seq::empty()
    } else {
        seq![value(other, env, ws[i + 1])] + operands(other, env, ws, i + 2)
    }
}

/// The index of the function of the program of a name.
pub open spec fn defined(funcs: Seq<Seq<char>>, w: Seq<char>, i: int) -> int
    decreases funcs.len() - i,
{
    if !(0 <= i < funcs.len()) || funcs[i] == w {
        i
    } else {
        defined(funcs, w, i + 1)
    }
}

/// A call of a function of a name.
pub open spec fn called(
    other: Base<Word, Heap>,
    funcs: Seq<Seq<char>>,
    name: Seq<char>,
    args: Seq<Word>,
    h: Heap,
) -> Done<Word, Heap> {
    match linked(name) {
        Some(f) => machine_op(other, Op::Rt(f), args, h),
        None => if name == "@lumo_new"@ || name == "@lumo_new_tagged"@ {
            match args[0] {
                Word::Int(n) => {
                    let more: int = if name == "@lumo_new"@ {
                        0
                    } else {
                        1
                    };
                    allocated(Block::Slots(zeros((n + more) as nat)), h)
                },
                _ => Done::Stop(h),
            }
        } else {
            (other.call)(defined(funcs, name, 0) as nat, args, h)
        },
    }
}

/// The name of a variable.
pub open spec fn is_var(w: Seq<char>) -> bool {
    w.len() > 1 && w[0] == '%' && w[1] == 'v'
}

/// What comes of the instruction that these words are.
#[verifier::opaque]
pub open spec fn result(
    other: Base<Word, Heap>,
    funcs: Seq<Seq<char>>,
    ws: Line,
    env: Env,
    h: Heap,
) -> Done<Word, Heap> {
    let v = |i: int| value(other, env, ws[i]);
    match mnemonic(ws[0]) {
        Some(Mn::IntTest) => compare(ws[1], width(ws[2]), v(3), v(4), h),
        Some(Mn::FloatTest) => match float_test(ws[1]) {
            Some(pred) => (other.op)(Op::FCmp(pred), seq![v(3), v(4)], h),
            None => Done::Stop(h),
        },
        Some(Mn::Select) => match v(2) {
            Word::Bit(c) => Done::Go(
                if c {
                    v(4)
                } else {
                    v(6)
                },
                h,
            ),
            _ => Done::Stop(h),
        },
        Some(Mn::Gep) => further(width(ws[2]), v(4), v(6), h),
        Some(Mn::Load) => if is_var(ws[3]) {
            Done::Go(env[ws[3]], h)
        } else if width(ws[1]) == 8 {
            machine_op(other, Op::LoadByte, seq![v(3)], h)
        } else {
            machine_op(other, Op::Load(IrTy::I64), seq![v(3)], h)
        },
        Some(Mn::Call) => called(other, funcs, ws[2], operands(other, env, ws, 3), h),
        Some(mn) => if mn is Zext || mn is Trunc || mn is Bitcast || mn is Ptrtoint || mn is Inttoptr
            || mn is Sitofp || mn is Fptosi || mn is Fneg {
            convert(other, mn, width(ws[1]), v(2), h)
        } else {
            arith(other, mn, width(ws[1]), v(2), v(3), h)
        },
        None => Done::Stop(h),
    }
}

/// What comes of a line.
pub ghost enum After {
    Go(Env, Heap),
    Stop(Heap),
}

/// Carries out a line: `name = instruction`, or `store type value, ptr place`.
#[verifier::opaque]
pub open spec fn carry_out(
    other: Base<Word, Heap>,
    funcs: Seq<Seq<char>>,
    ws: Line,
    env: Env,
    h: Heap,
) -> After {
    if ws.len() > 2 && ws[1] == "="@ {
        match result(other, funcs, ws.skip(2), env, h) {
            Done::Go(v, g) => After::Go(env.insert(ws[0], v), g),
            Done::Stop(g) => After::Stop(g),
        }
    } else if ws.len() == 5 && ws[0] == "store"@ {
        let v = value(other, env, ws[2]);
        if is_var(ws[4]) {
            After::Go(env.insert(ws[4], v), h)
        } else {
            let op = if width(ws[1]) == 8 {
                Op::StoreByte
            } else {
                Op::Store
            };
            match machine_op(other, op, seq![value(other, env, ws[4]), v], h) {
                Done::Go(_, g) => After::Go(env, g),
                Done::Stop(g) => After::Stop(g),
            }
        }
    } else {
        After::Stop(h)
    }
}

/// Carries out lines from `i` on.
pub open spec fn carry_on(
    other: Base<Word, Heap>,
    funcs: Seq<Seq<char>>,
    lines: Seq<Line>,
    i: int,
    env: Env,
    h: Heap,
) -> After
    decreases lines.len() - i,
{
    if !(0 <= i < lines.len()) {
        After::Go(env, h)
    } else {
        match carry_out(other, funcs, lines[i], env, h) {
            After::Go(e, g) => carry_on(other, funcs, lines, i + 1, e, g),
            After::Stop(g) => After::Stop(g),
        }
    }
}


/// How the lines of a function end: with a value, with a message, or in the middle.
pub ghost enum End {
    Ret(Word, Heap),
    Halt(Word, Heap),
    Stop(Heap),
}

/// The index of the line behind the label that a word with a percent sign before it names.
pub open spec fn behind_label(body: Seq<Line>, w: Seq<char>, i: int) -> int
    decreases body.len() - i,
{
    if !(0 <= i < body.len()) || body[i] == seq![w.skip(1).push(':')] {
        i + 1
    } else {
        behind_label(body, w, i + 1)
    }
}

/// The word for the block that a `switch` leads to: that of the first of the numbers from `i`
/// on which `n` is, or else `otherwise`.
pub open spec fn chosen(ws: Line, n: int, otherwise: Seq<char>, i: int) -> Seq<char>
    decreases ws.len() - i,
{
    if !(0 <= i && i + 3 < ws.len()) {
        otherwise
    } else if int_written(ws[i + 1]) == n {
        ws[i + 3]
    } else {
        chosen(ws, n, otherwise, i + 4)
    }
}

/// An instruction that the next line follows.
pub open spec fn goes_on(ws: Line) -> bool {
    ws.len() > 2 && (ws[1] == "="@ || ws[0] == "store"@)
}

/// The word of the block that a line leads to, if it leads to one:
/// `br label B`, `br i1 c, label B, label C`, `switch i64 v, label D [ i64 n, label B ... ]`.
#[verifier::opaque]
pub open spec fn leads_to(other: Base<Word, Heap>, ws: Line, env: Env) -> Option<Seq<char>> {
    if ws[0] == "br"@ && ws[1] == "label"@ {
        Some(ws[2])
    } else if ws[0] == "br"@ {
        Some(
            if value(other, env, ws[2]) == Word::Bit(true) {
                ws[4]
            } else {
                ws[6]
            },
        )
    } else if ws[0] == "switch"@ {
        let n = match value(other, env, ws[2]) {
            Word::Int(n) => n as int,
            _ => 0,
        };
        Some(chosen(ws, n, ws[4], 5))
    } else {
        None
    }
}

/// Runs a function from the line at `k` on, with at most `fuel` jumps. Room for a variable is
/// there from the start.
pub open spec fn run_from(
    other: Base<Word, Heap>,
    funcs: Seq<Seq<char>>,
    body: Seq<Line>,
    k: int,
    env: Env,
    h: Heap,
    fuel: nat,
) -> Option<End>
    decreases fuel, body.len() - k,
{
    if !(0 <= k < body.len()) {
        None
    } else {
        let ws = body[k];
        if ws.len() > 2 && ws[1] == "="@ && ws[2] == "alloca"@ {
            run_from(other, funcs, body, k + 1, env, h, fuel)
        } else if goes_on(ws) {
            match carry_out(other, funcs, ws, env, h) {
                After::Go(e, g) => run_from(other, funcs, body, k + 1, e, g, fuel),
                After::Stop(g) => Some(End::Stop(g)),
            }
        } else if ws[0] == "ret"@ {
            Some(End::Ret(value(other, env, ws[2]), h))
        } else if ws[0] == "call"@ && ws[2] == "@lumo_panic"@ {
            Some(End::Halt(value(other, env, ws[4]), h))
        } else {
            match leads_to(other, ws, env) {
                Some(w) => if fuel == 0 {
                    None
                } else {
                    run_from(
                        other,
                        funcs,
                        body,
                        behind_label(body, w, 0),
                        env,
                        h,
                        (fuel - 1) as nat,
                    )
                },
                None => None,
            }
        }
    }
}

} // verus!
