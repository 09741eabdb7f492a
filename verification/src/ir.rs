//! The intermediate code: what a program is lowered to.
//!
//! Code works on registers, each written once, on variables, which can be written again,
//! and on memory. Every value in memory takes a slot of eight bytes:
//!
//! - an array is a header `{len, cap, data}`, where `data` points to the elements;
//! - a map is a header whose first slot is the number of its entries;
//! - a structure is one slot for each field;
//! - a value of a sum type is a slot for the index of its variant, and one for each value
//!   of the payload.
use crate::types::Type;
use vstd::prelude::*;
#[allow(unused_imports)]
use crate::types::Ty;

verus! {

/// The type of a register or a variable.
#[derive(Debug, Clone, Copy, PartialEq, Eq, Structural)]
pub enum IrTy {
    I64,
    I1,
    F64,
    Ptr,
}

/// How two numbers are compared.
#[derive(Debug, Clone, Copy, PartialEq, Eq, Structural)]
pub enum Pred {
    Eq,
    Ne,
    Lt,
    Le,
    Gt,
    Ge,
    /// Less than, without signs.
    Below,
    /// Not less than, without signs.
    AtLeast,
}

/// Functions that the code calls and that are no part of the program.
#[derive(Debug, Clone, Copy, PartialEq, Eq, Structural)]
pub enum Rt {
    // Memory.
    Alloc,
    Realloc,
    // C strings.
    StrLen,
    StrCpy,
    StrCat,
    StrCmp,
    // Numbers as text.
    FormatInt,
    FormatFloat,
    ParseInt,
    ParseFloat,
    IsInt,
    IsFloat,
    // Mathematics.
    Sqrt,
    Floor,
    Ceil,
    Fabs,
    MinNum,
    MaxNum,
    Pow,
    // Input and output.
    PrintInt,
    PrintFloat,
    PrintStr,
    /// Reads a line into a buffer; null where there is none.
    Fgets,
    /// How far the line feed is into a string, or the length of the string.
    NewlinePos,
    ReadFile,
    WriteFile,
    // Strings.
    Substr,
    Split,
    Join,
    ToCase,
    Trim,
    Find,
    HasAffix,
    Repeat,
    // Arrays.
    ArraySlice,
    SortInt,
    SortFloat,
    SortStr,
    Reverse,
    // Maps.
    StrHash,
    MapNew,
    MapPut,
    MapGet,
    MapHas,
    MapDel,
    MapKeys,
}

/// What an instruction does with its operands.
#[derive(Debug, Clone, Copy, PartialEq, Eq, Structural)]
pub enum Op {
    Add,
    Sub,
    Mul,
    /// Signed division, of which the divisor is not zero.
    SDiv,
    /// The remainder of signed division, of which the divisor is not zero.
    SRem,
    And,
    Or,
    Xor,
    /// Shifts, by the amount modulo 64.
    Shl,
    AShr,
    Neg,
    BitNot,
    ICmp(Pred),
    FAdd,
    FSub,
    FMul,
    FDiv,
    FNeg,
    FCmp(Pred),
    /// Logical negation and conjunction of single bits.
    Not,
    Both,
    /// The second operand where the first is true, else the third.
    Select,
    SiToFp,
    FpToSi,
    BoolToSlot,
    SlotToBool,
    FloatToSlot,
    SlotToFloat,
    PtrToSlot,
    SlotToPtr,
    IsNull,
    /// Room for this many slots.
    New(usize),
    /// Room for the index of a variant and this many slots.
    NewTagged(usize),
    /// The pointer, this many slots further on.
    Slot(usize),
    /// The pointer, a number of bytes further on.
    Offset,
    /// The value of this type in memory.
    Load(IrTy),
    /// The byte in memory, as an integer.
    LoadByte,
    /// Writes the second operand to memory.
    Store,
    /// Writes the low byte of the second operand to memory.
    StoreByte,
    GetVar(usize),
    SetVar(usize),
    Rt(Rt),
}

/// A value that an instruction works on.
#[derive(Debug, PartialEq, Eq)]
pub enum Opnd {
    Reg(usize),
    Int(i64),
    /// A number of things of the program, as an integer.
    Size(usize),
    Bool(bool),
    /// A decimal fraction, as it is written.
    Float(String),
    /// A string constant.
    Str(String),
    Null,
}

/// One instruction. Its value goes to the register `dst`.
#[derive(Debug, PartialEq, Eq)]
pub enum Inst {
    Op { dst: usize, op: Op, args: Vec<Opnd> },
    /// Calls the function of the program at index `func`.
    Call { dst: usize, func: usize, args: Vec<Opnd> },
}

/// Code with its control flow.
#[derive(Debug)]
pub enum Code {
    Do(Inst),
    If { cond: Opnd, then: Vec<Code>, els: Vec<Code> },
    /// Runs `head`, ends where `cond` is false, else runs `body` and then `step`, and starts
    /// over. `Continue` in the body goes on with `step`.
    Loop { head: Vec<Code>, cond: Opnd, body: Vec<Code>, step: Vec<Code> },
    /// Runs the first case whose tag `on` is, or `default` where there is none.
    Switch { on: Opnd, tags: Vec<usize>, cases: Vec<Vec<Code>>, default: Vec<Code> },
    Break,
    Continue,
    Return(Opnd),
    /// Writes the message to the standard error output and ends the program.
    Panic(&'static str),
}

/// A function.
#[derive(Debug)]
pub struct IrFunc {
    pub name: String,
    /// The types of the parameters, which are the first of the variables.
    pub params: Vec<IrTy>,
    pub ret: IrTy,
    /// The types of the variables.
    pub slots: Vec<IrTy>,
    /// The types of the registers.
    pub regs: Vec<IrTy>,
    pub code: Vec<Code>,
}

/// A program.
#[derive(Debug)]
pub struct IrModule {
    pub funcs: Vec<IrFunc>,
}

/// What an [`Opnd`] stands for.
pub ghost enum OpndV {
    Reg(nat),
    Int(i64),
    Size(usize),
    Bool(bool),
    Float(Seq<char>),
    Str(Seq<char>),
    Null,
}

/// What an [`Inst`] stands for.
pub ghost enum InstV {
    Op { dst: nat, op: Op, args: Seq<OpndV> },
    Call { dst: nat, func: nat, args: Seq<OpndV> },
}

/// What [`Code`] stands for.
pub ghost enum CodeV {
    Do(InstV),
    If { cond: OpndV, then: Seq<CodeV>, els: Seq<CodeV> },
    Loop { head: Seq<CodeV>, cond: OpndV, body: Seq<CodeV>, step: Seq<CodeV> },
    Switch { on: OpndV, tags: Seq<usize>, cases: Seq<Seq<CodeV>>, default: Seq<CodeV> },
    Break,
    Continue,
    Return(OpndV),
    Panic(Seq<char>),
}

/// What an [`IrFunc`] stands for.
pub ghost struct IrFuncV {
    pub name: Seq<char>,
    pub params: Seq<IrTy>,
    pub ret: IrTy,
    pub slots: Seq<IrTy>,
    pub regs: Seq<IrTy>,
    pub code: Seq<CodeV>,
}

impl View for Opnd {
    type V = OpndV;

    open spec fn view(&self) -> OpndV {
        match self {
            Opnd::Reg(r) => OpndV::Reg(*r as nat),
            Opnd::Int(n) => OpndV::Int(*n),
            Opnd::Size(n) => OpndV::Size(*n),
            Opnd::Bool(b) => OpndV::Bool(*b),
            Opnd::Float(s) => OpndV::Float(s@),
            Opnd::Str(s) => OpndV::Str(s@),
            Opnd::Null => OpndV::Null,
        }
    }
}

/// What a row of operands stands for.
pub open spec fn opnds_view(v: Seq<Opnd>) -> Seq<OpndV> {
    Seq::new(v.len(), |i: int| v[i]@)
}

impl View for Inst {
    type V = InstV;

    open spec fn view(&self) -> InstV {
        match self {
            Inst::Op { dst, op, args } => InstV::Op {
                dst: *dst as nat,
                op: *op,
                args: opnds_view(args@),
            },
            Inst::Call { dst, func, args } => InstV::Call {
                dst: *dst as nat,
                func: *func as nat,
                args: opnds_view(args@),
            },
        }
    }
}

pub open spec fn code_view(c: Code) -> CodeV
    decreases c,
{
    match c {
        Code::Do(i) => CodeV::Do(i@),
        Code::If { cond, then, els } => CodeV::If {
            cond: cond@,
            then: codes_view(then@),
            els: codes_view(els@),
        },
        Code::Loop { head, cond, body, step } => CodeV::Loop {
            head: codes_view(head@),
            cond: cond@,
            body: codes_view(body@),
            step: codes_view(step@),
        },
        Code::Switch { on, tags, cases, default } => CodeV::Switch {
            on: on@,
            tags: tags@,
            cases: cases_view(cases@),
            default: codes_view(default@),
        },
        Code::Break => CodeV::Break,
        Code::Continue => CodeV::Continue,
        Code::Return(v) => CodeV::Return(v@),
        Code::Panic(m) => CodeV::Panic(m@),
    }
}

pub open spec fn codes_view(v: Seq<Code>) -> Seq<CodeV>
    decreases v,
{
    Seq::new(
        v.len(),
        |i: int|
            if 0 <= i < v.len() {
                code_view(v[i])
            } else {
                arbitrary()
            },
    )
}

pub open spec fn cases_view(v: Seq<Vec<Code>>) -> Seq<Seq<CodeV>>
    decreases v,
{
    Seq::new(
        v.len(),
        |i: int|
            if 0 <= i < v.len() {
                codes_view(v[i]@)
            } else {
                arbitrary()
            },
    )
}

pub open spec fn func_view(f: IrFunc) -> IrFuncV {
    IrFuncV {
        name: f.name@,
        params: f.params@,
        ret: f.ret,
        slots: f.slots@,
        regs: f.regs@,
        code: codes_view(f.code@),
    }
}

impl View for IrModule {
    type V = Seq<IrFuncV>;

    open spec fn view(&self) -> Seq<IrFuncV> {
        Seq::new(self.funcs@.len(), |i: int| func_view(self.funcs@[i]))
    }
}

/// The type of the register that holds a value of a type of the language.
pub open spec fn basic_ty(t: Ty) -> IrTy {
    match t {
        Ty::Int => IrTy::I64,
        Ty::Bool => IrTy::I1,
        Ty::Float => IrTy::F64,
        _ => IrTy::Ptr,
    }
}

/// The type of the register that holds a value of a type of the language.
pub fn basic_type(t: Type) -> (r: IrTy)
    ensures
        r == basic_ty(t@),
{
    match t {
        Type::Int => IrTy::I64,
        Type::Bool => IrTy::I1,
        Type::Float => IrTy::F64,
        _ => IrTy::Ptr,
    }
}

} // verus!
