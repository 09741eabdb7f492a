//! The abstract syntax tree. Every node knows where it stands in the source.
use crate::span::Span;
use crate::types::Type;
use vstd::prelude::*;
#[allow(unused_imports)]
use crate::types::Ty;

verus! {

/// Operators with two operands.
#[derive(Debug, Clone, Copy, PartialEq, Eq, Structural)]
pub enum BinOp {
    // Arithmetic.
    Add,
    Sub,
    Mul,
    Div,
    Mod,
    // Comparison.
    Eq,
    Ne,
    Lt,
    Le,
    Gt,
    Ge,
    // Logic, which evaluates its right operand only where it matters.
    And,
    Or,
    // Operations on the bits of integers. Shift amounts are taken modulo 64.
    BitAnd,
    BitOr,
    BitXor,
    Shl,
    Shr,
}

/// Operators with one operand.
#[derive(Debug, Clone, Copy, PartialEq, Eq, Structural)]
pub enum UnOp {
    Neg,
    Not,
    BitNot,
}

#[derive(Debug)]
pub struct Expr {
    pub kind: ExprKind,
    pub span: Span,
}

#[derive(Debug)]
#[allow(inconsistent_fields)]
pub enum ExprKind {
    Int(i64),
    /// A decimal fraction, as it is written.
    Float(String),
    Bool(bool),
    Str(String),
    Null,
    Var(String),
    Unary { op: UnOp, expr: Box<Expr> },
    Binary { op: BinOp, lhs: Box<Expr>, rhs: Box<Expr> },
    /// A call, or a variant of a sum type with its payload.
    Call { name: String, args: Vec<Expr> },
    /// `[e1, e2, ...]`
    Array(Vec<Expr>),
    /// `array[index]`
    Index { array: Box<Expr>, index: Box<Expr> },
    /// `seq[lo:hi]`, where either bound may be left out.
    Slice { seq: Box<Expr>, lo: Option<Box<Expr>>, hi: Option<Box<Expr>> },
    /// `Name { field: value, ... }`
    StructLit { name: String, fields: Vec<FieldInit> },
    /// `{key: value, ...}`
    MapLit(Vec<(Expr, Expr)>),
    /// `obj.field`
    Field { obj: Box<Expr>, field: String },
}

/// One field of a structure literal, `name: value`.
#[derive(Debug)]
pub struct FieldInit {
    pub name: String,
    pub value: Expr,
    pub span: Span,
}

#[derive(Debug)]
pub struct Stmt {
    pub kind: StmtKind,
    pub span: Span,
}

#[derive(Debug)]
pub enum StmtKind {
    /// `let name: ty = value`, where the type may be left out.
    Let { name: String, ty: Option<Type>, value: Expr },
    /// `target = value`, where the target is a variable, an element or a field.
    Assign { target: Expr, value: Expr },
    Print(Expr),
    Return(Expr),
    If { cond: Expr, then_body: Vec<Stmt>, else_body: Vec<Stmt> },
    While { cond: Expr, body: Vec<Stmt> },
    /// `for (init; cond; step)`, where `init` and `step` may be left out.
    For { init: Option<Box<Stmt>>, cond: Expr, step: Option<Box<Stmt>>, body: Vec<Stmt> },
    /// `for (var in iter)`, over the elements of an array or the keys of a map.
    ForIn { var: String, iter: Expr, body: Vec<Stmt> },
    /// `match (scrut) { pattern => body ... }`
    Match { scrut: Expr, arms: Vec<MatchArm> },
    Break,
    Continue,
    ExprStmt(Expr),
}

/// One arm of a `match`: `_ => body`, or a variant with names for its payload.
#[derive(Debug)]
pub struct MatchArm {
    pub wildcard: bool,
    pub variant: String,
    pub bindings: Vec<String>,
    pub body: Vec<Stmt>,
    pub span: Span,
}

/// A parameter of a function, or a field of a structure.
#[derive(Debug)]
pub struct Param {
    pub name: String,
    pub ty: Type,
    pub span: Span,
}

#[derive(Debug)]
pub struct Function {
    pub name: String,
    pub params: Vec<Param>,
    /// The type of the result: `int` where none is written.
    pub ret: Type,
    pub body: Vec<Stmt>,
    pub span: Span,
    pub is_pub: bool,
}

/// `struct Name { f: T, ... }`
#[derive(Debug)]
pub struct StructDef {
    pub name: String,
    pub fields: Vec<Param>,
    pub span: Span,
    pub is_pub: bool,
}

/// One variant of a sum type, with the types of its payload.
#[derive(Debug)]
pub struct EnumVariant {
    pub name: String,
    pub fields: Vec<Type>,
    pub span: Span,
}

/// `enum Name { Variant(T, ...), ... }`
#[derive(Debug)]
pub struct EnumDef {
    pub name: String,
    pub variants: Vec<EnumVariant>,
    pub span: Span,
    pub is_pub: bool,
}

/// `import "path";`, at the head of a file. The path is relative to the importing file.
#[derive(Debug)]
pub struct ImportDecl {
    pub path: String,
    pub span: Span,
}

/// What one file holds, or what all the files of a program hold together.
#[derive(Debug)]
pub struct Program {
    pub imports: Vec<ImportDecl>,
    pub structs: Vec<StructDef>,
    pub enums: Vec<EnumDef>,
    pub funcs: Vec<Function>,
}

/// What an [`Expr`] stands for.
pub ghost struct ExprV {
    pub kind: ExprKindV,
    pub span: Span,
}

/// What an [`ExprKind`] stands for.
#[allow(inconsistent_fields)]
pub ghost enum ExprKindV {
    Int(i64),
    Float(Seq<char>),
    Bool(bool),
    Str(Seq<char>),
    Null,
    Var(Seq<char>),
    Unary { op: UnOp, expr: Box<ExprV> },
    Binary { op: BinOp, lhs: Box<ExprV>, rhs: Box<ExprV> },
    Call { name: Seq<char>, args: Seq<ExprV> },
    Array(Seq<ExprV>),
    Index { array: Box<ExprV>, index: Box<ExprV> },
    Slice { seq: Box<ExprV>, lo: Option<Box<ExprV>>, hi: Option<Box<ExprV>> },
    StructLit { name: Seq<char>, fields: Seq<FieldInitV> },
    MapLit(Seq<(ExprV, ExprV)>),
    Field { obj: Box<ExprV>, field: Seq<char> },
}

/// What a [`FieldInit`] stands for.
pub ghost struct FieldInitV {
    pub name: Seq<char>,
    pub value: ExprV,
    pub span: Span,
}

/// What a [`Stmt`] stands for.
pub ghost struct StmtV {
    pub kind: StmtKindV,
    pub span: Span,
}

/// What a [`StmtKind`] stands for.
pub ghost enum StmtKindV {
    Let { name: Seq<char>, ty: Option<Ty>, value: ExprV },
    Assign { target: ExprV, value: ExprV },
    Print(ExprV),
    Return(ExprV),
    If { cond: ExprV, then_body: Seq<StmtV>, else_body: Seq<StmtV> },
    While { cond: ExprV, body: Seq<StmtV> },
    For { init: Option<Box<StmtV>>, cond: ExprV, step: Option<Box<StmtV>>, body: Seq<StmtV> },
    ForIn { var: Seq<char>, iter: ExprV, body: Seq<StmtV> },
    Match { scrut: ExprV, arms: Seq<MatchArmV> },
    Break,
    Continue,
    ExprStmt(ExprV),
}

/// What a [`MatchArm`] stands for.
pub ghost struct MatchArmV {
    pub wildcard: bool,
    pub variant: Seq<char>,
    pub bindings: Seq<Seq<char>>,
    pub body: Seq<StmtV>,
    pub span: Span,
}

/// What a [`Param`] stands for.
pub ghost struct ParamV {
    pub name: Seq<char>,
    pub ty: Ty,
    pub span: Span,
}

/// What a [`Function`] stands for.
pub ghost struct FunctionV {
    pub name: Seq<char>,
    pub params: Seq<ParamV>,
    pub ret: Ty,
    pub body: Seq<StmtV>,
    pub span: Span,
    pub is_pub: bool,
}

/// What a [`StructDef`] stands for.
pub ghost struct StructDefV {
    pub name: Seq<char>,
    pub fields: Seq<ParamV>,
    pub span: Span,
    pub is_pub: bool,
}

/// What an [`EnumVariant`] stands for.
pub ghost struct EnumVariantV {
    pub name: Seq<char>,
    pub fields: Seq<Ty>,
    pub span: Span,
}

/// What an [`EnumDef`] stands for.
pub ghost struct EnumDefV {
    pub name: Seq<char>,
    pub variants: Seq<EnumVariantV>,
    pub span: Span,
    pub is_pub: bool,
}

/// What an [`ImportDecl`] stands for.
pub ghost struct ImportDeclV {
    pub path: Seq<char>,
    pub span: Span,
}

/// What a [`Program`] stands for.
pub ghost struct ProgramV {
    pub imports: Seq<ImportDeclV>,
    pub structs: Seq<StructDefV>,
    pub enums: Seq<EnumDefV>,
    pub funcs: Seq<FunctionV>,
}

pub open spec fn expr_view(e: Expr) -> ExprV
    decreases e,
{
    ExprV {
        kind: match e.kind {
            ExprKind::Int(n) => ExprKindV::Int(n),
            ExprKind::Float(s) => ExprKindV::Float(s@),
            ExprKind::Bool(b) => ExprKindV::Bool(b),
            ExprKind::Str(s) => ExprKindV::Str(s@),
            ExprKind::Null => ExprKindV::Null,
            ExprKind::Var(s) => ExprKindV::Var(s@),
            ExprKind::Unary { op, expr } => ExprKindV::Unary {
                op,
                expr: Box::new(expr_view(*expr)),
            },
            ExprKind::Binary { op, lhs, rhs } => ExprKindV::Binary {
                op,
                lhs: Box::new(expr_view(*lhs)),
                rhs: Box::new(expr_view(*rhs)),
            },
            ExprKind::Call { name, args } => ExprKindV::Call {
                name: name@,
                args: exprs_view(args@),
            },
            ExprKind::Array(elems) => ExprKindV::Array(exprs_view(elems@)),
            ExprKind::Index { array, index } => ExprKindV::Index {
                array: Box::new(expr_view(*array)),
                index: Box::new(expr_view(*index)),
            },
            ExprKind::Slice { seq, lo, hi } => ExprKindV::Slice {
                seq: Box::new(expr_view(*seq)),
                lo: opt_expr_view(lo),
                hi: opt_expr_view(hi),
            },
            ExprKind::StructLit { name, fields } => ExprKindV::StructLit {
                name: name@,
                fields: inits_view(fields@),
            },
            ExprKind::MapLit(pairs) => ExprKindV::MapLit(pairs_view(pairs@)),
            ExprKind::Field { obj, field } => ExprKindV::Field {
                obj: Box::new(expr_view(*obj)),
                field: field@,
            },
        },
        span: e.span,
    }
}

pub open spec fn opt_expr_view(e: Option<Box<Expr>>) -> Option<Box<ExprV>>
    decreases e,
{
    match e {
        Some(e) => Some(Box::new(expr_view(*e))),
        None => None,
    }
}

pub open spec fn exprs_view(v: Seq<Expr>) -> Seq<ExprV>
    decreases v,
{
    Seq::new(
        v.len(),
        |i: int|
            if 0 <= i < v.len() {
                expr_view(v[i])
            } else {
                arbitrary()
            },
    )
}

pub open spec fn init_view(f: FieldInit) -> FieldInitV
    decreases f,
{
    FieldInitV { name: f.name@, value: expr_view(f.value), span: f.span }
}

pub open spec fn inits_view(v: Seq<FieldInit>) -> Seq<FieldInitV>
    decreases v,
{
    Seq::new(
        v.len(),
        |i: int|
            if 0 <= i < v.len() {
                init_view(v[i])
            } else {
                arbitrary()
            },
    )
}

pub open spec fn pair_view(p: (Expr, Expr)) -> (ExprV, ExprV)
    decreases p,
{
    (expr_view(p.0), expr_view(p.1))
}

pub open spec fn pairs_view(v: Seq<(Expr, Expr)>) -> Seq<(ExprV, ExprV)>
    decreases v,
{
    Seq::new(
        v.len(),
        |i: int|
            if 0 <= i < v.len() {
                pair_view(v[i])
            } else {
                arbitrary()
            },
    )
}

pub open spec fn opt_ty_view(t: Option<Type>) -> Option<Ty> {
    match t {
        Some(t) => Some(t@),
        None => None,
    }
}

pub open spec fn stmt_view(s: Stmt) -> StmtV
    decreases s,
{
    StmtV {
        kind: match s.kind {
            StmtKind::Let { name, ty, value } => StmtKindV::Let {
                name: name@,
                ty: opt_ty_view(ty),
                value: expr_view(value),
            },
            StmtKind::Assign { target, value } => StmtKindV::Assign {
                target: expr_view(target),
                value: expr_view(value),
            },
            StmtKind::Print(e) => StmtKindV::Print(expr_view(e)),
            StmtKind::Return(e) => StmtKindV::Return(expr_view(e)),
            StmtKind::If { cond, then_body, else_body } => StmtKindV::If {
                cond: expr_view(cond),
                then_body: stmts_view(then_body@),
                else_body: stmts_view(else_body@),
            },
            StmtKind::While { cond, body } => StmtKindV::While {
                cond: expr_view(cond),
                body: stmts_view(body@),
            },
            StmtKind::For { init, cond, step, body } => StmtKindV::For {
                init: opt_stmt_view(init),
                cond: expr_view(cond),
                step: opt_stmt_view(step),
                body: stmts_view(body@),
            },
            StmtKind::ForIn { var, iter, body } => StmtKindV::ForIn {
                var: var@,
                iter: expr_view(iter),
                body: stmts_view(body@),
            },
            StmtKind::Match { scrut, arms } => StmtKindV::Match {
                scrut: expr_view(scrut),
                arms: arms_view(arms@),
            },
            StmtKind::Break => StmtKindV::Break,
            StmtKind::Continue => StmtKindV::Continue,
            StmtKind::ExprStmt(e) => StmtKindV::ExprStmt(expr_view(e)),
        },
        span: s.span,
    }
}

pub open spec fn opt_stmt_view(s: Option<Box<Stmt>>) -> Option<Box<StmtV>>
    decreases s,
{
    match s {
        Some(s) => Some(Box::new(stmt_view(*s))),
        None => None,
    }
}

pub open spec fn stmts_view(v: Seq<Stmt>) -> Seq<StmtV>
    decreases v,
{
    Seq::new(
        v.len(),
        |i: int|
            if 0 <= i < v.len() {
                stmt_view(v[i])
            } else {
                arbitrary()
            },
    )
}

/// What a row of names stands for.
pub open spec fn names_view(v: Seq<String>) -> Seq<Seq<char>> {
    Seq::new(v.len(), |i: int| v[i]@)
}

pub open spec fn arm_view(a: MatchArm) -> MatchArmV
    decreases a,
{
    MatchArmV {
        wildcard: a.wildcard,
        variant: a.variant@,
        bindings: names_view(a.bindings@),
        body: stmts_view(a.body@),
        span: a.span,
    }
}

pub open spec fn arms_view(v: Seq<MatchArm>) -> Seq<MatchArmV>
    decreases v,
{
    Seq::new(
        v.len(),
        |i: int|
            if 0 <= i < v.len() {
                arm_view(v[i])
            } else {
                arbitrary()
            },
    )
}

pub open spec fn param_view(p: Param) -> ParamV {
    ParamV { name: p.name@, ty: p.ty@, span: p.span }
}

pub open spec fn params_view(v: Seq<Param>) -> Seq<ParamV> {
    Seq::new(v.len(), |i: int| param_view(v[i]))
}

pub open spec fn types_view(v: Seq<Type>) -> Seq<Ty> {
    Seq::new(v.len(), |i: int| v[i]@)
}

pub open spec fn function_view(f: Function) -> FunctionV {
    FunctionV {
        name: f.name@,
        params: params_view(f.params@),
        ret: f.ret@,
        body: stmts_view(f.body@),
        span: f.span,
        is_pub: f.is_pub,
    }
}

pub open spec fn struct_view(s: StructDef) -> StructDefV {
    StructDefV {
        name: s.name@,
        fields: params_view(s.fields@),
        span: s.span,
        is_pub: s.is_pub,
    }
}

pub open spec fn variant_view(v: EnumVariant) -> EnumVariantV {
    EnumVariantV { name: v.name@, fields: types_view(v.fields@), span: v.span }
}

pub open spec fn variants_view(v: Seq<EnumVariant>) -> Seq<EnumVariantV> {
    Seq::new(v.len(), |i: int| variant_view(v[i]))
}

pub open spec fn enum_view(e: EnumDef) -> EnumDefV {
    EnumDefV {
        name: e.name@,
        variants: variants_view(e.variants@),
        span: e.span,
        is_pub: e.is_pub,
    }
}

pub open spec fn import_view(i: ImportDecl) -> ImportDeclV {
    ImportDeclV { path: i.path@, span: i.span }
}

pub open spec fn program_view(p: Program) -> ProgramV {
    ProgramV {
        imports: Seq::new(p.imports@.len(), |i: int| import_view(p.imports@[i])),
        structs: Seq::new(p.structs@.len(), |i: int| struct_view(p.structs@[i])),
        enums: Seq::new(p.enums@.len(), |i: int| enum_view(p.enums@[i])),
        funcs: Seq::new(p.funcs@.len(), |i: int| function_view(p.funcs@[i])),
    }
}

impl View for Expr {
    type V = ExprV;

    open spec fn view(&self) -> ExprV {
        expr_view(*self)
    }
}

impl View for Stmt {
    type V = StmtV;

    open spec fn view(&self) -> StmtV {
        stmt_view(*self)
    }
}

impl View for Program {
    type V = ProgramV;

    open spec fn view(&self) -> ProgramV {
        program_view(*self)
    }
}

fn clone_exprs(v: &Vec<Expr>) -> (r: Vec<Expr>)
    ensures
        exprs_view(r@) == exprs_view(v@),
    decreases v,
{
    let mut r: Vec<Expr> = Vec::new();
    let mut i: usize = 0;
    while i < v.len()
        invariant
            0 <= i <= v@.len(),
            r@.len() == i,
            forall|k: int| 0 <= k < i ==> expr_view(#[trigger] r@[k]) == expr_view(v@[k]),
        decreases v@.len() - i,
    {
        let e = clone_expr(&v[i]);
        r.push(e);
        i += 1;
    }
    assert(exprs_view(r@) =~= exprs_view(v@));
    r
}

fn clone_boxed(e: &Option<Box<Expr>>) -> (r: Option<Box<Expr>>)
    ensures
        opt_expr_view(r) == opt_expr_view(*e),
    decreases e,
{
    match e {
        Some(x) => Some(Box::new(clone_expr(x))),
        None => None,
    }
}

fn clone_expr(e: &Expr) -> (r: Expr)
    ensures
        expr_view(r) == expr_view(*e),
    decreases e,
{
    let kind = match &e.kind {
        ExprKind::Int(n) => ExprKind::Int(*n),
        ExprKind::Float(s) => ExprKind::Float(s.clone()),
        ExprKind::Bool(b) => ExprKind::Bool(*b),
        ExprKind::Str(s) => ExprKind::Str(s.clone()),
        ExprKind::Null => ExprKind::Null,
        ExprKind::Var(s) => ExprKind::Var(s.clone()),
        ExprKind::Unary { op, expr } => ExprKind::Unary {
            op: *op,
            expr: Box::new(clone_expr(expr)),
        },
        ExprKind::Binary { op, lhs, rhs } => ExprKind::Binary {
            op: *op,
            lhs: Box::new(clone_expr(lhs)),
            rhs: Box::new(clone_expr(rhs)),
        },
        ExprKind::Call { name, args } => ExprKind::Call {
            name: name.clone(),
            args: clone_exprs(args),
        },
        ExprKind::Array(elems) => ExprKind::Array(clone_exprs(elems)),
        ExprKind::Index { array, index } => ExprKind::Index {
            array: Box::new(clone_expr(array)),
            index: Box::new(clone_expr(index)),
        },
        ExprKind::Slice { seq, lo, hi } => ExprKind::Slice {
            seq: Box::new(clone_expr(seq)),
            lo: clone_boxed(lo),
            hi: clone_boxed(hi),
        },
        ExprKind::StructLit { name, fields } => {
            let mut copied: Vec<FieldInit> = Vec::new();
            let mut i: usize = 0;
            while i < fields.len()
                invariant
                    0 <= i <= fields@.len(),
                    copied@.len() == i,
                    decreases_to!(e => fields),
                    forall|k: int|
                        0 <= k < i ==> init_view(#[trigger] copied@[k]) == init_view(fields@[k]),
                decreases fields@.len() - i,
            {
                let f = clone_init(&fields[i]);
                copied.push(f);
                i += 1;
            }
            assert(inits_view(copied@) =~= inits_view(fields@));
            ExprKind::StructLit { name: name.clone(), fields: copied }
        },
        ExprKind::MapLit(pairs) => {
            let mut copied: Vec<(Expr, Expr)> = Vec::new();
            let mut i: usize = 0;
            while i < pairs.len()
                invariant
                    0 <= i <= pairs@.len(),
                    copied@.len() == i,
                    decreases_to!(e => pairs),
                    forall|k: int|
                        0 <= k < i ==> pair_view(#[trigger] copied@[k]) == pair_view(pairs@[k]),
                decreases pairs@.len() - i,
            {
                let key = clone_expr(&pairs[i].0);
                let value = clone_expr(&pairs[i].1);
                copied.push((key, value));
                i += 1;
            }
            assert(pairs_view(copied@) =~= pairs_view(pairs@));
            ExprKind::MapLit(copied)
        },
        ExprKind::Field { obj, field } => ExprKind::Field {
            obj: Box::new(clone_expr(obj)),
            field: field.clone(),
        },
    };
    Expr { kind, span: e.span }
}

fn clone_init(f: &FieldInit) -> (r: FieldInit)
    ensures
        init_view(r) == init_view(*f),
    decreases f,
{
    FieldInit { name: f.name.clone(), value: clone_expr(&f.value), span: f.span }
}

impl Clone for Expr {
    fn clone(&self) -> (r: Self)
        ensures
            r@ == self@,
    {
        clone_expr(self)
    }
}

} // verus!
