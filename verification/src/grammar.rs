//! The grammar of Lumo: which tree a row of tokens stands for, and which error it is.
//!
//! Every rule takes the tokens and the index at which it starts, and answers with the tree
//! and the index after it, or with the first error. Operators bind, from the loosest to the
//! tightest: `||`, `&&`, `|`, `^`, `&`, comparison, shifts, `+ -`, `* / %`, prefix
//! operators, and then indexing and field access.
use crate::ast::{BinOp, UnOp};
use crate::span::Span;
use crate::token::Tok;
use vstd::prelude::*;
#[allow(unused_imports)]
use crate::ast::{
    EnumDefV, EnumVariantV, ExprKindV, ExprV, FieldInitV, FunctionV, ImportDeclV, MatchArmV,
    ParamV, ProgramV, StmtKindV, StmtV, StructDefV,
};
#[allow(unused_imports)]
use crate::diagnostics::{diag, DiagV};
#[allow(unused_imports)]
use crate::lexer::lexed;
#[allow(unused_imports)]
use crate::span::{span_merge, FileId};
#[allow(unused_imports)]
use crate::text::byte_len;
#[allow(unused_imports)]
use crate::token::{is_sym, tok_text, SegmentV, TokV, TokenV};
#[allow(unused_imports)]
use crate::types::{ty_name, Ty};

verus! {

/// What a rule answers: a tree and the index after it, or an error.
pub ghost enum Parsed<T> {
    Done(T, int),
    Bad(DiagV),
}

/// The token at `p` is `sym`, which carries nothing.
pub open spec fn at(ts: Seq<TokenV>, p: int, sym: Tok) -> bool {
    ts[p].kind == TokV::Sym(sym)
}

/// Where the token before `p` ends.
pub open spec fn end_before(ts: Seq<TokenV>, p: int) -> usize {
    if p <= 0 {
        0
    } else {
        ts[p - 1].span.end
    }
}

/// The span from `start` to the end of the token before `p`.
pub open spec fn span_to(ts: Seq<TokenV>, start: usize, p: int) -> Span {
    Span { file: ts[0].span.file, start, end: end_before(ts, p) }
}

/// How many tokens there are from `p` on.
pub open spec fn left(ts: Seq<TokenV>, p: int) -> nat {
    if p < ts.len() {
        (ts.len() - p) as nat
    } else {
        0
    }
}

/// No rule starts outside the row of tokens.
pub open spec fn off_row() -> DiagV {
    arbitrary()
}

/// The error of a token that none of those is that can stand here.
pub open spec fn unexpected(ts: Seq<TokenV>, p: int, code: Seq<char>, wanted: Seq<char>) -> DiagV {
    diag(code, wanted + tok_text(ts[p].kind) + " が来ました"@, ts[p].span)
}

/// The token `sym`.
pub open spec fn eat(ts: Seq<TokenV>, p: int, sym: Tok) -> Parsed<()> {
    if at(ts, p, sym) {
        Parsed::Done((), p + 1)
    } else {
        Parsed::Bad(
            unexpected(ts, p, "E0002"@, tok_text(TokV::Sym(sym)) + " を期待しましたが "@),
        )
    }
}

/// What `r` answers, followed by the token `sym`.
pub open spec fn then_eat<T>(ts: Seq<TokenV>, r: Parsed<T>, sym: Tok) -> Parsed<T> {
    match r {
        Parsed::Done(v, q) => match eat(ts, q, sym) {
            Parsed::Done(_, q2) => Parsed::Done(v, q2),
            Parsed::Bad(d) => Parsed::Bad(d),
        },
        Parsed::Bad(d) => Parsed::Bad(d),
    }
}

/// A name.
pub open spec fn ident(ts: Seq<TokenV>, p: int) -> Parsed<Seq<char>> {
    match ts[p].kind {
        TokV::Ident(s) => Parsed::Done(s, p + 1),
        _ => Parsed::Bad(unexpected(ts, p, "E0002"@, "識別子を期待しましたが "@)),
    }
}

// Types.

/// The type that a name denotes. Whether a structure of that name exists is not the
/// grammar's concern.
pub open spec fn named_ty(name: Seq<char>) -> Ty {
    if name == "int"@ {
        Ty::Int
    } else if name == "bool"@ {
        Ty::Bool
    } else if name == "float"@ {
        Ty::Float
    } else if name == "string"@ {
        Ty::Str
    } else {
        Ty::Struct(name)
    }
}

/// A type: a name, `[T]` or `{string: V}`. Answers with where it stands too.
pub open spec fn ty(ts: Seq<TokenV>, p: int) -> Parsed<(Ty, Span)>
    decreases left(ts, p),
{
    if !(0 <= p < ts.len()) {
        Parsed::Bad(off_row())
    } else {
        let span = ts[p].span;
        match ts[p].kind {
            TokV::Ident(name) => Parsed::Done((named_ty(name), span), p + 1),
            TokV::Sym(Tok::LBracket) => match then_eat(ts, ty(ts, p + 1), Tok::RBracket) {
                Parsed::Done((elem, _), q) => Parsed::Done(
                    (Ty::Array(Box::new(elem)), span_to(ts, span.start, q)),
                    q,
                ),
                Parsed::Bad(d) => Parsed::Bad(d),
            },
            TokV::Sym(Tok::LBrace) => match ty(ts, p + 1) {
                Parsed::Done((key, key_span), q) => {
                    if !(p < q) {
                        Parsed::Bad(off_row())
                    } else if key != Ty::Str {
                        Parsed::Bad(
                            diag(
                                "E0300"@,
                                "map のキーは string でなければなりません（"@ + ty_name(key)
                                    + " は不可）"@,
                                key_span,
                            ),
                        )
                    } else {
                        match eat(ts, q, Tok::Colon) {
                            Parsed::Done(_, q2) => match then_eat(ts, ty(ts, q2), Tok::RBrace) {
                                Parsed::Done((val, _), q3) => Parsed::Done(
                                    (Ty::MapOf(Box::new(val)), span_to(ts, span.start, q3)),
                                    q3,
                                ),
                                Parsed::Bad(d) => Parsed::Bad(d),
                            },
                            Parsed::Bad(d) => Parsed::Bad(d),
                        }
                    }
                },
                Parsed::Bad(d) => Parsed::Bad(d),
            },
            _ => Parsed::Bad(unexpected(ts, p, "E0300"@, "型名を期待しましたが "@)),
        }
    }
}

// Expressions.

/// The operator that `t` is on the given level of binding, 0 being the loosest.
pub open spec fn level_op(level: int, t: TokV) -> Option<BinOp> {
    match t {
        TokV::Sym(s) => if level == 0 {
            match s {
                Tok::PipePipe => Some(BinOp::Or),
                _ => None,
            }
        } else if level == 1 {
            match s {
                Tok::AmpAmp => Some(BinOp::And),
                _ => None,
            }
        } else if level == 2 {
            match s {
                Tok::Pipe => Some(BinOp::BitOr),
                _ => None,
            }
        } else if level == 3 {
            match s {
                Tok::Caret => Some(BinOp::BitXor),
                _ => None,
            }
        } else if level == 4 {
            match s {
                Tok::Amp => Some(BinOp::BitAnd),
                _ => None,
            }
        } else if level == 5 {
            match s {
                Tok::EqEq => Some(BinOp::Eq),
                Tok::NotEq => Some(BinOp::Ne),
                Tok::Lt => Some(BinOp::Lt),
                Tok::Le => Some(BinOp::Le),
                Tok::Gt => Some(BinOp::Gt),
                Tok::Ge => Some(BinOp::Ge),
                _ => None,
            }
        } else if level == 6 {
            match s {
                Tok::Shl => Some(BinOp::Shl),
                Tok::Shr => Some(BinOp::Shr),
                _ => None,
            }
        } else if level == 7 {
            match s {
                Tok::Plus => Some(BinOp::Add),
                Tok::Minus => Some(BinOp::Sub),
                _ => None,
            }
        } else if level == 8 {
            match s {
                Tok::Star => Some(BinOp::Mul),
                Tok::Slash => Some(BinOp::Div),
                Tok::Percent => Some(BinOp::Mod),
                _ => None,
            }
        } else {
            None
        },
        _ => None,
    }
}

/// The prefix operator that `t` is.
pub open spec fn prefix_op(t: TokV) -> Option<UnOp> {
    match t {
        TokV::Sym(Tok::Minus) => Some(UnOp::Neg),
        TokV::Sym(Tok::Bang) => Some(UnOp::Not),
        TokV::Sym(Tok::Tilde) => Some(UnOp::BitNot),
        _ => None,
    }
}

/// The operator of the compound assignment that `t` is.
pub open spec fn compound_op(t: TokV) -> Option<BinOp> {
    match t {
        TokV::Sym(Tok::PlusEq) => Some(BinOp::Add),
        TokV::Sym(Tok::MinusEq) => Some(BinOp::Sub),
        TokV::Sym(Tok::StarEq) => Some(BinOp::Mul),
        TokV::Sym(Tok::SlashEq) => Some(BinOp::Div),
        TokV::Sym(Tok::PercentEq) => Some(BinOp::Mod),
        TokV::Sym(Tok::AmpEq) => Some(BinOp::BitAnd),
        TokV::Sym(Tok::PipeEq) => Some(BinOp::BitOr),
        TokV::Sym(Tok::CaretEq) => Some(BinOp::BitXor),
        TokV::Sym(Tok::ShlEq) => Some(BinOp::Shl),
        TokV::Sym(Tok::ShrEq) => Some(BinOp::Shr),
        _ => None,
    }
}

/// `lhs op rhs`, which stands where both operands do.
pub open spec fn binary(op: BinOp, lhs: ExprV, rhs: ExprV) -> ExprV {
    ExprV {
        kind: ExprKindV::Binary { op, lhs: Box::new(lhs), rhs: Box::new(rhs) },
        span: span_merge(lhs.span, rhs.span),
    }
}

/// How long the sources of interpolated expressions in a token can be: each is shorter.
pub open spec fn segs_nest(segs: Seq<SegmentV>) -> nat
    decreases segs.len(),
{
    if segs.len() == 0 {
        0
    } else {
        let rest = segs_nest(segs.drop_last());
        match segs.last() {
            SegmentV::Expr { src, .. } => if rest > src.len() {
                rest
            } else {
                src.len() + 1
            },
            SegmentV::Lit(_) => rest,
        }
    }
}

/// The same of a token.
pub open spec fn tok_nest(t: TokV) -> nat {
    match t {
        TokV::InterpStr(segs) => segs_nest(segs),
        _ => 0,
    }
}

/// The same of a row of tokens.
pub open spec fn nest(ts: Seq<TokenV>) -> nat
    decreases ts.len(),
{
    if ts.len() == 0 {
        0
    } else {
        let rest = nest(ts.drop_last());
        let last = tok_nest(ts.last().kind);
        if rest >= last {
            rest
        } else {
            last
        }
    }
}

/// The span, `offset` bytes further on.
pub open spec fn shift_span(s: Span, offset: usize) -> Span {
    Span {
        file: s.file,
        start: (s.start + offset) as usize,
        end: (s.end + offset) as usize,
    }
}

/// The tokens, `offset` bytes further on.
pub open spec fn shift_tokens(ts: Seq<TokenV>, offset: usize) -> Seq<TokenV> {
    Seq::new(
        ts.len(),
        |i: int| TokenV { kind: ts[i].kind, span: shift_span(ts[i].span, offset) },
    )
}

/// The error, `offset` bytes further on.
pub open spec fn shift_diag(d: DiagV, offset: usize) -> DiagV {
    match d.span {
        Some(s) => DiagV { span: Some(shift_span(s, offset)), ..d },
        None => d,
    }
}

/// An expression.
pub open spec fn expr(ts: Seq<TokenV>, p: int) -> Parsed<ExprV>
    decreases nest(ts), left(ts, p), 13int, 0int,
{
    level(ts, p, 0)
}

/// An expression made of operators of the given level, which associate to the left, and of
/// tighter ones.
pub open spec fn level(ts: Seq<TokenV>, p: int, k: int) -> Parsed<ExprV>
    decreases nest(ts), left(ts, p), 12 - k, 0int,
{
    if !(0 <= k < 9) {
        if k == 9 {
            unary(ts, p)
        } else {
            Parsed::Bad(off_row())
        }
    } else {
        match level(ts, p, k + 1) {
            Parsed::Done(lhs, q) => if p < q {
                level_rest(ts, q, k, lhs)
            } else {
                Parsed::Bad(off_row())
            },
            Parsed::Bad(d) => Parsed::Bad(d),
        }
    }
}

/// What follows `lhs` on a level.
pub open spec fn level_rest(ts: Seq<TokenV>, p: int, k: int, lhs: ExprV) -> Parsed<ExprV>
    decreases nest(ts), left(ts, p), 0int, 0int,
{
    if !(0 <= p < ts.len()) {
        Parsed::Bad(off_row())
    } else {
        match level_op(k, ts[p].kind) {
            Some(op) => match level(ts, p + 1, k + 1) {
                Parsed::Done(rhs, q) => if p < q {
                    level_rest(ts, q, k, binary(op, lhs, rhs))
                } else {
                    Parsed::Bad(off_row())
                },
                Parsed::Bad(d) => Parsed::Bad(d),
            },
            None => Parsed::Done(lhs, p),
        }
    }
}

/// Prefix operators and what they apply to.
pub open spec fn unary(ts: Seq<TokenV>, p: int) -> Parsed<ExprV>
    decreases nest(ts), left(ts, p), 2int, 0int,
{
    if !(0 <= p < ts.len()) {
        Parsed::Bad(off_row())
    } else {
        match prefix_op(ts[p].kind) {
            Some(op) => match unary(ts, p + 1) {
                Parsed::Done(e, q) => Parsed::Done(
                    ExprV {
                        kind: ExprKindV::Unary { op, expr: Box::new(e) },
                        span: span_merge(ts[p].span, e.span),
                    },
                    q,
                ),
                Parsed::Bad(d) => Parsed::Bad(d),
            },
            None => match primary(ts, p) {
                Parsed::Done(e, q) => if p < q {
                    postfix_rest(ts, q, e)
                } else {
                    Parsed::Bad(off_row())
                },
                Parsed::Bad(d) => Parsed::Bad(d),
            },
        }
    }
}

/// The indexing, slicing and field access that follow `e`.
pub open spec fn postfix_rest(ts: Seq<TokenV>, p: int, e: ExprV) -> Parsed<ExprV>
    decreases nest(ts), left(ts, p), 1int, 0int,
{
    if !(0 <= p < ts.len()) {
        Parsed::Bad(off_row())
    } else if at(ts, p, Tok::LBracket) {
        match bracket(ts, p + 1, e) {
            Parsed::Done(e2, q) => if p < q {
                postfix_rest(ts, q, e2)
            } else {
                Parsed::Bad(off_row())
            },
            Parsed::Bad(d) => Parsed::Bad(d),
        }
    } else if at(ts, p, Tok::Dot) {
        match ident(ts, p + 1) {
            Parsed::Done(field, q) => postfix_rest(
                ts,
                q,
                ExprV {
                    kind: ExprKindV::Field { obj: Box::new(e), field },
                    span: span_to(ts, e.span.start, q),
                },
            ),
            Parsed::Bad(d) => Parsed::Bad(d),
        }
    } else {
        Parsed::Done(e, p)
    }
}

/// The rest of `e[i]` or `e[lo:hi]` after the opening bracket.
pub open spec fn bracket(ts: Seq<TokenV>, p: int, e: ExprV) -> Parsed<ExprV>
    decreases nest(ts), left(ts, p), 15int, 0int,
{
    match opt_expr(ts, p, Tok::Colon) {
        Parsed::Done(lo, q) => if !(p <= q < ts.len()) {
            Parsed::Bad(off_row())
        } else if at(ts, q, Tok::Colon) {
            match then_eat(ts, opt_expr(ts, q + 1, Tok::RBracket), Tok::RBracket) {
                Parsed::Done(hi, r) => Parsed::Done(
                    ExprV {
                        kind: ExprKindV::Slice { seq: Box::new(e), lo, hi },
                        span: span_to(ts, e.span.start, r),
                    },
                    r,
                ),
                Parsed::Bad(d) => Parsed::Bad(d),
            }
        } else {
            match eat(ts, q, Tok::RBracket) {
                Parsed::Done(_, r) => Parsed::Done(
                    ExprV {
                        kind: ExprKindV::Index { array: Box::new(e), index: lo->0 },
                        span: span_to(ts, e.span.start, r),
                    },
                    r,
                ),
                Parsed::Bad(d) => Parsed::Bad(d),
            }
        },
        Parsed::Bad(d) => Parsed::Bad(d),
    }
}

/// An expression, unless `stop` stands there.
pub open spec fn opt_expr(ts: Seq<TokenV>, p: int, stop: Tok) -> Parsed<Option<Box<ExprV>>>
    decreases nest(ts), left(ts, p), 14int, 0int,
{
    if at(ts, p, stop) {
        Parsed::Done(None, p)
    } else {
        match expr(ts, p) {
            Parsed::Done(e, q) => Parsed::Done(Some(Box::new(e)), q),
            Parsed::Bad(d) => Parsed::Bad(d),
        }
    }
}

/// The operand of a string with interpolated expressions: `"a {x} b"` stands for
/// `"a " + str(x) + " b"`.
pub open spec fn interpolation(ts: Seq<TokenV>, p: int, segs: Seq<SegmentV>) -> Result<
    Option<ExprV>,
    DiagV,
>
    decreases nest(ts), left(ts, p), 0int, segs.len(),
{
    if segs.len() == 0 {
        Ok(None)
    } else {
        match interpolation(ts, p, segs.drop_last()) {
            Err(d) => Err(d),
            Ok(acc) => {
                let part = match segs.last() {
                    SegmentV::Lit(s) => Ok(ExprV { kind: ExprKindV::Str(s), span: ts[p].span }),
                    SegmentV::Expr { src, offset } => match embedded(ts, p, src, offset) {
                        Ok(e) => Ok(
                            ExprV {
                                kind: ExprKindV::Call { name: "str"@, args: seq![e] },
                                span: e.span,
                            },
                        ),
                        Err(d) => Err(d),
                    },
                };
                match part {
                    Err(d) => Err(d),
                    Ok(e) => Ok(
                        match acc {
                            None => Some(e),
                            Some(a) => Some(binary(BinOp::Add, a, e)),
                        },
                    ),
                }
            },
        }
    }
}

/// The one expression that the source of an interpolation is, at its place in the file.
pub open spec fn embedded(ts: Seq<TokenV>, p: int, src: Seq<char>, offset: usize) -> Result<
    ExprV,
    DiagV,
>
    decreases nest(ts), left(ts, p), 0int, 0int,
{
    match lexed(src, ts[p].span.file) {
        Err(d) => Err(shift_diag(d, offset)),
        Ok(inner) => {
            let sub = shift_tokens(inner, offset);
            if nest(sub) < nest(ts) {
                match expr(sub, 0) {
                    Parsed::Done(e, q) => if at(sub, q, Tok::Eof) {
                        Ok(e)
                    } else {
                        Err(
                            diag(
                                "E0002"@,
                                "補間 {…} の中は 1 つの式にしてください"@,
                                sub[q].span,
                            ),
                        )
                    },
                    Parsed::Bad(d) => Err(d),
                }
            } else {
                Err(off_row())
            }
        },
    }
}

/// Operands: literals, names, calls, and what stands in brackets of its own.
pub open spec fn primary(ts: Seq<TokenV>, p: int) -> Parsed<ExprV>
    decreases nest(ts), left(ts, p), 1int, 0int,
{
    if !(0 <= p < ts.len()) {
        Parsed::Bad(off_row())
    } else {
        let span = ts[p].span;
        match ts[p].kind {
            TokV::Int(n) => Parsed::Done(ExprV { kind: ExprKindV::Int(n), span }, p + 1),
            TokV::Float(s) => Parsed::Done(ExprV { kind: ExprKindV::Float(s), span }, p + 1),
            TokV::Str(s) => Parsed::Done(ExprV { kind: ExprKindV::Str(s), span }, p + 1),
            TokV::InterpStr(segs) => match interpolation(ts, p, segs) {
                Ok(Some(e)) => Parsed::Done(e, p + 1),
                Ok(None) => Parsed::Done(
                    ExprV { kind: ExprKindV::Str(Seq::empty()), span },
                    p + 1,
                ),
                Err(d) => Parsed::Bad(d),
            },
            TokV::Ident(name) => named(ts, p, name),
            TokV::Sym(Tok::True) => Parsed::Done(
                ExprV { kind: ExprKindV::Bool(true), span },
                p + 1,
            ),
            TokV::Sym(Tok::False) => Parsed::Done(
                ExprV { kind: ExprKindV::Bool(false), span },
                p + 1,
            ),
            TokV::Sym(Tok::Null) => Parsed::Done(ExprV { kind: ExprKindV::Null, span }, p + 1),
            TokV::Sym(Tok::LParen) => then_eat(ts, expr(ts, p + 1), Tok::RParen),
            TokV::Sym(Tok::LBracket) => match exprs(ts, p + 1, Tok::RBracket, true) {
                Parsed::Done(elems, q) => Parsed::Done(
                    ExprV { kind: ExprKindV::Array(elems), span: span_to(ts, span.start, q) },
                    q,
                ),
                Parsed::Bad(d) => Parsed::Bad(d),
            },
            TokV::Sym(Tok::LBrace) => match pairs(ts, p + 1, Seq::empty()) {
                Parsed::Done(items, q) => Parsed::Done(
                    ExprV { kind: ExprKindV::MapLit(items), span: span_to(ts, span.start, q) },
                    q,
                ),
                Parsed::Bad(d) => Parsed::Bad(d),
            },
            _ => Parsed::Bad(unexpected(ts, p, "E0002"@, "式を期待しましたが "@)),
        }
    }
}

/// What a name at `p` starts: a call, a structure literal, or the name alone.
pub open spec fn named(ts: Seq<TokenV>, p: int, name: Seq<char>) -> Parsed<ExprV>
    decreases nest(ts), left(ts, p), 0int, 0int,
{
    let span = ts[p].span;
    if !(0 <= p < ts.len()) {
        Parsed::Bad(off_row())
    } else if at(ts, p + 1, Tok::LParen) {
        match exprs(ts, p + 2, Tok::RParen, false) {
            Parsed::Done(args, q) => Parsed::Done(
                ExprV { kind: ExprKindV::Call { name, args }, span: span_to(ts, span.start, q) },
                q,
            ),
            Parsed::Bad(d) => Parsed::Bad(d),
        }
    } else if at(ts, p + 1, Tok::LBrace) {
        match inits(ts, p + 2, Seq::empty()) {
            Parsed::Done(fields, q) => Parsed::Done(
                ExprV {
                    kind: ExprKindV::StructLit { name, fields },
                    span: span_to(ts, span.start, q),
                },
                q,
            ),
            Parsed::Bad(d) => Parsed::Bad(d),
        }
    } else {
        Parsed::Done(ExprV { kind: ExprKindV::Var(name), span }, p + 1)
    }
}

/// Expressions separated by commas, up to and with `close`. A comma may stand before
/// `close` where `trailing` says so.
pub open spec fn exprs(ts: Seq<TokenV>, p: int, close: Tok, trailing: bool) -> Parsed<Seq<ExprV>>
    decreases nest(ts), left(ts, p), 15int, 0int,
{
    if !(0 <= p < ts.len()) {
        Parsed::Bad(off_row())
    } else if at(ts, p, close) {
        Parsed::Done(Seq::empty(), p + 1)
    } else {
        exprs_rest(ts, p, close, trailing, Seq::empty())
    }
}

/// The expressions from `p` on, after those in `acc`.
pub open spec fn exprs_rest(
    ts: Seq<TokenV>,
    p: int,
    close: Tok,
    trailing: bool,
    acc: Seq<ExprV>,
) -> Parsed<Seq<ExprV>>
    decreases nest(ts), left(ts, p), 14int, 0int,
{
    match expr(ts, p) {
        Parsed::Done(e, q) => if !(p < q < ts.len()) {
            Parsed::Bad(off_row())
        } else if !at(ts, q, Tok::Comma) {
            then_eat(ts, Parsed::Done(acc.push(e), q), close)
        } else if trailing && at(ts, q + 1, close) {
            Parsed::Done(acc.push(e), q + 2)
        } else {
            exprs_rest(ts, q + 1, close, trailing, acc.push(e))
        },
        Parsed::Bad(d) => Parsed::Bad(d),
    }
}

/// The entries of a map literal, up to and with the closing brace, after those in `acc`. A
/// comma may stand before the brace.
pub open spec fn pairs(ts: Seq<TokenV>, p: int, acc: Seq<(ExprV, ExprV)>) -> Parsed<
    Seq<(ExprV, ExprV)>,
>
    decreases nest(ts), left(ts, p), 14int, 0int,
{
    if !(0 <= p < ts.len()) {
        Parsed::Bad(off_row())
    } else if at(ts, p, Tok::RBrace) {
        Parsed::Done(acc, p + 1)
    } else {
        match then_eat(ts, expr(ts, p), Tok::Colon) {
            Parsed::Done(key, q0) => if !(p < q0) {
                Parsed::Bad(off_row())
            } else {
                match expr(ts, q0) {
                    Parsed::Done(value, q) => if !(p < q < ts.len()) {
                        Parsed::Bad(off_row())
                    } else if at(ts, q, Tok::Comma) {
                        pairs(ts, q + 1, acc.push((key, value)))
                    } else {
                        then_eat(ts, Parsed::Done(acc.push((key, value)), q), Tok::RBrace)
                    },
                    Parsed::Bad(d) => Parsed::Bad(d),
                }
            },
            Parsed::Bad(d) => Parsed::Bad(d),
        }
    }
}

/// The fields of a structure literal, up to and with the closing brace, after those in
/// `acc`. A comma may stand before the brace.
pub open spec fn inits(ts: Seq<TokenV>, p: int, acc: Seq<FieldInitV>) -> Parsed<Seq<FieldInitV>>
    decreases nest(ts), left(ts, p), 14int, 0int,
{
    if !(0 <= p < ts.len()) {
        Parsed::Bad(off_row())
    } else if at(ts, p, Tok::RBrace) {
        Parsed::Done(acc, p + 1)
    } else {
        match then_eat(ts, ident(ts, p), Tok::Colon) {
            Parsed::Done(name, q0) => match expr(ts, q0) {
                Parsed::Done(value, q) => {
                    let span = Span {
                        file: ts[0].span.file,
                        start: ts[p].span.start,
                        end: value.span.end,
                    };
                    let more = acc.push(FieldInitV { name, value, span });
                    if !(p < q < ts.len()) {
                        Parsed::Bad(off_row())
                    } else if at(ts, q, Tok::Comma) {
                        inits(ts, q + 1, more)
                    } else {
                        then_eat(ts, Parsed::Done(more, q), Tok::RBrace)
                    }
                },
                Parsed::Bad(d) => Parsed::Bad(d),
            },
            Parsed::Bad(d) => Parsed::Bad(d),
        }
    }
}

// Statements.

/// An expression in round brackets.
pub open spec fn paren_expr(ts: Seq<TokenV>, p: int) -> Parsed<ExprV> {
    match eat(ts, p, Tok::LParen) {
        Parsed::Done(_, q) => then_eat(ts, expr(ts, q), Tok::RParen),
        Parsed::Bad(d) => Parsed::Bad(d),
    }
}

/// `name: ty = value` after `let`.
pub open spec fn let_rest(ts: Seq<TokenV>, p: int) -> Parsed<StmtKindV> {
    match ident(ts, p) {
        Parsed::Done(name, q) => match opt_ty(ts, q, Tok::Colon) {
            Parsed::Done(ty, q2) => match eat(ts, q2, Tok::Assign) {
                Parsed::Done(_, q3) => match expr(ts, q3) {
                    Parsed::Done(value, q4) => Parsed::Done(
                        StmtKindV::Let { name, ty, value },
                        q4,
                    ),
                    Parsed::Bad(d) => Parsed::Bad(d),
                },
                Parsed::Bad(d) => Parsed::Bad(d),
            },
            Parsed::Bad(d) => Parsed::Bad(d),
        },
        Parsed::Bad(d) => Parsed::Bad(d),
    }
}

/// A type after the token `mark`, if that stands there.
pub open spec fn opt_ty(ts: Seq<TokenV>, p: int, mark: Tok) -> Parsed<Option<Ty>> {
    if at(ts, p, mark) {
        match ty(ts, p + 1) {
            Parsed::Done((t, _), q) => Parsed::Done(Some(t), q),
            Parsed::Bad(d) => Parsed::Bad(d),
        }
    } else {
        Parsed::Done(None, p)
    }
}

/// What follows an expression at the head of a statement: an assignment, or nothing.
/// `a op= b` stands for `a = a op b`.
pub open spec fn assign_rest(ts: Seq<TokenV>, p: int, e: ExprV) -> Parsed<StmtKindV> {
    if at(ts, p, Tok::Assign) {
        match expr(ts, p + 1) {
            Parsed::Done(value, q) => Parsed::Done(StmtKindV::Assign { target: e, value }, q),
            Parsed::Bad(d) => Parsed::Bad(d),
        }
    } else {
        match compound_op(ts[p].kind) {
            Some(op) => match expr(ts, p + 1) {
                Parsed::Done(rhs, q) => Parsed::Done(
                    StmtKindV::Assign {
                        target: e,
                        value: ExprV {
                            kind: ExprKindV::Binary { op, lhs: Box::new(e), rhs: Box::new(rhs) },
                            span: span_to(ts, e.span.start, q),
                        },
                    },
                    q,
                ),
                Parsed::Bad(d) => Parsed::Bad(d),
            },
            None => Parsed::Done(StmtKindV::ExprStmt(e), p),
        }
    }
}

/// A `let`, an assignment or an expression, without the semicolon.
pub open spec fn simple_kind(ts: Seq<TokenV>, p: int) -> Parsed<StmtKindV> {
    if at(ts, p, Tok::Let) {
        let_rest(ts, p + 1)
    } else {
        match expr(ts, p) {
            Parsed::Done(e, q) => assign_rest(ts, q, e),
            Parsed::Bad(d) => Parsed::Bad(d),
        }
    }
}

/// The statement of a kind that starts at `p`.
pub open spec fn placed(ts: Seq<TokenV>, p: int, kind: Parsed<StmtKindV>) -> Parsed<StmtV> {
    match kind {
        Parsed::Done(kind, q) => Parsed::Done(
            StmtV { kind, span: span_to(ts, ts[p].span.start, q) },
            q,
        ),
        Parsed::Bad(d) => Parsed::Bad(d),
    }
}

/// A simple statement, unless `stop` stands there.
pub open spec fn opt_simple(ts: Seq<TokenV>, p: int, stop: Tok) -> Parsed<Option<Box<StmtV>>> {
    if at(ts, p, stop) {
        Parsed::Done(None, p)
    } else {
        match placed(ts, p, simple_kind(ts, p)) {
            Parsed::Done(s, q) => Parsed::Done(Some(Box::new(s)), q),
            Parsed::Bad(d) => Parsed::Bad(d),
        }
    }
}

/// `init; cond; step)` after `for (`.
pub open spec fn for_head(ts: Seq<TokenV>, p: int) -> Parsed<
    (Option<Box<StmtV>>, ExprV, Option<Box<StmtV>>),
> {
    match then_eat(ts, opt_simple(ts, p, Tok::Semicolon), Tok::Semicolon) {
        Parsed::Done(init, q) => match then_eat(ts, expr(ts, q), Tok::Semicolon) {
            Parsed::Done(cond, q2) => match then_eat(
                ts,
                opt_simple(ts, q2, Tok::RParen),
                Tok::RParen,
            ) {
                Parsed::Done(step, q3) => Parsed::Done((init, cond, step), q3),
                Parsed::Bad(d) => Parsed::Bad(d),
            },
            Parsed::Bad(d) => Parsed::Bad(d),
        },
        Parsed::Bad(d) => Parsed::Bad(d),
    }
}

/// `var in iter)` after `for (`.
pub open spec fn for_in_head(ts: Seq<TokenV>, p: int) -> Parsed<(Seq<char>, ExprV)> {
    match then_eat(ts, ident(ts, p), Tok::In) {
        Parsed::Done(var, q) => match then_eat(ts, expr(ts, q), Tok::RParen) {
            Parsed::Done(iter, q2) => Parsed::Done((var, iter), q2),
            Parsed::Bad(d) => Parsed::Bad(d),
        },
        Parsed::Bad(d) => Parsed::Bad(d),
    }
}

/// Names separated by commas, up to and with the closing bracket, after those in `acc`.
pub open spec fn names_rest(ts: Seq<TokenV>, p: int, acc: Seq<Seq<char>>) -> Parsed<
    Seq<Seq<char>>,
>
    decreases left(ts, p),
{
    if !(0 <= p < ts.len()) {
        Parsed::Bad(off_row())
    } else {
        match ident(ts, p) {
            Parsed::Done(name, q) => if at(ts, q, Tok::Comma) {
                names_rest(ts, q + 1, acc.push(name))
            } else {
                then_eat(ts, Parsed::Done(acc.push(name), q), Tok::RParen)
            },
            Parsed::Bad(d) => Parsed::Bad(d),
        }
    }
}

/// The names for the payload of a variant: none, or those in brackets.
pub open spec fn bindings(ts: Seq<TokenV>, p: int) -> Parsed<Seq<Seq<char>>> {
    if !at(ts, p, Tok::LParen) {
        Parsed::Done(Seq::empty(), p)
    } else if at(ts, p + 1, Tok::RParen) {
        Parsed::Done(Seq::empty(), p + 2)
    } else {
        names_rest(ts, p + 1, Seq::empty())
    }
}

/// The pattern of an arm, up to and with `=>`: `_`, or a variant with names for its
/// payload. Its body and span are left empty.
pub open spec fn pattern(ts: Seq<TokenV>, p: int) -> Parsed<MatchArmV> {
    match ident(ts, p) {
        Parsed::Done(name, q) => {
            let wildcard = name == "_"@;
            let bound = if wildcard {
                Parsed::Done(Seq::empty(), q)
            } else {
                bindings(ts, q)
            };
            match then_eat(ts, bound, Tok::FatArrow) {
                Parsed::Done(names, q2) => Parsed::Done(
                    MatchArmV {
                        wildcard,
                        variant: if wildcard {
                            Seq::empty()
                        } else {
                            name
                        },
                        bindings: names,
                        body: Seq::empty(),
                        span: ts[p].span,
                    },
                    q2,
                ),
                Parsed::Bad(d) => Parsed::Bad(d),
            }
        },
        Parsed::Bad(d) => Parsed::Bad(d),
    }
}

/// A statement.
pub open spec fn stmt(ts: Seq<TokenV>, p: int) -> Parsed<StmtV>
    decreases left(ts, p), 2int,
{
    placed(ts, p, stmt_kind(ts, p))
}

/// A statement, but for where it stands.
pub open spec fn stmt_kind(ts: Seq<TokenV>, p: int) -> Parsed<StmtKindV>
    decreases left(ts, p), 1int,
{
    if !(0 <= p < ts.len()) {
        Parsed::Bad(off_row())
    } else {
        match ts[p].kind {
            TokV::Sym(Tok::Return) => match then_eat(ts, expr(ts, p + 1), Tok::Semicolon) {
                Parsed::Done(e, q) => Parsed::Done(StmtKindV::Return(e), q),
                Parsed::Bad(d) => Parsed::Bad(d),
            },
            TokV::Sym(Tok::Print) => match then_eat(ts, expr(ts, p + 1), Tok::Semicolon) {
                Parsed::Done(e, q) => Parsed::Done(StmtKindV::Print(e), q),
                Parsed::Bad(d) => Parsed::Bad(d),
            },
            TokV::Sym(Tok::If) => match paren_expr(ts, p + 1) {
                Parsed::Done(cond, q) => if !(p < q) {
                    Parsed::Bad(off_row())
                } else {
                    match block(ts, q) {
                        Parsed::Done(then_body, q2) => if !(p < q2) {
                            Parsed::Bad(off_row())
                        } else {
                            match else_part(ts, q2) {
                                Parsed::Done(else_body, q3) => Parsed::Done(
                                    StmtKindV::If { cond, then_body, else_body },
                                    q3,
                                ),
                                Parsed::Bad(d) => Parsed::Bad(d),
                            }
                        },
                        Parsed::Bad(d) => Parsed::Bad(d),
                    }
                },
                Parsed::Bad(d) => Parsed::Bad(d),
            },
            TokV::Sym(Tok::While) => match paren_expr(ts, p + 1) {
                Parsed::Done(cond, q) => if !(p < q) {
                    Parsed::Bad(off_row())
                } else {
                    match block(ts, q) {
                        Parsed::Done(body, q2) => Parsed::Done(StmtKindV::While { cond, body }, q2),
                        Parsed::Bad(d) => Parsed::Bad(d),
                    }
                },
                Parsed::Bad(d) => Parsed::Bad(d),
            },
            TokV::Sym(Tok::Match) => match then_eat(ts, paren_expr(ts, p + 1), Tok::LBrace) {
                Parsed::Done(scrut, q) => if !(p < q) {
                    Parsed::Bad(off_row())
                } else {
                    match arms(ts, q, Seq::empty()) {
                        Parsed::Done(arms, q2) => Parsed::Done(
                            StmtKindV::Match { scrut, arms },
                            q2,
                        ),
                        Parsed::Bad(d) => Parsed::Bad(d),
                    }
                },
                Parsed::Bad(d) => Parsed::Bad(d),
            },
            TokV::Sym(Tok::For) => for_kind(ts, p),
            TokV::Sym(Tok::Break) => match eat(ts, p + 1, Tok::Semicolon) {
                Parsed::Done(_, q) => Parsed::Done(StmtKindV::Break, q),
                Parsed::Bad(d) => Parsed::Bad(d),
            },
            TokV::Sym(Tok::Continue) => match eat(ts, p + 1, Tok::Semicolon) {
                Parsed::Done(_, q) => Parsed::Done(StmtKindV::Continue, q),
                Parsed::Bad(d) => Parsed::Bad(d),
            },
            _ => then_eat(ts, simple_kind(ts, p), Tok::Semicolon),
        }
    }
}

/// A `for` of either form. The form over a collection is told by a name followed by `in`.
pub open spec fn for_kind(ts: Seq<TokenV>, p: int) -> Parsed<StmtKindV>
    decreases left(ts, p), 0int,
{
    if !(0 <= p < ts.len()) {
        Parsed::Bad(off_row())
    } else {
        match eat(ts, p + 1, Tok::LParen) {
            Parsed::Done(_, q) => if ts[q].kind is Ident && at(ts, q + 1, Tok::In) {
                match for_in_head(ts, q) {
                    Parsed::Done((var, iter), q2) => if !(p < q2) {
                        Parsed::Bad(off_row())
                    } else {
                        match block(ts, q2) {
                            Parsed::Done(body, q3) => Parsed::Done(
                                StmtKindV::ForIn { var, iter, body },
                                q3,
                            ),
                            Parsed::Bad(d) => Parsed::Bad(d),
                        }
                    },
                    Parsed::Bad(d) => Parsed::Bad(d),
                }
            } else {
                match for_head(ts, q) {
                    Parsed::Done((init, cond, step), q2) => if !(p < q2) {
                        Parsed::Bad(off_row())
                    } else {
                        match block(ts, q2) {
                            Parsed::Done(body, q3) => Parsed::Done(
                                StmtKindV::For { init, cond, step, body },
                                q3,
                            ),
                            Parsed::Bad(d) => Parsed::Bad(d),
                        }
                    },
                    Parsed::Bad(d) => Parsed::Bad(d),
                }
            },
            Parsed::Bad(d) => Parsed::Bad(d),
        }
    }
}

/// What follows the first branch of an `if`: nothing, `else` with a block, or `else if`,
/// which stands for a block with that one statement.
pub open spec fn else_part(ts: Seq<TokenV>, p: int) -> Parsed<Seq<StmtV>>
    decreases left(ts, p), 0int,
{
    if !(0 <= p < ts.len()) {
        Parsed::Bad(off_row())
    } else if !at(ts, p, Tok::Else) {
        Parsed::Done(Seq::empty(), p)
    } else if at(ts, p + 1, Tok::If) {
        match stmt(ts, p + 1) {
            Parsed::Done(s, q) => Parsed::Done(seq![s], q),
            Parsed::Bad(d) => Parsed::Bad(d),
        }
    } else {
        block(ts, p + 1)
    }
}

/// Statements in braces.
pub open spec fn block(ts: Seq<TokenV>, p: int) -> Parsed<Seq<StmtV>>
    decreases left(ts, p), 0int,
{
    if !(0 <= p < ts.len()) {
        Parsed::Bad(off_row())
    } else {
        match eat(ts, p, Tok::LBrace) {
            Parsed::Done(_, q) => stmts(ts, q, Seq::empty()),
            Parsed::Bad(d) => Parsed::Bad(d),
        }
    }
}

/// Statements up to and with the closing brace, after those in `acc`.
pub open spec fn stmts(ts: Seq<TokenV>, p: int, acc: Seq<StmtV>) -> Parsed<Seq<StmtV>>
    decreases left(ts, p), 3int,
{
    if !(0 <= p < ts.len()) {
        Parsed::Bad(off_row())
    } else if at(ts, p, Tok::RBrace) || at(ts, p, Tok::Eof) {
        then_eat(ts, Parsed::Done(acc, p), Tok::RBrace)
    } else {
        match stmt(ts, p) {
            Parsed::Done(s, q) => if p < q {
                stmts(ts, q, acc.push(s))
            } else {
                Parsed::Bad(off_row())
            },
            Parsed::Bad(d) => Parsed::Bad(d),
        }
    }
}

/// The body of an arm: a block or a single statement.
pub open spec fn arm_body(ts: Seq<TokenV>, p: int) -> Parsed<Seq<StmtV>>
    decreases left(ts, p), 3int,
{
    if at(ts, p, Tok::LBrace) {
        block(ts, p)
    } else {
        match stmt(ts, p) {
            Parsed::Done(s, q) => Parsed::Done(seq![s], q),
            Parsed::Bad(d) => Parsed::Bad(d),
        }
    }
}

/// The arms of a `match`, up to and with the closing brace, after those in `acc`.
pub open spec fn arms(ts: Seq<TokenV>, p: int, acc: Seq<MatchArmV>) -> Parsed<Seq<MatchArmV>>
    decreases left(ts, p), 0int,
{
    if !(0 <= p < ts.len()) {
        Parsed::Bad(off_row())
    } else if at(ts, p, Tok::RBrace) || at(ts, p, Tok::Eof) {
        then_eat(ts, Parsed::Done(acc, p), Tok::RBrace)
    } else {
        match pattern(ts, p) {
            Parsed::Done(arm, q) => if !(p < q) {
                Parsed::Bad(off_row())
            } else {
                match arm_body(ts, q) {
                    Parsed::Done(body, q2) => if !(p < q2) {
                        Parsed::Bad(off_row())
                    } else {
                        arms(
                            ts,
                            q2,
                            acc.push(
                                MatchArmV {
                                    body,
                                    span: span_to(ts, ts[p].span.start, q2),
                                    ..arm
                                },
                            ),
                        )
                    },
                    Parsed::Bad(d) => Parsed::Bad(d),
                }
            },
            Parsed::Bad(d) => Parsed::Bad(d),
        }
    }
}

// Definitions.

/// `name: ty`
pub open spec fn param(ts: Seq<TokenV>, p: int) -> Parsed<ParamV> {
    match then_eat(ts, ident(ts, p), Tok::Colon) {
        Parsed::Done(name, q) => match ty(ts, q) {
            Parsed::Done((ty, ty_span), q2) => Parsed::Done(
                ParamV { name, ty, span: span_merge(ts[p].span, ty_span) },
                q2,
            ),
            Parsed::Bad(d) => Parsed::Bad(d),
        },
        Parsed::Bad(d) => Parsed::Bad(d),
    }
}

/// Parameters or fields from `p` on, up to and with `close`, after those in `acc`. A comma
/// may stand before `close` where `trailing` says so.
pub open spec fn params_rest(
    ts: Seq<TokenV>,
    p: int,
    close: Tok,
    trailing: bool,
    acc: Seq<ParamV>,
) -> Parsed<Seq<ParamV>>
    decreases left(ts, p),
{
    match param(ts, p) {
        Parsed::Done(x, q) => if !(p < q < ts.len()) {
            Parsed::Bad(off_row())
        } else if !at(ts, q, Tok::Comma) {
            then_eat(ts, Parsed::Done(acc.push(x), q), close)
        } else if trailing && at(ts, q + 1, close) {
            Parsed::Done(acc.push(x), q + 2)
        } else {
            params_rest(ts, q + 1, close, trailing, acc.push(x))
        },
        Parsed::Bad(d) => Parsed::Bad(d),
    }
}

/// Parameters or fields up to and with `close`.
pub open spec fn params(ts: Seq<TokenV>, p: int, close: Tok, trailing: bool) -> Parsed<
    Seq<ParamV>,
> {
    if at(ts, p, close) {
        Parsed::Done(Seq::empty(), p + 1)
    } else {
        params_rest(ts, p, close, trailing, Seq::empty())
    }
}

/// `sym name open`
pub open spec fn def_head(ts: Seq<TokenV>, p: int, sym: Tok, open: Tok) -> Parsed<Seq<char>> {
    match eat(ts, p, sym) {
        Parsed::Done(_, q) => then_eat(ts, ident(ts, q), open),
        Parsed::Bad(d) => Parsed::Bad(d),
    }
}

/// `struct Name { f: T, ... }`
pub open spec fn struct_def(ts: Seq<TokenV>, p: int, is_pub: bool) -> Parsed<StructDefV> {
    match def_head(ts, p, Tok::Struct, Tok::LBrace) {
        Parsed::Done(name, q) => match params(ts, q, Tok::RBrace, true) {
            Parsed::Done(fields, q2) => Parsed::Done(
                StructDefV { name, fields, span: span_to(ts, ts[p].span.start, q2), is_pub },
                q2,
            ),
            Parsed::Bad(d) => Parsed::Bad(d),
        },
        Parsed::Bad(d) => Parsed::Bad(d),
    }
}

/// Types separated by commas, up to and with the closing bracket, after those in `acc`.
pub open spec fn types_rest(ts: Seq<TokenV>, p: int, acc: Seq<Ty>) -> Parsed<Seq<Ty>>
    decreases left(ts, p),
{
    match ty(ts, p) {
        Parsed::Done((t, _), q) => if !(p < q < ts.len()) {
            Parsed::Bad(off_row())
        } else if at(ts, q, Tok::Comma) {
            types_rest(ts, q + 1, acc.push(t))
        } else {
            then_eat(ts, Parsed::Done(acc.push(t), q), Tok::RParen)
        },
        Parsed::Bad(d) => Parsed::Bad(d),
    }
}

/// The payload of a variant: none, or the types in brackets.
pub open spec fn payload(ts: Seq<TokenV>, p: int) -> Parsed<Seq<Ty>> {
    if !at(ts, p, Tok::LParen) {
        Parsed::Done(Seq::empty(), p)
    } else if at(ts, p + 1, Tok::RParen) {
        Parsed::Done(Seq::empty(), p + 2)
    } else {
        types_rest(ts, p + 1, Seq::empty())
    }
}

/// One variant of a sum type.
pub open spec fn variant(ts: Seq<TokenV>, p: int) -> Parsed<EnumVariantV> {
    match ident(ts, p) {
        Parsed::Done(name, q) => match payload(ts, q) {
            Parsed::Done(fields, q2) => Parsed::Done(
                EnumVariantV { name, fields, span: span_to(ts, ts[p].span.start, q2) },
                q2,
            ),
            Parsed::Bad(d) => Parsed::Bad(d),
        },
        Parsed::Bad(d) => Parsed::Bad(d),
    }
}

/// The variants of a sum type, up to and with the closing brace, after those in `acc`. A
/// comma may stand before the brace.
pub open spec fn variants(ts: Seq<TokenV>, p: int, acc: Seq<EnumVariantV>) -> Parsed<
    Seq<EnumVariantV>,
>
    decreases left(ts, p),
{
    if !(0 <= p < ts.len()) {
        Parsed::Bad(off_row())
    } else if at(ts, p, Tok::RBrace) {
        Parsed::Done(acc, p + 1)
    } else {
        match variant(ts, p) {
            Parsed::Done(v, q) => if !(p < q < ts.len()) {
                Parsed::Bad(off_row())
            } else if at(ts, q, Tok::Comma) {
                variants(ts, q + 1, acc.push(v))
            } else {
                then_eat(ts, Parsed::Done(acc.push(v), q), Tok::RBrace)
            },
            Parsed::Bad(d) => Parsed::Bad(d),
        }
    }
}

/// `enum Name { Variant(T, ...), ... }`
pub open spec fn enum_def(ts: Seq<TokenV>, p: int, is_pub: bool) -> Parsed<EnumDefV> {
    match def_head(ts, p, Tok::Enum, Tok::LBrace) {
        Parsed::Done(name, q) => match variants(ts, q, Seq::empty()) {
            Parsed::Done(variants, q2) => Parsed::Done(
                EnumDefV { name, variants, span: span_to(ts, ts[p].span.start, q2), is_pub },
                q2,
            ),
            Parsed::Bad(d) => Parsed::Bad(d),
        },
        Parsed::Bad(d) => Parsed::Bad(d),
    }
}

/// `fn name(p: T, ...) -> T { ... }`, where the result is `int` if none is written.
pub open spec fn function(ts: Seq<TokenV>, p: int, is_pub: bool) -> Parsed<FunctionV> {
    match def_head(ts, p, Tok::Fn, Tok::LParen) {
        Parsed::Done(name, q) => match params(ts, q, Tok::RParen, false) {
            Parsed::Done(params, q2) => match opt_ty(ts, q2, Tok::Arrow) {
                Parsed::Done(ret, q3) => match block(ts, q3) {
                    Parsed::Done(body, q4) => Parsed::Done(
                        FunctionV {
                            name,
                            params,
                            ret: match ret {
                                Some(t) => t,
                                None => Ty::Int,
                            },
                            body,
                            span: span_to(ts, ts[p].span.start, q4),
                            is_pub,
                        },
                        q4,
                    ),
                    Parsed::Bad(d) => Parsed::Bad(d),
                },
                Parsed::Bad(d) => Parsed::Bad(d),
            },
            Parsed::Bad(d) => Parsed::Bad(d),
        },
        Parsed::Bad(d) => Parsed::Bad(d),
    }
}

/// `import "path";`
pub open spec fn import(ts: Seq<TokenV>, p: int) -> Parsed<ImportDeclV> {
    match eat(ts, p, Tok::Import) {
        Parsed::Done(_, q) => match ts[q].kind {
            TokV::Str(path) => match eat(ts, q + 1, Tok::Semicolon) {
                Parsed::Done(_, q2) => Parsed::Done(
                    ImportDeclV { path, span: span_to(ts, ts[p].span.start, q2) },
                    q2,
                ),
                Parsed::Bad(d) => Parsed::Bad(d),
            },
            _ => Parsed::Bad(
                unexpected(ts, q, "E0002"@, "import にはパス文字列が必要ですが "@),
            ),
        },
        Parsed::Bad(d) => Parsed::Bad(d),
    }
}

/// The imports at the head of a file, after those in `acc`.
pub open spec fn imports(ts: Seq<TokenV>, p: int, acc: Seq<ImportDeclV>) -> Parsed<
    Seq<ImportDeclV>,
>
    decreases left(ts, p),
{
    if !(0 <= p < ts.len()) {
        Parsed::Bad(off_row())
    } else if at(ts, p, Tok::Import) {
        match import(ts, p) {
            Parsed::Done(i, q) => if p < q {
                imports(ts, q, acc.push(i))
            } else {
                Parsed::Bad(off_row())
            },
            Parsed::Bad(d) => Parsed::Bad(d),
        }
    } else {
        Parsed::Done(acc, p)
    }
}

/// The definition at `p` added to `acc`. `pub` stands before it where `is_pub` says so.
pub open spec fn definition(ts: Seq<TokenV>, p: int, is_pub: bool, acc: ProgramV) -> Parsed<
    ProgramV,
> {
    match ts[p].kind {
        TokV::Sym(Tok::Struct) => match struct_def(ts, p, is_pub) {
            Parsed::Done(d, q) => Parsed::Done(
                ProgramV { structs: acc.structs.push(d), ..acc },
                q,
            ),
            Parsed::Bad(d) => Parsed::Bad(d),
        },
        TokV::Sym(Tok::Enum) => match enum_def(ts, p, is_pub) {
            Parsed::Done(d, q) => Parsed::Done(ProgramV { enums: acc.enums.push(d), ..acc }, q),
            Parsed::Bad(d) => Parsed::Bad(d),
        },
        TokV::Sym(Tok::Import) => Parsed::Bad(
            diag("E0002"@, "import はファイル先頭に置いてください"@, ts[p].span),
        ),
        k => if is_pub && k != TokV::Sym(Tok::Fn) {
            Parsed::Bad(
                diag("E0002"@, "pub の後には fn / struct / enum が必要です"@, ts[p].span),
            )
        } else {
            match function(ts, p, is_pub) {
                Parsed::Done(d, q) => Parsed::Done(
                    ProgramV { funcs: acc.funcs.push(d), ..acc },
                    q,
                ),
                Parsed::Bad(d) => Parsed::Bad(d),
            }
        },
    }
}

/// The definitions up to the end of the file, added to `acc`.
pub open spec fn definitions(ts: Seq<TokenV>, p: int, acc: ProgramV) -> Result<ProgramV, DiagV>
    decreases left(ts, p),
{
    if !(0 <= p < ts.len()) {
        Err(off_row())
    } else if at(ts, p, Tok::Eof) {
        Ok(acc)
    } else {
        let is_pub = at(ts, p, Tok::Pub);
        match definition(
            ts,
            if is_pub {
                p + 1
            } else {
                p
            },
            is_pub,
            acc,
        ) {
            Parsed::Done(more, q) => if p < q {
                definitions(ts, q, more)
            } else {
                Err(off_row())
            },
            Parsed::Bad(d) => Err(d),
        }
    }
}

/// The program that a row of tokens stands for.
pub open spec fn program(ts: Seq<TokenV>) -> Result<ProgramV, DiagV> {
    match imports(ts, 0, Seq::empty()) {
        Parsed::Done(imports, p) => definitions(
            ts,
            p,
            ProgramV {
                imports,
                structs: Seq::empty(),
                enums: Seq::empty(),
                funcs: Seq::empty(),
            },
        ),
        Parsed::Bad(d) => Err(d),
    }
}

/// A row of tokens that can be parsed: it closes with the end, all of it lies in one file,
/// and the offsets in it do not run out of numbers.
pub open spec fn is_parsable(ts: Seq<TokenV>) -> bool {
    &&& ts.len() > 0
    &&& ts.last().kind == TokV::Sym(Tok::Eof)
    &&& forall|k: int| 0 <= k < ts.len() ==> (#[trigger] ts[k]).span.file == ts[0].span.file
    &&& forall|k: int| 0 <= k < ts.len() ==> segments_fit((#[trigger] ts[k]).kind)
}

/// The source of an interpolated expression ends at an offset that is a number.
pub open spec fn segment_fits(s: SegmentV) -> bool {
    s matches SegmentV::Expr { src, offset } ==> offset + byte_len(src) <= usize::MAX
}

/// The same of every segment of a token.
pub open spec fn segments_fit(t: TokV) -> bool {
    t matches TokV::InterpStr(segs) ==> forall|k: int|
        0 <= k < segs.len() ==> segment_fits(#[trigger] segs[k])
}

} // verus!
