//! The parser: turns tokens into a syntax tree, by recursive descent.
//!
//! What it accepts, and what it answers, is what [`crate::grammar`] says. A rule takes the
//! index of the token that it starts at and answers with the index after it.
use crate::ast::{
    BinOp, EnumDef, EnumVariant, Expr, ExprKind, FieldInit, Function, ImportDecl, MatchArm, Param,
    Program, Stmt, StmtKind, StructDef, UnOp,
};
use crate::diagnostics::Diagnostic;
use crate::lexer::lex;
use crate::span::{FileId, Span};
use crate::text::text_eq;
use crate::token::{Segment, Tok, Token};
use crate::types::{intern, Type};
use vstd::prelude::*;
#[allow(unused_imports)]
use crate::ast::{
    arm_view, arms_view, enum_view, expr_view, exprs_view, function_view, import_view, init_view,
    inits_view, names_view, opt_expr_view, opt_stmt_view, opt_ty_view, pair_view, pairs_view,
    param_view, params_view, program_view, stmt_view, stmts_view, struct_view, types_view,
    variant_view, variants_view, EnumVariantV, ExprKindV, ExprV, FieldInitV, ImportDeclV,
    EnumDefV, FunctionV, MatchArmV, ParamV, ProgramV, StmtKindV, StmtV, StructDefV,
};
#[allow(unused_imports)]
use crate::diagnostics::{diag, DiagV};
#[allow(unused_imports)]
use crate::grammar;
#[allow(unused_imports)]
use crate::grammar::{
    at, end_before, is_parsable, nest, segment_fits, segments_fit, segs_nest, shift_diag,
    shift_span, shift_tokens, span_to, tok_nest, Parsed,
};
#[allow(unused_imports)]
use crate::lexer::{is_place, is_token_row, lemma_place_in_bounds, laid_out, lexed, segment_lies_in, segments_lie_in};
#[allow(unused_imports)]
use crate::text::byte_len;
#[allow(unused_imports)]
use crate::token::{
    is_sym, segments_view, tok_text, tokens_view, SegmentV, TokV, TokenV,
};
#[allow(unused_imports)]
use crate::types::Ty;

verus! {

proof fn lemma_segs_nest_bound(segs: Seq<SegmentV>, n: nat)
    requires
        forall|k: int|
            0 <= k < segs.len() ==> ((#[trigger] segs[k]) matches SegmentV::Expr { src, .. }
                ==> src.len() < n),
    ensures
        segs_nest(segs) <= n,
    decreases segs.len(),
{
    if segs.len() > 0 {
        lemma_segs_nest_bound(segs.drop_last(), n);
        assert(segs.last() == segs[segs.len() - 1]);
    }
}

pub proof fn lemma_segs_nest_at(segs: Seq<SegmentV>, k: int)
    requires
        0 <= k < segs.len(),
    ensures
        segs[k] matches SegmentV::Expr { src, .. } ==> src.len() < segs_nest(segs),
    decreases segs.len(),
{
    if k < segs.len() - 1 {
        lemma_segs_nest_at(segs.drop_last(), k);
        assert(segs.drop_last()[k] == segs[k]);
    }
}

pub proof fn lemma_nest_bound(ts: Seq<TokenV>, n: nat)
    requires
        forall|k: int| 0 <= k < ts.len() ==> tok_nest((#[trigger] ts[k]).kind) <= n,
    ensures
        nest(ts) <= n,
    decreases ts.len(),
{
    if ts.len() > 0 {
        lemma_nest_bound(ts.drop_last(), n);
        assert(ts.last() == ts[ts.len() - 1]);
    }
}

pub proof fn lemma_nest_at(ts: Seq<TokenV>, k: int)
    requires
        0 <= k < ts.len(),
    ensures
        tok_nest(ts[k].kind) <= nest(ts),
    decreases ts.len(),
{
    if k < ts.len() - 1 {
        lemma_nest_at(ts.drop_last(), k);
        assert(ts.drop_last()[k] == ts[k]);
    }
}

/// Interpolated expressions in the tokens of a text are shorter than the text.
proof fn lemma_lexed_nest(ts: Seq<TokenV>, src: Seq<char>, file: FileId, offset: usize)
    requires
        is_token_row(ts, src, file),
        offset + byte_len(src) <= usize::MAX,
    ensures
        nest(shift_tokens(ts, offset)) <= src.len(),
        is_parsable(shift_tokens(ts, offset)),
        shift_tokens(ts, offset)[0].span.file == file,
{
    let sub = shift_tokens(ts, offset);
    assert forall|k: int| 0 <= k < sub.len() implies tok_nest((#[trigger] sub[k]).kind)
        <= src.len() && sub[k].span.file == file && segments_fit(sub[k].kind) by {
        if k < ts.len() - 1 {
            assert(ts.drop_last()[k] == ts[k]);
            assert(segments_lie_in(ts[k].kind, src));
            if let TokV::InterpStr(segs) = ts[k].kind {
                assert forall|j: int| 0 <= j < segs.len() implies segment_fits(#[trigger] segs[j])
                    && (segs[j] matches SegmentV::Expr { src: part, .. } ==> part.len()
                    < src.len()) by {
                    assert(segment_lies_in(segs[j], src));
                }
                lemma_segs_nest_bound(segs, src.len());
            }
        } else {
            assert(ts[k] == ts.last());
        }
    }
    lemma_nest_bound(sub, src.len());
}

/// The tokens of every source text can be parsed.
pub proof fn lexed_tokens_are_parsable(ts: Seq<TokenV>, src: Seq<char>, file: FileId)
    requires
        is_token_row(ts, src, file),
        byte_len(src) <= usize::MAX,
    ensures
        is_parsable(ts),
{
    lemma_lexed_nest(ts, src, file, 0);
    let sub = shift_tokens(ts, 0);
    assert(sub =~= ts);
}

struct Parser {
    toks: Vec<Token>,
    file: FileId,
}

fn binary(op: BinOp, lhs: Expr, rhs: Expr) -> (r: Expr)
    requires
        lhs@.span.file == rhs@.span.file,
    ensures
        r@ == grammar::binary(op, lhs@, rhs@),
{
    let span = lhs.span.merge(rhs.span);
    Expr { kind: ExprKind::Binary { op, lhs: Box::new(lhs), rhs: Box::new(rhs) }, span }
}

impl Parser {
    spec fn ts(&self) -> Seq<TokenV> {
        tokens_view(self.toks@)
    }

    spec fn ok(&self) -> bool {
        &&& is_parsable(self.ts())
        &&& self.toks@.len() <= usize::MAX
        &&& self.file == self.ts()[0].span.file
    }

    /// Whether the token at `p` is `sym`.
    fn is(&self, p: usize, sym: &Tok) -> (r: bool)
        requires
            p < self.toks@.len(),
            is_sym(*sym),
        ensures
            r == at(self.ts(), p as int, *sym),
    {
        self.toks[p].kind.is(sym)
    }

    /// The span from `start` to the end of the token before `p`.
    fn span_to(&self, start: usize, p: usize) -> (r: Span)
        requires
            self.ok(),
            p <= self.toks@.len(),
        ensures
            r == span_to(self.ts(), start, p as int),
    {
        let end: usize = if p == 0 {
            0
        } else {
            self.toks[p - 1].span.end
        };
        Span::new(self.file, start, end)
    }

    fn unexpected(&self, p: usize, code: &'static str, wanted: &str) -> (r: Diagnostic)
        requires
            p < self.toks@.len(),
        ensures
            r@ == grammar::unexpected(self.ts(), p as int, code@, wanted@),
    {
        let shown = self.toks[p].kind.describe();
        let message = wanted.to_string().concat(shown.as_str()).concat(" が来ました");
        Diagnostic::coded(code, message, self.toks[p].span)
    }

    fn eat(&self, p: usize, sym: &Tok) -> (r: Result<usize, Diagnostic>)
        requires
            self.ok(),
            p < self.toks@.len(),
            is_sym(*sym),
            !(*sym is Eof),
        ensures
            match r {
                Ok(q) => grammar::eat(self.ts(), p as int, *sym) == Parsed::Done((), q as int)
                    && q == p + 1 && q < self.toks@.len(),
                Err(d) => grammar::eat(self.ts(), p as int, *sym) == Parsed::<()>::Bad(d@),
            },
    {
        if self.is(p, sym) {
            assert(self.ts()[p as int].kind != self.ts().last().kind);
            Ok(p + 1)
        } else {
            let wanted = sym.describe().concat(" を期待しましたが ");
            Err(self.unexpected(p, "E0002", wanted.as_str()))
        }
    }

    fn ident(&self, p: usize) -> (r: Result<(String, usize), Diagnostic>)
        requires
            self.ok(),
            p < self.toks@.len(),
        ensures
            match r {
                Ok((s, q)) => grammar::ident(self.ts(), p as int) == Parsed::Done(s@, q as int)
                    && q == p + 1 && q < self.toks@.len(),
                Err(d) => grammar::ident(self.ts(), p as int) == Parsed::<Seq<char>>::Bad(d@),
            },
    {
        match &self.toks[p].kind {
            Tok::Ident(s) => {
                assert(self.ts()[p as int].kind != self.ts().last().kind);
                Ok((s.clone(), p + 1))
            },
            _ => Err(self.unexpected(p, "E0002", "識別子を期待しましたが ")),
        }
    }

    fn ty(&self, p: usize) -> (r: Result<((Type, Span), usize), Diagnostic>)
        requires
            self.ok(),
            p < self.toks@.len(),
        ensures
            match r {
                Ok(((t, s), q)) => grammar::ty(self.ts(), p as int) == Parsed::Done(
                    (t@, s),
                    q as int,
                ) && p < q < self.toks@.len() && s.file == self.file && !(t@ is Null),
                Err(d) => grammar::ty(self.ts(), p as int) == Parsed::<(Ty, Span)>::Bad(d@),
            },
        decreases self.toks@.len() - p,
    {
        let span = self.toks[p].span;
        assert(self.ts()[p as int].span == span);
        match &self.toks[p].kind {
            Tok::Ident(name) => {
                assert(self.ts()[p as int].kind != self.ts().last().kind);
                let t = if text_eq(name.as_str(), "int") {
                    Type::Int
                } else if text_eq(name.as_str(), "bool") {
                    Type::Bool
                } else if text_eq(name.as_str(), "float") {
                    Type::Float
                } else if text_eq(name.as_str(), "string") {
                    Type::Str
                } else {
                    Type::Struct(intern(name.as_str()))
                };
                Ok(((t, span), p + 1))
            },
            Tok::LBracket => {
                assert(self.ts()[p as int].kind != self.ts().last().kind);
                let ((elem, _), q) = self.ty(p + 1)?;
                let q: usize = self.eat(q, &Tok::RBracket)?;
                let e = elem.as_elem().unwrap();
                Ok(((Type::Array(e), self.span_to(span.start, q)), q))
            },
            Tok::LBrace => {
                assert(self.ts()[p as int].kind != self.ts().last().kind);
                let ((key, key_span), q) = self.ty(p + 1)?;
                if !matches!(key, Type::Str) {
                    let shown = key.name();
                    let message = "map のキーは string でなければなりません（".to_string().concat(
                        shown.as_str(),
                    ).concat(" は不可）");
                    return Err(Diagnostic::coded("E0300", message, key_span));
                }
                let q: usize = self.eat(q, &Tok::Colon)?;
                let ((val, _), q) = self.ty(q)?;
                let q: usize = self.eat(q, &Tok::RBrace)?;
                let v = val.as_elem().unwrap();
                Ok(((Type::MapOf(v), self.span_to(span.start, q)), q))
            },
            _ => Err(self.unexpected(p, "E0300", "型名を期待しましたが ")),
        }
    }

    spec fn agrees(&self, p: int, r: Result<(Expr, usize), Diagnostic>, want: Parsed<ExprV>) -> bool {
        match r {
            Ok((e, q)) => want == Parsed::Done(e@, q as int) && p < q < self.toks@.len()
                && e@.span.file == self.file,
            Err(d) => want == Parsed::<ExprV>::Bad(d@),
        }
    }

    fn expr(&self, p: usize) -> (r: Result<(Expr, usize), Diagnostic>)
        requires
            self.ok(),
            p < self.toks@.len(),
        ensures
            self.agrees(p as int, r, grammar::expr(self.ts(), p as int)),
        decreases nest(self.ts()), self.toks@.len() - p, 13int, 0int,
    {
        self.level(p, 0)
    }

    fn level(&self, p: usize, k: u8) -> (r: Result<(Expr, usize), Diagnostic>)
        requires
            self.ok(),
            p < self.toks@.len(),
            k <= 9,
        ensures
            self.agrees(p as int, r, grammar::level(self.ts(), p as int, k as int)),
        decreases nest(self.ts()), self.toks@.len() - p, 12 - k, 0int,
    {
        if k == 9 {
            return self.unary(p);
        }
        let (first, q) = self.level(p, k + 1)?;
        let mut lhs = first;
        let mut q: usize = q;
        let ghost want = grammar::level(self.ts(), p as int, k as int);
        loop
            invariant
                self.ok(),
                p < q < self.toks@.len(),
                k < 9,
                want == grammar::level(self.ts(), p as int, k as int),
                want == grammar::level_rest(self.ts(), q as int, k as int, lhs@),
                lhs@.span.file == self.file,
            decreases self.toks@.len() - q,
        {
            match level_op(k, &self.toks[q].kind) {
                Some(op) => {
                    assert(self.ts()[q as int].kind != self.ts().last().kind);
                    let (rhs, q2) = self.level(q + 1, k + 1)?;
                    lhs = binary(op, lhs, rhs);
                    q = q2;
                },
                None => {
                    return Ok((lhs, q));
                },
            }
        }
    }

    fn unary(&self, p: usize) -> (r: Result<(Expr, usize), Diagnostic>)
        requires
            self.ok(),
            p < self.toks@.len(),
        ensures
            self.agrees(p as int, r, grammar::unary(self.ts(), p as int)),
        decreases nest(self.ts()), self.toks@.len() - p, 2int, 0int,
    {
        let span = self.toks[p].span;
        assert(self.ts()[p as int].span == span);
        let op = match &self.toks[p].kind {
            Tok::Minus => Some(UnOp::Neg),
            Tok::Bang => Some(UnOp::Not),
            Tok::Tilde => Some(UnOp::BitNot),
            _ => None,
        };
        match op {
            Some(op) => {
                assert(self.ts()[p as int].kind != self.ts().last().kind);
                let (e, q) = self.unary(p + 1)?;
                let span = span.merge(e.span);
                Ok((Expr { kind: ExprKind::Unary { op, expr: Box::new(e) }, span }, q))
            },
            None => self.postfix(p),
        }
    }

    fn postfix(&self, p: usize) -> (r: Result<(Expr, usize), Diagnostic>)
        requires
            self.ok(),
            p < self.toks@.len(),
            grammar::prefix_op(self.ts()[p as int].kind) is None,
        ensures
            self.agrees(p as int, r, grammar::unary(self.ts(), p as int)),
        decreases nest(self.ts()), self.toks@.len() - p, 1int, 1int,
    {
        let (first, q) = self.primary(p)?;
        let mut e = first;
        let mut q: usize = q;
        let ghost want = grammar::unary(self.ts(), p as int);
        loop
            invariant
                self.ok(),
                p < q < self.toks@.len(),
                want == grammar::unary(self.ts(), p as int),
                want == grammar::postfix_rest(self.ts(), q as int, e@),
                e@.span.file == self.file,
            decreases self.toks@.len() - q,
        {
            if self.is(q, &Tok::LBracket) {
                assert(self.ts()[q as int].kind != self.ts().last().kind);
                let (e2, q2) = self.bracket(q + 1, e)?;
                e = e2;
                q = q2;
            } else if self.is(q, &Tok::Dot) {
                assert(self.ts()[q as int].kind != self.ts().last().kind);
                let (field, q2) = self.ident(q + 1)?;
                let span = self.span_to(e.span.start, q2);
                e = Expr { kind: ExprKind::Field { obj: Box::new(e), field }, span };
                q = q2;
            } else {
                return Ok((e, q));
            }
        }
    }

    fn opt_expr(&self, p: usize, stop: &Tok) -> (r: Result<
        (Option<Box<Expr>>, usize),
        Diagnostic,
    >)
        requires
            self.ok(),
            p < self.toks@.len(),
            is_sym(*stop),
        ensures
            match r {
                Ok((e, q)) => grammar::opt_expr(self.ts(), p as int, *stop) == Parsed::Done(
                    opt_expr_view(e),
                    q as int,
                ) && p <= q < self.toks@.len() && (e is None ==> at(self.ts(), q as int, *stop)),
                Err(d) => grammar::opt_expr(self.ts(), p as int, *stop) == Parsed::<
                    Option<Box<ExprV>>,
                >::Bad(d@),
            },
        decreases nest(self.ts()), self.toks@.len() - p, 14int, 0int,
    {
        if self.is(p, stop) {
            Ok((None, p))
        } else {
            let (e, q) = self.expr(p)?;
            Ok((Some(Box::new(e)), q))
        }
    }

    fn bracket(&self, p: usize, e: Expr) -> (r: Result<(Expr, usize), Diagnostic>)
        requires
            self.ok(),
            p < self.toks@.len(),
        ensures
            self.agrees(p as int, r, grammar::bracket(self.ts(), p as int, e@)),
        decreases nest(self.ts()), self.toks@.len() - p, 15int, 0int,
    {
        let (lo, q) = self.opt_expr(p, &Tok::Colon)?;
        if self.is(q, &Tok::Colon) {
            assert(self.ts()[q as int].kind != self.ts().last().kind);
            let (hi, q) = self.opt_expr(q + 1, &Tok::RBracket)?;
            let q: usize = self.eat(q, &Tok::RBracket)?;
            let span = self.span_to(e.span.start, q);
            Ok((Expr { kind: ExprKind::Slice { seq: Box::new(e), lo, hi }, span }, q))
        } else {
            let q: usize = self.eat(q, &Tok::RBracket)?;
            let index = lo.unwrap();
            let span = self.span_to(e.span.start, q);
            Ok((Expr { kind: ExprKind::Index { array: Box::new(e), index }, span }, q))
        }
    }

    /// A string with interpolated expressions, as a chain of `+` and `str`.
    fn interpolation(&self, p: usize, segs: &Vec<Segment>) -> (r: Result<Expr, Diagnostic>)
        requires
            self.ok(),
            p < self.toks@.len(),
            self.ts()[p as int].kind == TokV::InterpStr(segments_view(segs@)),
        ensures
            match r {
                Ok(e) => (match grammar::interpolation(
                    self.ts(),
                    p as int,
                    segments_view(segs@),
                ) {
                    Ok(Some(x)) => e@ == x,
                    Ok(None) => e@ == (ExprV {
                        kind: ExprKindV::Str(Seq::empty()),
                        span: self.ts()[p as int].span,
                    }),
                    Err(_) => false,
                }) && e@.span.file == self.file,
                Err(d) => grammar::interpolation(self.ts(), p as int, segments_view(segs@)) == Err::<
                    Option<ExprV>,
                    DiagV,
                >(d@),
            },
        decreases nest(self.ts()), self.toks@.len() - p, 0int, 1int,
    {
        let span = self.toks[p].span;
        assert(self.ts()[p as int].span == span);
        let mut acc: Option<Expr> = None;
        let ghost all = segments_view(segs@);
        let mut i: usize = 0;
        assert(all.take(0) =~= Seq::empty());
        while i < segs.len()
            invariant
                self.ok(),
                p < self.toks@.len(),
                0 <= i <= segs@.len(),
                all == segments_view(segs@),
                self.ts()[p as int].kind == TokV::InterpStr(all),
                self.ts()[p as int].span == span,
                match grammar::interpolation(self.ts(), p as int, all.take(i as int)) {
                    Ok(Some(x)) => acc matches Some(a) && a@ == x && a@.span.file == self.file,
                    Ok(None) => acc is None,
                    Err(_) => false,
                },
            decreases segs@.len() - i,
        {
            proof {
                assert(all.take(i + 1).drop_last() =~= all.take(i as int));
                assert(all.take(i + 1).last() == all[i as int]);
                lemma_interpolation_error(self.ts(), p as int, all, i + 1);
            }
            let part = match &segs[i] {
                Segment::Lit(s) => Expr { kind: ExprKind::Str(s.clone()), span },
                Segment::Expr { src, offset } => {
                    proof {
                        assert(segments_fit(self.ts()[p as int].kind));
                        assert(self.ts()[p as int].kind->InterpStr_0 == all);
                        assert(segment_fits(all[i as int]));
                        lemma_segs_nest_at(all, i as int);
                        lemma_nest_at(self.ts(), p as int);
                    }
                    let e = self.embedded(p, src, *offset)?;
                    let at = e.span;
                    let mut args: Vec<Expr> = Vec::new();
                    args.push(e);
                    assert(exprs_view(args@) =~= seq![e@]);
                    Expr { kind: ExprKind::Call { name: "str".to_string(), args }, span: at }
                },
            };
            acc = match acc {
                None => Some(part),
                Some(a) => Some(binary(BinOp::Add, a, part)),
            };
            i += 1;
        }
        assert(all.take(i as int) =~= all);
        match acc {
            Some(e) => Ok(e),
            None => Ok(Expr { kind: ExprKind::Str(String::new()), span }),
        }
    }

    /// The expression in the source of an interpolation.
    fn embedded(&self, p: usize, src: &String, offset: usize) -> (r: Result<Expr, Diagnostic>)
        requires
            self.ok(),
            p < self.toks@.len(),
            offset + byte_len(src@) <= usize::MAX,
            src@.len() < nest(self.ts()),
        ensures
            match r {
                Ok(e) => grammar::embedded(self.ts(), p as int, src@, offset) == Ok::<
                    ExprV,
                    DiagV,
                >(e@) && e@.span.file == self.file,
                Err(d) => grammar::embedded(self.ts(), p as int, src@, offset) == Err::<
                    ExprV,
                    DiagV,
                >(d@),
            },
        decreases nest(self.ts()), self.toks@.len() - p, 0int, 0int,
    {
        let file = self.toks[p].span.file;
        assert(self.ts()[p as int].span.file == self.file);
        let lexed = lex(src.as_str(), file);
        match lexed {
            Err(d) => {
                proof {
                    lemma_place_in_bounds(d@.span->0, src@, file);
                }
                Err(shifted_error(d, offset, src))
            },
            Ok(inner) => {
                proof {
                    lemma_lexed_nest(tokens_view(inner@), src@, file, offset);
                }
                let toks = shifted(inner, offset, src);
                let count: usize = toks.len();
                let sub = Parser { toks, file };
                let (e, q) = sub.expr(0)?;
                if sub.is(q, &Tok::Eof) {
                    Ok(e)
                } else {
                    Err(
                        Diagnostic::coded(
                            "E0002",
                            "補間 {…} の中は 1 つの式にしてください".to_string(),
                            sub.toks[q].span,
                        ),
                    )
                }
            },
        }
    }

    fn primary(&self, p: usize) -> (r: Result<(Expr, usize), Diagnostic>)
        requires
            self.ok(),
            p < self.toks@.len(),
        ensures
            self.agrees(p as int, r, grammar::primary(self.ts(), p as int)),
        decreases nest(self.ts()), self.toks@.len() - p, 1int, 0int,
    {
        let span = self.toks[p].span;
        assert(self.ts()[p as int].span == span);
        assert(self.ts().last().kind == TokV::Sym(Tok::Eof));
        match &self.toks[p].kind {
            Tok::Int(n) => Ok((Expr { kind: ExprKind::Int(*n), span }, p + 1)),
            Tok::Float(s) => Ok((Expr { kind: ExprKind::Float(s.clone()), span }, p + 1)),
            Tok::Str(s) => Ok((Expr { kind: ExprKind::Str(s.clone()), span }, p + 1)),
            Tok::InterpStr(segs) => {
                let e = self.interpolation(p, segs)?;
                Ok((e, p + 1))
            },
            Tok::Ident(name) => self.named(p, name),
            Tok::True => Ok((Expr { kind: ExprKind::Bool(true), span }, p + 1)),
            Tok::False => Ok((Expr { kind: ExprKind::Bool(false), span }, p + 1)),
            Tok::Null => Ok((Expr { kind: ExprKind::Null, span }, p + 1)),
            Tok::LParen => {
                let (e, q) = self.expr(p + 1)?;
                let q: usize = self.eat(q, &Tok::RParen)?;
                Ok((e, q))
            },
            Tok::LBracket => {
                let (elems, q) = self.exprs(p + 1, &Tok::RBracket, true)?;
                let span = self.span_to(span.start, q);
                Ok((Expr { kind: ExprKind::Array(elems), span }, q))
            },
            Tok::LBrace => {
                let (items, q) = self.pairs(p + 1)?;
                let span = self.span_to(span.start, q);
                Ok((Expr { kind: ExprKind::MapLit(items), span }, q))
            },
            _ => Err(self.unexpected(p, "E0002", "式を期待しましたが ")),
        }
    }

    fn named(&self, p: usize, name: &String) -> (r: Result<(Expr, usize), Diagnostic>)
        requires
            self.ok(),
            p + 1 < self.toks@.len(),
        ensures
            self.agrees(p as int, r, grammar::named(self.ts(), p as int, name@)),
        decreases nest(self.ts()), self.toks@.len() - p, 0int, 0int,
    {
        let span = self.toks[p].span;
        assert(self.ts()[p as int].span == span);
        assert(self.ts().last().kind == TokV::Sym(Tok::Eof));
        if self.is(p + 1, &Tok::LParen) {
            let (args, q) = self.exprs(p + 2, &Tok::RParen, false)?;
            let span = self.span_to(span.start, q);
            Ok((Expr { kind: ExprKind::Call { name: name.clone(), args }, span }, q))
        } else if self.is(p + 1, &Tok::LBrace) {
            let (fields, q) = self.inits(p + 2)?;
            let span = self.span_to(span.start, q);
            Ok((Expr { kind: ExprKind::StructLit { name: name.clone(), fields }, span }, q))
        } else {
            Ok((Expr { kind: ExprKind::Var(name.clone()), span }, p + 1))
        }
    }

    fn exprs(&self, p: usize, close: &Tok, trailing: bool) -> (r: Result<
        (Vec<Expr>, usize),
        Diagnostic,
    >)
        requires
            self.ok(),
            p < self.toks@.len(),
            is_sym(*close),
            !(*close is Eof),
        ensures
            match r {
                Ok((v, q)) => grammar::exprs(self.ts(), p as int, *close, trailing)
                    == Parsed::Done(exprs_view(v@), q as int) && p < q < self.toks@.len(),
                Err(d) => grammar::exprs(self.ts(), p as int, *close, trailing) == Parsed::<
                    Seq<ExprV>,
                >::Bad(d@),
            },
        decreases nest(self.ts()), self.toks@.len() - p, 15int, 0int,
    {
        let mut acc: Vec<Expr> = Vec::new();
        assert(self.ts().last().kind == TokV::Sym(Tok::Eof));
        assert(exprs_view(acc@) =~= Seq::empty());
        if self.is(p, close) {
            return Ok((acc, p + 1));
        }
        let mut q: usize = p;
        let ghost want = grammar::exprs(self.ts(), p as int, *close, trailing);
        loop
            invariant
                self.ok(),
                is_sym(*close),
                !(*close is Eof),
                p <= q < self.toks@.len(),
                self.ts().last().kind == TokV::Sym(Tok::Eof),
                want == grammar::exprs(self.ts(), p as int, *close, trailing),
                want == grammar::exprs_rest(
                    self.ts(),
                    q as int,
                    *close,
                    trailing,
                    exprs_view(acc@),
                ),
            decreases self.toks@.len() - q,
        {
            let (e, q2) = self.expr(q)?;
            let ghost before = exprs_view(acc@);
            acc.push(e);
            assert(exprs_view(acc@) =~= before.push(e@));
            if !self.is(q2, &Tok::Comma) {
                let q3: usize = self.eat(q2, close)?;
                return Ok((acc, q3));
            }
            if trailing && self.is(q2 + 1, close) {
                return Ok((acc, q2 + 2));
            }
            q = q2 + 1;
        }
    }

    fn pairs(&self, p: usize) -> (r: Result<(Vec<(Expr, Expr)>, usize), Diagnostic>)
        requires
            self.ok(),
            p < self.toks@.len(),
        ensures
            match r {
                Ok((v, q)) => grammar::pairs(self.ts(), p as int, Seq::empty()) == Parsed::Done(
                    pairs_view(v@),
                    q as int,
                ) && p < q < self.toks@.len(),
                Err(d) => grammar::pairs(self.ts(), p as int, Seq::empty()) == Parsed::<
                    Seq<(ExprV, ExprV)>,
                >::Bad(d@),
            },
        decreases nest(self.ts()), self.toks@.len() - p, 14int, 0int,
    {
        let mut acc: Vec<(Expr, Expr)> = Vec::new();
        assert(pairs_view(acc@) =~= Seq::empty());
        assert(self.ts().last().kind == TokV::Sym(Tok::Eof));
        let mut q: usize = p;
        let ghost want = grammar::pairs(self.ts(), p as int, Seq::empty());
        loop
            invariant
                self.ok(),
                p <= q < self.toks@.len(),
                self.ts().last().kind == TokV::Sym(Tok::Eof),
                want == grammar::pairs(self.ts(), p as int, Seq::empty()),
                want == grammar::pairs(self.ts(), q as int, pairs_view(acc@)),
            decreases self.toks@.len() - q,
        {
            if self.is(q, &Tok::RBrace) {
                return Ok((acc, q + 1));
            }
            let (key, q1) = self.expr(q)?;
            let q2: usize = self.eat(q1, &Tok::Colon)?;
            let (value, q3) = self.expr(q2)?;
            let ghost before = pairs_view(acc@);
            let ghost added = (key@, value@);
            acc.push((key, value));
            assert(pairs_view(acc@) =~= before.push(added));
            if !self.is(q3, &Tok::Comma) {
                let q4: usize = self.eat(q3, &Tok::RBrace)?;
                return Ok((acc, q4));
            }
            q = q3 + 1;
        }
    }

    fn inits(&self, p: usize) -> (r: Result<(Vec<FieldInit>, usize), Diagnostic>)
        requires
            self.ok(),
            p < self.toks@.len(),
        ensures
            match r {
                Ok((v, q)) => grammar::inits(self.ts(), p as int, Seq::empty()) == Parsed::Done(
                    inits_view(v@),
                    q as int,
                ) && p < q < self.toks@.len(),
                Err(d) => grammar::inits(self.ts(), p as int, Seq::empty()) == Parsed::<
                    Seq<FieldInitV>,
                >::Bad(d@),
            },
        decreases nest(self.ts()), self.toks@.len() - p, 14int, 0int,
    {
        let mut acc: Vec<FieldInit> = Vec::new();
        assert(inits_view(acc@) =~= Seq::empty());
        assert(self.ts().last().kind == TokV::Sym(Tok::Eof));
        let mut q: usize = p;
        let ghost want = grammar::inits(self.ts(), p as int, Seq::empty());
        loop
            invariant
                self.ok(),
                p <= q < self.toks@.len(),
                self.ts().last().kind == TokV::Sym(Tok::Eof),
                want == grammar::inits(self.ts(), p as int, Seq::empty()),
                want == grammar::inits(self.ts(), q as int, inits_view(acc@)),
            decreases self.toks@.len() - q,
        {
            if self.is(q, &Tok::RBrace) {
                return Ok((acc, q + 1));
            }
            let (name, q1) = self.ident(q)?;
            let q2: usize = self.eat(q1, &Tok::Colon)?;
            let (value, q3) = self.expr(q2)?;
            let span = Span::new(self.file, self.toks[q].span.start, value.span.end);
            let ghost before = inits_view(acc@);
            let ghost added = FieldInitV { name: name@, value: value@, span };
            acc.push(FieldInit { name, value, span });
            assert(inits_view(acc@) =~= before.push(added));
            if !self.is(q3, &Tok::Comma) {
                let q4: usize = self.eat(q3, &Tok::RBrace)?;
                return Ok((acc, q4));
            }
            q = q3 + 1;
        }
    }
}

/// The operator that `t` is on the given level of binding.
fn level_op(level: u8, t: &Tok) -> (r: Option<BinOp>)
    ensures
        r == grammar::level_op(level as int, t@),
{
    match (level, t) {
        (0, Tok::PipePipe) => Some(BinOp::Or),
        (1, Tok::AmpAmp) => Some(BinOp::And),
        (2, Tok::Pipe) => Some(BinOp::BitOr),
        (3, Tok::Caret) => Some(BinOp::BitXor),
        (4, Tok::Amp) => Some(BinOp::BitAnd),
        (5, Tok::EqEq) => Some(BinOp::Eq),
        (5, Tok::NotEq) => Some(BinOp::Ne),
        (5, Tok::Lt) => Some(BinOp::Lt),
        (5, Tok::Le) => Some(BinOp::Le),
        (5, Tok::Gt) => Some(BinOp::Gt),
        (5, Tok::Ge) => Some(BinOp::Ge),
        (6, Tok::Shl) => Some(BinOp::Shl),
        (6, Tok::Shr) => Some(BinOp::Shr),
        (7, Tok::Plus) => Some(BinOp::Add),
        (7, Tok::Minus) => Some(BinOp::Sub),
        (8, Tok::Star) => Some(BinOp::Mul),
        (8, Tok::Slash) => Some(BinOp::Div),
        (8, Tok::Percent) => Some(BinOp::Mod),
        _ => None,
    }
}

/// An error in the first segments is the error of all of them.
proof fn lemma_interpolation_error(ts: Seq<TokenV>, p: int, segs: Seq<SegmentV>, i: int)
    requires
        0 <= i <= segs.len(),
    ensures
        grammar::interpolation(ts, p, segs.take(i)) is Err ==> grammar::interpolation(ts, p, segs)
            == grammar::interpolation(ts, p, segs.take(i)),
    decreases segs.len() - i,
{
    if i < segs.len() {
        lemma_interpolation_error(ts, p, segs, i + 1);
        assert(segs.take(i + 1).drop_last() =~= segs.take(i));
    } else {
        assert(segs.take(i) =~= segs);
    }
}

/// The tokens of `src`, `offset` bytes further on.
fn shifted(toks: Vec<Token>, offset: usize, src: &String) -> (r: Vec<Token>)
    requires
        exists|file: FileId| is_token_row(tokens_view(toks@), src@, file),
        offset + byte_len(src@) <= usize::MAX,
    ensures
        tokens_view(r@) == shift_tokens(tokens_view(toks@), offset),
{
    let ghost all = tokens_view(toks@);
    let ghost file = choose|file: FileId| is_token_row(all, src@, file);
    let mut toks = toks;
    let mut i: usize = 0;
    while i < toks.len()
        invariant
            0 <= i <= toks@.len(),
            toks@.len() == all.len(),
            is_token_row(all, src@, file),
            offset + byte_len(src@) <= usize::MAX,
            forall|k: int|
                0 <= k < i ==> (#[trigger] toks@[k])@ == shift_tokens(all, offset)[k],
            forall|k: int| i <= k < all.len() ==> (#[trigger] toks@[k])@ == all[k],
        decreases toks@.len() - i,
    {
        proof {
            if i < all.len() - 1 {
                assert(all.drop_last()[i as int] == all[i as int]);
            }
            assert(toks@[i as int]@ == all[i as int]);
            assert(all[i as int].span.start <= all[i as int].span.end <= byte_len(src@));
        }
        let s = toks[i].span;
        toks[i].span = Span::new(s.file, s.start + offset, s.end + offset);
        i += 1;
    }
    assert(tokens_view(toks@) =~= shift_tokens(all, offset));
    toks
}

/// The error in `src`, `offset` bytes further on.
fn shifted_error(d: Diagnostic, offset: usize, src: &String) -> (r: Diagnostic)
    requires
        d@.span matches Some(s) ==> s.start <= byte_len(src@) && s.end <= byte_len(src@),
        offset + byte_len(src@) <= usize::MAX,
    ensures
        r@ == shift_diag(d@, offset),
{
    match d.span {
        Some(s) => d.at(Span::new(s.file, s.start + offset, s.end + offset)),
        None => d,
    }
}

impl Parser {
    fn paren_expr(&self, p: usize) -> (r: Result<(Expr, usize), Diagnostic>)
        requires
            self.ok(),
            p < self.toks@.len(),
        ensures
            self.agrees(p as int, r, grammar::paren_expr(self.ts(), p as int)),
    {
        let q: usize = self.eat(p, &Tok::LParen)?;
        let (e, q) = self.expr(q)?;
        let q: usize = self.eat(q, &Tok::RParen)?;
        Ok((e, q))
    }

    fn opt_ty(&self, p: usize, mark: &Tok) -> (r: Result<(Option<Type>, usize), Diagnostic>)
        requires
            self.ok(),
            p < self.toks@.len(),
            is_sym(*mark),
            !(*mark is Eof),
        ensures
            match r {
                Ok((t, q)) => grammar::opt_ty(self.ts(), p as int, *mark) == Parsed::Done(opt_ty_view(t), q as int)
                    && p <= q < self.toks@.len(),
                Err(d) => grammar::opt_ty(self.ts(), p as int, *mark) == Parsed::<Option<Ty>>::Bad(d@),
            },
    {
        if self.is(p, mark) {
            assert(self.ts().last().kind == TokV::Sym(Tok::Eof));
            let ((t, _), q) = self.ty(p + 1)?;
            Ok((Some(t), q))
        } else {
            Ok((None, p))
        }
    }

    /// A `let`, an assignment or an expression, without the semicolon.
    fn simple_kind(&self, p: usize) -> (r: Result<(StmtKind, usize), Diagnostic>)
        requires
            self.ok(),
            p < self.toks@.len(),
        ensures
            self.kind_agrees(p as int, r, grammar::simple_kind(self.ts(), p as int)),
    {
        assert(self.ts().last().kind == TokV::Sym(Tok::Eof));
        if self.is(p, &Tok::Let) {
            let (name, q) = self.ident(p + 1)?;
            let (ty, q) = self.opt_ty(q, &Tok::Colon)?;
            let q: usize = self.eat(q, &Tok::Assign)?;
            let (value, q) = self.expr(q)?;
            Ok((StmtKind::Let { name, ty, value }, q))
        } else {
            let (e, q) = self.expr(p)?;
            self.finish_assign_or_expr(q, e)
        }
    }

    spec fn kind_agrees(
        &self,
        p: int,
        r: Result<(StmtKind, usize), Diagnostic>,
        want: Parsed<StmtKindV>,
    ) -> bool {
        match r {
            Ok((k, q)) => want == Parsed::Done(kind_view(k), q as int) && p < q < self.toks@.len(),
            Err(d) => want == Parsed::<StmtKindV>::Bad(d@),
        }
    }

    /// What follows the expression `e` at the head of a statement. `a op= b` becomes
    /// `a = a op b`; the left side then occurs twice, and is evaluated twice.
    fn finish_assign_or_expr(&self, p: usize, e: Expr) -> (r: Result<
        (StmtKind, usize),
        Diagnostic,
    >)
        requires
            self.ok(),
            p < self.toks@.len(),
        ensures
            match r {
                Ok((k, q)) => grammar::assign_rest(self.ts(), p as int, e@) == Parsed::Done(
                    kind_view(k),
                    q as int,
                ) && p <= q < self.toks@.len(),
                Err(d) => grammar::assign_rest(self.ts(), p as int, e@) == Parsed::<
                    StmtKindV,
                >::Bad(d@),
            },
    {
        assert(self.ts().last().kind == TokV::Sym(Tok::Eof));
        if self.is(p, &Tok::Assign) {
            let (value, q) = self.expr(p + 1)?;
            return Ok((StmtKind::Assign { target: e, value }, q));
        }
        match compound_op(&self.toks[p].kind) {
            Some(op) => {
                let (value, q) = self.expr(p + 1)?;
                let span = self.span_to(e.span.start, q);
                let lhs = e.clone();
                let combined = Expr {
                    kind: ExprKind::Binary { op, lhs: Box::new(lhs), rhs: Box::new(value) },
                    span,
                };
                Ok((StmtKind::Assign { target: e, value: combined }, q))
            },
            None => Ok((StmtKind::ExprStmt(e), p)),
        }
    }

    fn opt_simple(&self, p: usize, stop: &Tok) -> (r: Result<
        (Option<Box<Stmt>>, usize),
        Diagnostic,
    >)
        requires
            self.ok(),
            p < self.toks@.len(),
            is_sym(*stop),
        ensures
            match r {
                Ok((s, q)) => grammar::opt_simple(self.ts(), p as int, *stop) == Parsed::Done(opt_stmt_view(s), q as int)
                    && p <= q < self.toks@.len(),
                Err(d) => grammar::opt_simple(self.ts(), p as int, *stop) == Parsed::<Option<Box<StmtV>>>::Bad(d@),
            },
    {
        if self.is(p, stop) {
            Ok((None, p))
        } else {
            let (kind, q) = self.simple_kind(p)?;
            let span = self.span_to(self.toks[p].span.start, q);
            Ok((Some(Box::new(Stmt { kind, span })), q))
        }
    }

    fn for_head(&self, p: usize) -> (r: Result<
        ((Option<Box<Stmt>>, Expr, Option<Box<Stmt>>), usize),
        Diagnostic,
    >)
        requires
            self.ok(),
            p < self.toks@.len(),
        ensures
            match r {
                Ok(((init, cond, step), q)) => grammar::for_head(self.ts(), p as int) == Parsed::Done((opt_stmt_view(init), cond@, opt_stmt_view(step)), q as int)
                    && p < q < self.toks@.len(),
                Err(d) => grammar::for_head(self.ts(), p as int) == Parsed::<(Option<Box<StmtV>>, ExprV, Option<Box<StmtV>>)>::Bad(d@),
            },
    {
        let (init, q) = self.opt_simple(p, &Tok::Semicolon)?;
        let q: usize = self.eat(q, &Tok::Semicolon)?;
        let (cond, q) = self.expr(q)?;
        let q: usize = self.eat(q, &Tok::Semicolon)?;
        let (step, q) = self.opt_simple(q, &Tok::RParen)?;
        let q: usize = self.eat(q, &Tok::RParen)?;
        Ok(((init, cond, step), q))
    }

    fn for_in_head(&self, p: usize) -> (r: Result<((String, Expr), usize), Diagnostic>)
        requires
            self.ok(),
            p < self.toks@.len(),
        ensures
            match r {
                Ok(((var, iter), q)) => grammar::for_in_head(self.ts(), p as int) == Parsed::Done((var@, iter@), q as int)
                    && p < q < self.toks@.len(),
                Err(d) => grammar::for_in_head(self.ts(), p as int) == Parsed::<(Seq<char>, ExprV)>::Bad(d@),
            },
    {
        let (var, q) = self.ident(p)?;
        let q: usize = self.eat(q, &Tok::In)?;
        let (iter, q) = self.expr(q)?;
        let q: usize = self.eat(q, &Tok::RParen)?;
        Ok(((var, iter), q))
    }

    fn bindings(&self, p: usize) -> (r: Result<(Vec<String>, usize), Diagnostic>)
        requires
            self.ok(),
            p < self.toks@.len(),
        ensures
            match r {
                Ok((v, q)) => grammar::bindings(self.ts(), p as int) == Parsed::Done(names_view(v@), q as int)
                    && p <= q < self.toks@.len(),
                Err(d) => grammar::bindings(self.ts(), p as int) == Parsed::<Seq<Seq<char>>>::Bad(d@),
            },
    {
        let mut acc: Vec<String> = Vec::new();
        assert(names_view(acc@) =~= Seq::empty());
        assert(self.ts().last().kind == TokV::Sym(Tok::Eof));
        if !self.is(p, &Tok::LParen) {
            return Ok((acc, p));
        }
        if self.is(p + 1, &Tok::RParen) {
            return Ok((acc, p + 2));
        }
        let mut q: usize = p + 1;
        let ghost want = grammar::bindings(self.ts(), p as int);
        loop
            invariant
                self.ok(),
                p < q < self.toks@.len(),
                self.ts().last().kind == TokV::Sym(Tok::Eof),
                want == grammar::bindings(self.ts(), p as int),
                want == grammar::names_rest(self.ts(), q as int, names_view(acc@)),
            decreases self.toks@.len() - q,
        {
            let (name, q2) = self.ident(q)?;
            let ghost before = names_view(acc@);
            acc.push(name);
            assert(names_view(acc@) =~= before.push(name@));
            if !self.is(q2, &Tok::Comma) {
                let q3: usize = self.eat(q2, &Tok::RParen)?;
                return Ok((acc, q3));
            }
            q = q2 + 1;
        }
    }

    fn pattern(&self, p: usize) -> (r: Result<(MatchArm, usize), Diagnostic>)
        requires
            self.ok(),
            p < self.toks@.len(),
        ensures
            match r {
                Ok((a, q)) => grammar::pattern(self.ts(), p as int) == Parsed::Done(arm_view(a), q as int)
                    && p < q < self.toks@.len(),
                Err(d) => grammar::pattern(self.ts(), p as int) == Parsed::<MatchArmV>::Bad(d@),
            },
    {
        let (name, q) = self.ident(p)?;
        let wildcard = text_eq(name.as_str(), "_");
        let none: Vec<String> = Vec::new();
        let body: Vec<Stmt> = Vec::new();
        assert(names_view(none@) =~= Seq::empty());
        assert(stmts_view(body@) =~= Seq::empty());
        let (bindings, q) = if wildcard {
            (none, q)
        } else {
            self.bindings(q)?
        };
        let q: usize = self.eat(q, &Tok::FatArrow)?;
        let variant = if wildcard {
            String::new()
        } else {
            name
        };
        Ok((MatchArm { wildcard, variant, bindings, body, span: self.toks[p].span }, q))
    }

    fn stmt(&self, p: usize) -> (r: Result<(Stmt, usize), Diagnostic>)
        requires
            self.ok(),
            p < self.toks@.len(),
        ensures
            match r {
                Ok((s, q)) => grammar::stmt(self.ts(), p as int) == Parsed::Done(s@, q as int)
                    && p < q < self.toks@.len(),
                Err(d) => grammar::stmt(self.ts(), p as int) == Parsed::<StmtV>::Bad(d@),
            },
        decreases self.toks@.len() - p, 2int,
    {
        let (kind, q) = self.stmt_kind(p)?;
        let span = self.span_to(self.toks[p].span.start, q);
        Ok((Stmt { kind, span }, q))
    }

    fn stmt_kind(&self, p: usize) -> (r: Result<(StmtKind, usize), Diagnostic>)
        requires
            self.ok(),
            p < self.toks@.len(),
        ensures
            self.kind_agrees(p as int, r, grammar::stmt_kind(self.ts(), p as int)),
        decreases self.toks@.len() - p, 1int,
    {
        assert(self.ts().last().kind == TokV::Sym(Tok::Eof));
        assert(self.ts()[p as int].kind == self.toks@[p as int].kind@);
        match &self.toks[p].kind {
            Tok::Return => {
                let (e, q) = self.expr(p + 1)?;
                let q: usize = self.eat(q, &Tok::Semicolon)?;
                Ok((StmtKind::Return(e), q))
            },
            Tok::Print => {
                let (e, q) = self.expr(p + 1)?;
                let q: usize = self.eat(q, &Tok::Semicolon)?;
                Ok((StmtKind::Print(e), q))
            },
            Tok::If => {
                let (cond, q) = self.paren_expr(p + 1)?;
                let (then_body, q) = self.block(q)?;
                let (else_body, q) = self.else_part(q)?;
                Ok((StmtKind::If { cond, then_body, else_body }, q))
            },
            Tok::While => {
                let (cond, q) = self.paren_expr(p + 1)?;
                let (body, q) = self.block(q)?;
                Ok((StmtKind::While { cond, body }, q))
            },
            Tok::Match => {
                let (scrut, q) = self.paren_expr(p + 1)?;
                let q: usize = self.eat(q, &Tok::LBrace)?;
                let (arms, q) = self.arms(q)?;
                Ok((StmtKind::Match { scrut, arms }, q))
            },
            Tok::For => self.for_kind(p),
            Tok::Break => {
                let q: usize = self.eat(p + 1, &Tok::Semicolon)?;
                Ok((StmtKind::Break, q))
            },
            Tok::Continue => {
                let q: usize = self.eat(p + 1, &Tok::Semicolon)?;
                Ok((StmtKind::Continue, q))
            },
            _ => {
                let (kind, q) = self.simple_kind(p)?;
                let q: usize = self.eat(q, &Tok::Semicolon)?;
                Ok((kind, q))
            },
        }
    }

    fn for_kind(&self, p: usize) -> (r: Result<(StmtKind, usize), Diagnostic>)
        requires
            self.ok(),
            p + 1 < self.toks@.len(),
        ensures
            self.kind_agrees(p as int, r, grammar::for_kind(self.ts(), p as int)),
        decreases self.toks@.len() - p, 0int,
    {
        assert(self.ts().last().kind == TokV::Sym(Tok::Eof));
        let q: usize = self.eat(p + 1, &Tok::LParen)?;
        assert(self.ts()[q as int].kind == self.toks@[q as int].kind@);
        if matches!(&self.toks[q].kind, Tok::Ident(_)) && self.is(q + 1, &Tok::In) {
            let ((var, iter), q) = self.for_in_head(q)?;
            let (body, q) = self.block(q)?;
            Ok((StmtKind::ForIn { var, iter, body }, q))
        } else {
            let ((init, cond, step), q) = self.for_head(q)?;
            let (body, q) = self.block(q)?;
            Ok((StmtKind::For { init, cond, step, body }, q))
        }
    }

    fn else_part(&self, p: usize) -> (r: Result<(Vec<Stmt>, usize), Diagnostic>)
        requires
            self.ok(),
            p < self.toks@.len(),
        ensures
            match r {
                Ok((v, q)) => grammar::else_part(self.ts(), p as int) == Parsed::Done(stmts_view(v@), q as int)
                    && p <= q < self.toks@.len(),
                Err(d) => grammar::else_part(self.ts(), p as int) == Parsed::<Seq<StmtV>>::Bad(d@),
            },
        decreases self.toks@.len() - p, 0int,
    {
        assert(self.ts().last().kind == TokV::Sym(Tok::Eof));
        let mut one: Vec<Stmt> = Vec::new();
        if !self.is(p, &Tok::Else) {
            assert(stmts_view(one@) =~= Seq::empty());
            return Ok((one, p));
        }
        if self.is(p + 1, &Tok::If) {
            let (s, q) = self.stmt(p + 1)?;
            one.push(s);
            assert(stmts_view(one@) =~= seq![s@]);
            return Ok((one, q));
        }
        self.block(p + 1)
    }

    fn block(&self, p: usize) -> (r: Result<(Vec<Stmt>, usize), Diagnostic>)
        requires
            self.ok(),
            p < self.toks@.len(),
        ensures
            match r {
                Ok((v, q)) => grammar::block(self.ts(), p as int) == Parsed::Done(stmts_view(v@), q as int)
                    && p < q < self.toks@.len(),
                Err(d) => grammar::block(self.ts(), p as int) == Parsed::<Seq<StmtV>>::Bad(d@),
            },
        decreases self.toks@.len() - p, 0int,
    {
        let mut q: usize = self.eat(p, &Tok::LBrace)?;
        let mut acc: Vec<Stmt> = Vec::new();
        assert(stmts_view(acc@) =~= Seq::empty());
        let ghost want = grammar::block(self.ts(), p as int);
        while !self.is(q, &Tok::RBrace) && !self.is(q, &Tok::Eof)
            invariant
                self.ok(),
                p < q < self.toks@.len(),
                want == grammar::block(self.ts(), p as int),
                want == grammar::stmts(self.ts(), q as int, stmts_view(acc@)),
            decreases self.toks@.len() - q,
        {
            let (s, q2) = self.stmt(q)?;
            let ghost before = stmts_view(acc@);
            acc.push(s);
            assert(stmts_view(acc@) =~= before.push(s@));
            q = q2;
        }
        let q: usize = self.eat(q, &Tok::RBrace)?;
        Ok((acc, q))
    }

    fn arm_body(&self, p: usize) -> (r: Result<(Vec<Stmt>, usize), Diagnostic>)
        requires
            self.ok(),
            p < self.toks@.len(),
        ensures
            match r {
                Ok((v, q)) => grammar::arm_body(self.ts(), p as int) == Parsed::Done(stmts_view(v@), q as int)
                    && p < q < self.toks@.len(),
                Err(d) => grammar::arm_body(self.ts(), p as int) == Parsed::<Seq<StmtV>>::Bad(d@),
            },
        decreases self.toks@.len() - p, 3int,
    {
        if self.is(p, &Tok::LBrace) {
            self.block(p)
        } else {
            let (s, q) = self.stmt(p)?;
            let mut one: Vec<Stmt> = Vec::new();
            one.push(s);
            assert(stmts_view(one@) =~= seq![s@]);
            Ok((one, q))
        }
    }

    fn arms(&self, p: usize) -> (r: Result<(Vec<MatchArm>, usize), Diagnostic>)
        requires
            self.ok(),
            p < self.toks@.len(),
        ensures
            match r {
                Ok((v, q)) => grammar::arms(self.ts(), p as int, Seq::empty()) == Parsed::Done(arms_view(v@), q as int)
                    && p < q < self.toks@.len(),
                Err(d) => grammar::arms(self.ts(), p as int, Seq::empty()) == Parsed::<Seq<MatchArmV>>::Bad(d@),
            },
        decreases self.toks@.len() - p, 0int,
    {
        let mut acc: Vec<MatchArm> = Vec::new();
        assert(arms_view(acc@) =~= Seq::empty());
        let mut q: usize = p;
        let ghost want = grammar::arms(self.ts(), p as int, Seq::empty());
        while !self.is(q, &Tok::RBrace) && !self.is(q, &Tok::Eof)
            invariant
                self.ok(),
                p <= q < self.toks@.len(),
                want == grammar::arms(self.ts(), p as int, Seq::empty()),
                want == grammar::arms(self.ts(), q as int, arms_view(acc@)),
            decreases self.toks@.len() - q,
        {
            let (head, q1) = self.pattern(q)?;
            let (body, q2) = self.arm_body(q1)?;
            let span = self.span_to(self.toks[q].span.start, q2);
            let ghost before = arms_view(acc@);
            let arm = MatchArm {
                wildcard: head.wildcard,
                variant: head.variant,
                bindings: head.bindings,
                body,
                span,
            };
            acc.push(arm);
            assert(arms_view(acc@) =~= before.push(arm_view(arm)));
            q = q2;
        }
        let q: usize = self.eat(q, &Tok::RBrace)?;
        Ok((acc, q))
    }

    fn param(&self, p: usize) -> (r: Result<(Param, usize), Diagnostic>)
        requires
            self.ok(),
            p < self.toks@.len(),
        ensures
            match r {
                Ok((x, q)) => grammar::param(self.ts(), p as int) == Parsed::Done(param_view(x), q as int)
                    && p < q < self.toks@.len(),
                Err(d) => grammar::param(self.ts(), p as int) == Parsed::<ParamV>::Bad(d@),
            },
    {
        let (name, q) = self.ident(p)?;
        let q: usize = self.eat(q, &Tok::Colon)?;
        let ((ty, ty_span), q) = self.ty(q)?;
        assert(self.ts()[p as int].span.file == self.file);
        let span = self.toks[p].span.merge(ty_span);
        Ok((Param { name, ty, span }, q))
    }

    fn params(&self, p: usize, close: &Tok, trailing: bool) -> (r: Result<
        (Vec<Param>, usize),
        Diagnostic,
    >)
        requires
            self.ok(),
            p < self.toks@.len(),
            is_sym(*close),
            !(*close is Eof),
        ensures
            match r {
                Ok((v, q)) => grammar::params(self.ts(), p as int, *close, trailing) == Parsed::Done(params_view(v@), q as int)
                    && p < q < self.toks@.len(),
                Err(d) => grammar::params(self.ts(), p as int, *close, trailing) == Parsed::<Seq<ParamV>>::Bad(d@),
            },
    {
        let mut acc: Vec<Param> = Vec::new();
        assert(params_view(acc@) =~= Seq::empty());
        assert(self.ts().last().kind == TokV::Sym(Tok::Eof));
        if self.is(p, close) {
            return Ok((acc, p + 1));
        }
        let mut q: usize = p;
        let ghost want = grammar::params(self.ts(), p as int, *close, trailing);
        loop
            invariant
                self.ok(),
                is_sym(*close),
                !(*close is Eof),
                p <= q < self.toks@.len(),
                self.ts().last().kind == TokV::Sym(Tok::Eof),
                want == grammar::params(self.ts(), p as int, *close, trailing),
                want == grammar::params_rest(
                    self.ts(),
                    q as int,
                    *close,
                    trailing,
                    params_view(acc@),
                ),
            decreases self.toks@.len() - q,
        {
            let (x, q2) = self.param(q)?;
            let ghost before = params_view(acc@);
            acc.push(x);
            assert(params_view(acc@) =~= before.push(param_view(x)));
            if !self.is(q2, &Tok::Comma) {
                let q3: usize = self.eat(q2, close)?;
                return Ok((acc, q3));
            }
            if trailing && self.is(q2 + 1, close) {
                return Ok((acc, q2 + 2));
            }
            q = q2 + 1;
        }
    }

    fn def_head(&self, p: usize, sym: &Tok, open: &Tok) -> (r: Result<
        (String, usize),
        Diagnostic,
    >)
        requires
            self.ok(),
            p < self.toks@.len(),
            is_sym(*sym),
            !(*sym is Eof),
            is_sym(*open),
            !(*open is Eof),
        ensures
            match r {
                Ok((s, q)) => grammar::def_head(self.ts(), p as int, *sym, *open) == Parsed::Done(s@, q as int)
                    && p < q < self.toks@.len(),
                Err(d) => grammar::def_head(self.ts(), p as int, *sym, *open) == Parsed::<Seq<char>>::Bad(d@),
            },
    {
        let q: usize = self.eat(p, sym)?;
        let (name, q) = self.ident(q)?;
        let q: usize = self.eat(q, open)?;
        Ok((name, q))
    }

    fn struct_def(&self, p: usize, is_pub: bool) -> (r: Result<(StructDef, usize), Diagnostic>)
        requires
            self.ok(),
            p < self.toks@.len(),
        ensures
            match r {
                Ok((s, q)) => grammar::struct_def(self.ts(), p as int, is_pub) == Parsed::Done(struct_view(s), q as int)
                    && p < q < self.toks@.len(),
                Err(d) => grammar::struct_def(self.ts(), p as int, is_pub) == Parsed::<StructDefV>::Bad(d@),
            },
    {
        let (name, q) = self.def_head(p, &Tok::Struct, &Tok::LBrace)?;
        let (fields, q) = self.params(q, &Tok::RBrace, true)?;
        let span = self.span_to(self.toks[p].span.start, q);
        Ok((StructDef { name, fields, span, is_pub }, q))
    }

    fn payload(&self, p: usize) -> (r: Result<(Vec<Type>, usize), Diagnostic>)
        requires
            self.ok(),
            p < self.toks@.len(),
        ensures
            match r {
                Ok((v, q)) => grammar::payload(self.ts(), p as int) == Parsed::Done(types_view(v@), q as int)
                    && p <= q < self.toks@.len(),
                Err(d) => grammar::payload(self.ts(), p as int) == Parsed::<Seq<Ty>>::Bad(d@),
            },
    {
        let mut acc: Vec<Type> = Vec::new();
        assert(types_view(acc@) =~= Seq::empty());
        assert(self.ts().last().kind == TokV::Sym(Tok::Eof));
        if !self.is(p, &Tok::LParen) {
            return Ok((acc, p));
        }
        if self.is(p + 1, &Tok::RParen) {
            return Ok((acc, p + 2));
        }
        let mut q: usize = p + 1;
        let ghost want = grammar::payload(self.ts(), p as int);
        loop
            invariant
                self.ok(),
                p < q < self.toks@.len(),
                self.ts().last().kind == TokV::Sym(Tok::Eof),
                want == grammar::payload(self.ts(), p as int),
                want == grammar::types_rest(self.ts(), q as int, types_view(acc@)),
            decreases self.toks@.len() - q,
        {
            let ((t, _), q2) = self.ty(q)?;
            let ghost before = types_view(acc@);
            acc.push(t);
            assert(types_view(acc@) =~= before.push(t@));
            if !self.is(q2, &Tok::Comma) {
                let q3: usize = self.eat(q2, &Tok::RParen)?;
                return Ok((acc, q3));
            }
            q = q2 + 1;
        }
    }

    fn variants(&self, p: usize) -> (r: Result<(Vec<EnumVariant>, usize), Diagnostic>)
        requires
            self.ok(),
            p < self.toks@.len(),
        ensures
            match r {
                Ok((v, q)) => grammar::variants(self.ts(), p as int, Seq::empty()) == Parsed::Done(variants_view(v@), q as int)
                    && p < q < self.toks@.len(),
                Err(d) => grammar::variants(self.ts(), p as int, Seq::empty()) == Parsed::<Seq<EnumVariantV>>::Bad(d@),
            },
    {
        let mut acc: Vec<EnumVariant> = Vec::new();
        assert(variants_view(acc@) =~= Seq::empty());
        assert(self.ts().last().kind == TokV::Sym(Tok::Eof));
        let mut q: usize = p;
        let ghost want = grammar::variants(self.ts(), p as int, Seq::empty());
        loop
            invariant
                self.ok(),
                p <= q < self.toks@.len(),
                self.ts().last().kind == TokV::Sym(Tok::Eof),
                want == grammar::variants(self.ts(), p as int, Seq::empty()),
                want == grammar::variants(self.ts(), q as int, variants_view(acc@)),
            decreases self.toks@.len() - q,
        {
            if self.is(q, &Tok::RBrace) {
                return Ok((acc, q + 1));
            }
            let (name, q1) = self.ident(q)?;
            let (fields, q2) = self.payload(q1)?;
            let span = self.span_to(self.toks[q].span.start, q2);
            let ghost before = variants_view(acc@);
            let v = EnumVariant { name, fields, span };
            acc.push(v);
            assert(variants_view(acc@) =~= before.push(variant_view(v)));
            if !self.is(q2, &Tok::Comma) {
                let q3: usize = self.eat(q2, &Tok::RBrace)?;
                return Ok((acc, q3));
            }
            q = q2 + 1;
        }
    }

    fn enum_def(&self, p: usize, is_pub: bool) -> (r: Result<(EnumDef, usize), Diagnostic>)
        requires
            self.ok(),
            p < self.toks@.len(),
        ensures
            match r {
                Ok((e, q)) => grammar::enum_def(self.ts(), p as int, is_pub) == Parsed::Done(enum_view(e), q as int)
                    && p < q < self.toks@.len(),
                Err(d) => grammar::enum_def(self.ts(), p as int, is_pub) == Parsed::<EnumDefV>::Bad(d@),
            },
    {
        let (name, q) = self.def_head(p, &Tok::Enum, &Tok::LBrace)?;
        let (variants, q) = self.variants(q)?;
        let span = self.span_to(self.toks[p].span.start, q);
        Ok((EnumDef { name, variants, span, is_pub }, q))
    }

    fn function(&self, p: usize, is_pub: bool) -> (r: Result<(Function, usize), Diagnostic>)
        requires
            self.ok(),
            p < self.toks@.len(),
        ensures
            match r {
                Ok((f, q)) => grammar::function(self.ts(), p as int, is_pub) == Parsed::Done(function_view(f), q as int)
                    && p < q < self.toks@.len(),
                Err(d) => grammar::function(self.ts(), p as int, is_pub) == Parsed::<FunctionV>::Bad(d@),
            },
    {
        let (name, q) = self.def_head(p, &Tok::Fn, &Tok::LParen)?;
        let (params, q) = self.params(q, &Tok::RParen, false)?;
        let (ret, q) = self.opt_ty(q, &Tok::Arrow)?;
        let (body, q) = self.block(q)?;
        let span = self.span_to(self.toks[p].span.start, q);
        let ret = match ret {
            Some(t) => t,
            None => Type::Int,
        };
        Ok((Function { name, params, ret, body, span, is_pub }, q))
    }

    fn import(&self, p: usize) -> (r: Result<(ImportDecl, usize), Diagnostic>)
        requires
            self.ok(),
            p < self.toks@.len(),
        ensures
            match r {
                Ok((i, q)) => grammar::import(self.ts(), p as int) == Parsed::Done(import_view(i), q as int)
                    && p < q < self.toks@.len(),
                Err(d) => grammar::import(self.ts(), p as int) == Parsed::<ImportDeclV>::Bad(d@),
            },
    {
        assert(self.ts().last().kind == TokV::Sym(Tok::Eof));
        let q: usize = self.eat(p, &Tok::Import)?;
        assert(self.ts()[q as int].kind == self.toks@[q as int].kind@);
        match &self.toks[q].kind {
            Tok::Str(path) => {
                let q: usize = self.eat(q + 1, &Tok::Semicolon)?;
                let span = self.span_to(self.toks[p].span.start, q);
                Ok((ImportDecl { path: path.clone(), span }, q))
            },
            _ => Err(self.unexpected(q, "E0002", "import にはパス文字列が必要ですが ")),
        }
    }

    /// Adds the definition at `p` to `acc`.
    fn definition(&self, p: usize, is_pub: bool, acc: &mut Program) -> (r: Result<
        usize,
        Diagnostic,
    >)
        requires
            self.ok(),
            p < self.toks@.len(),
        ensures
            match r {
                Ok(q) => grammar::definition(self.ts(), p as int, is_pub, old(acc)@)
                    == Parsed::Done(final(acc)@, q as int) && p < q < self.toks@.len(),
                Err(d) => grammar::definition(self.ts(), p as int, is_pub, old(acc)@) == Parsed::<
                    ProgramV,
                >::Bad(d@),
            },
    {
        let ghost before = acc@;
        assert(self.ts()[p as int].kind == self.toks@[p as int].kind@);
        match &self.toks[p].kind {
            Tok::Struct => {
                let (d, q) = self.struct_def(p, is_pub)?;
                acc.structs.push(d);
                assert(acc@.structs =~= before.structs.push(struct_view(d)));
                assert(acc@ == (ProgramV { structs: before.structs.push(struct_view(d)), ..before }));
                Ok(q)
            },
            Tok::Enum => {
                let (d, q) = self.enum_def(p, is_pub)?;
                acc.enums.push(d);
                assert(acc@.enums =~= before.enums.push(enum_view(d)));
                assert(acc@ == (ProgramV { enums: before.enums.push(enum_view(d)), ..before }));
                Ok(q)
            },
            Tok::Import => Err(
                Diagnostic::coded(
                    "E0002",
                    "import はファイル先頭に置いてください".to_string(),
                    self.toks[p].span,
                ),
            ),
            k => {
                if is_pub && !matches!(k, Tok::Fn) {
                    return Err(
                        Diagnostic::coded(
                            "E0002",
                            "pub の後には fn / struct / enum が必要です".to_string(),
                            self.toks[p].span,
                        ),
                    );
                }
                let (d, q) = self.function(p, is_pub)?;
                acc.funcs.push(d);
                assert(acc@.funcs =~= before.funcs.push(function_view(d)));
                assert(acc@ == (ProgramV { funcs: before.funcs.push(function_view(d)), ..before }));
                Ok(q)
            },
        }
    }

    fn program(&self) -> (r: Result<Program, Diagnostic>)
        requires
            self.ok(),
        ensures
            match r {
                Ok(p) => grammar::program(self.ts()) == Ok::<ProgramV, DiagV>(p@),
                Err(d) => grammar::program(self.ts()) == Err::<ProgramV, DiagV>(d@),
            },
    {
        let ghost want = grammar::program(self.ts());
        let mut q: usize = 0;
        let mut imports: Vec<ImportDecl> = Vec::new();
        let ghost mut seen: Seq<ImportDeclV> = Seq::empty();
        assert(self.ts().last().kind == TokV::Sym(Tok::Eof));
        while self.is(q, &Tok::Import)
            invariant
                self.ok(),
                q < self.toks@.len(),
                want == grammar::program(self.ts()),
                seen =~= Seq::new(imports@.len(), |i: int| import_view(imports@[i])),
                grammar::imports(self.ts(), 0, Seq::empty()) == grammar::imports(
                    self.ts(),
                    q as int,
                    seen,
                ),
            decreases self.toks@.len() - q,
        {
            let (i, q2) = self.import(q)?;
            imports.push(i);
            proof {
                seen = seen.push(import_view(i));
            }
            q = q2;
        }
        let mut acc = Program {
            imports,
            structs: Vec::new(),
            enums: Vec::new(),
            funcs: Vec::new(),
        };
        assert(acc@ == (ProgramV {
            imports: seen,
            structs: Seq::empty(),
            enums: Seq::empty(),
            funcs: Seq::empty(),
        })) by {
            assert(acc@.imports =~= seen);
            assert(acc@.structs =~= Seq::empty());
            assert(acc@.enums =~= Seq::empty());
            assert(acc@.funcs =~= Seq::empty());
        }
        while !self.is(q, &Tok::Eof)
            invariant
                self.ok(),
                q < self.toks@.len(),
                self.ts().last().kind == TokV::Sym(Tok::Eof),
                want == grammar::program(self.ts()),
                want == grammar::definitions(self.ts(), q as int, acc@),
            decreases self.toks@.len() - q,
        {
            let is_pub = self.is(q, &Tok::Pub);
            let start: usize = if is_pub {
                q + 1
            } else {
                q
            };
            q = self.definition(start, is_pub, &mut acc)?;
        }
        Ok(acc)
    }
}

/// What a kind of statement stands for.
spec fn kind_view(k: StmtKind) -> StmtKindV {
    stmt_view(Stmt { kind: k, span: arbitrary() }).kind
}

/// The operator of the compound assignment that `t` is.
fn compound_op(t: &Tok) -> (r: Option<BinOp>)
    ensures
        r == grammar::compound_op(t@),
{
    match t {
        Tok::PlusEq => Some(BinOp::Add),
        Tok::MinusEq => Some(BinOp::Sub),
        Tok::StarEq => Some(BinOp::Mul),
        Tok::SlashEq => Some(BinOp::Div),
        Tok::PercentEq => Some(BinOp::Mod),
        Tok::AmpEq => Some(BinOp::BitAnd),
        Tok::PipeEq => Some(BinOp::BitOr),
        Tok::CaretEq => Some(BinOp::BitXor),
        Tok::ShlEq => Some(BinOp::Shl),
        Tok::ShrEq => Some(BinOp::Shr),
        _ => None,
    }
}

/// Turns the tokens of one file into its syntax tree, or answers with the first error.
pub fn parse(tokens: Vec<Token>) -> (r: Result<Program, Diagnostic>)
    requires
        is_parsable(tokens_view(tokens@)),
    ensures
        match r {
            Ok(p) => grammar::program(tokens_view(tokens@)) == Ok::<ProgramV, DiagV>(p@),
            Err(d) => grammar::program(tokens_view(tokens@)) == Err::<ProgramV, DiagV>(d@),
        },
{
    let count: usize = tokens.len();
    let file = tokens[0].span.file;
    let p = Parser { toks: tokens, file };
    p.program()
}

} // verus!
