//! The places of expressions.
use vstd::prelude::*;
#[allow(unused_imports)]
use crate::ast::{BinOp, Expr, ExprKindV, ExprV, FieldInitV};
#[allow(unused_imports)]
use crate::diagnostics::DiagV;
#[allow(unused_imports)]
use crate::grammar::{
    at, binary, bracket, embedded, expr, exprs, exprs_rest, ident, inits, interpolation, left,
    level, level_op, level_rest, named, nest, opt_expr, pairs, postfix_rest, prefix_op, primary,
    shift_tokens, span_to, unary, Parsed,
};
#[allow(unused_imports)]
use crate::lexer::lexed;
#[allow(unused_imports)]
use crate::parser::{lemma_nest_at, lemma_segs_nest_at};
#[allow(unused_imports)]
use crate::places::rows::{
    is_cut, is_parser_code, is_row, is_spot, lemma_segment, seg_in, spots, tok_stands,
};
#[allow(unused_imports)]
use crate::places::tree::{expr_in, exprs_in, inits_in, lemma_expr_in, opt_in, pairs_in, parts_in};
#[allow(unused_imports)]
use crate::span::{span_merge, FileId, Span};
#[allow(unused_imports)]
use crate::token::{SegmentV, Tok, TokV, TokenV};

verus! {

/// The error points into the text, and has a code of the parser.
pub open spec fn points(src: Seq<char>, file: FileId, d: DiagV) -> bool {
    d.span matches Some(s) && is_spot(src, file, s) && is_parser_code(d.code)
}

/// The expression from `p` up to `q` stands in the text, among its tokens.
pub open spec fn stands(
    src: Seq<char>,
    file: FileId,
    ts: Seq<TokenV>,
    p: int,
    q: int,
    e: ExprV,
) -> bool {
    &&& 0 <= p < q < ts.len()
    &&& expr_in(spots(src, file), e)
    &&& is_spot(src, file, e.span)
    &&& ts[p].span.start <= e.span.end <= ts[q - 1].span.end
}

/// What a rule for expressions answers stands in the text.
pub open spec fn answers(
    src: Seq<char>,
    file: FileId,
    ts: Seq<TokenV>,
    p: int,
    r: Parsed<ExprV>,
) -> bool {
    match r {
        Parsed::Done(e, q) => stands(src, file, ts, p, q, e),
        Parsed::Bad(d) => points(src, file, d),
    }
}

/// A token of a row stands in the text, and another follows it unless it is the end.
pub proof fn lemma_tok(src: Seq<char>, file: FileId, ts: Seq<TokenV>, p: int)
    requires
        is_row(src, file, ts),
        0 <= p < ts.len(),
    ensures
        is_spot(src, file, ts[p].span),
        ts[p].kind != TokV::Sym(Tok::Eof) ==> p + 1 < ts.len(),
{
    assert(tok_stands(src, file, ts[p]));
}

/// Of two tokens the first starts and ends no later than the second.
pub proof fn lemma_order(src: Seq<char>, file: FileId, ts: Seq<TokenV>, a: int, b: int)
    requires
        is_row(src, file, ts),
        0 <= a <= b < ts.len(),
    ensures
        is_spot(src, file, ts[a].span),
        is_spot(src, file, ts[b].span),
        ts[a].span.start <= ts[b].span.start,
        ts[a].span.start <= ts[b].span.end,
        ts[a].span.end <= ts[b].span.end,
{
    assert(tok_stands(src, file, ts[a]));
    assert(tok_stands(src, file, ts[b]));
}

pub proof fn lemma_span_to(src: Seq<char>, file: FileId, ts: Seq<TokenV>, start: usize, q: int)
    requires
        is_row(src, file, ts),
        0 < q <= ts.len(),
        is_cut(src, start as int),
        start <= ts[q - 1].span.end,
    ensures
        is_spot(src, file, span_to(ts, start, q)),
        span_to(ts, start, q).end == ts[q - 1].span.end,
{
    lemma_tok(src, file, ts, 0);
    lemma_tok(src, file, ts, q - 1);
}

/// An expression stands where it does if its parts do and its span does.
proof fn lemma_made(
    src: Seq<char>,
    file: FileId,
    ts: Seq<TokenV>,
    p: int,
    q: int,
    e: ExprV,
)
    requires
        0 <= p < q < ts.len(),
        parts_in(spots(src, file), e),
        ts[p].span.start <= e.span.end <= ts[q - 1].span.end,
    ensures
        stands(src, file, ts, p, q, e),
{
    lemma_expr_in(spots(src, file), e);
}

/// An expression that goes from the start of one expression to the end of a token.
proof fn lemma_made_to(
    src: Seq<char>,
    file: FileId,
    ts: Seq<TokenV>,
    p: int,
    q: int,
    start: usize,
    kind: ExprKindV,
)
    requires
        is_row(src, file, ts),
        0 <= p < q < ts.len(),
        is_cut(src, start as int),
        start <= ts[q - 1].span.end,
        is_spot(src, file, span_to(ts, start, q)) ==> parts_in(
            spots(src, file),
            ExprV { kind, span: span_to(ts, start, q) },
        ),
    ensures
        stands(src, file, ts, p, q, ExprV { kind, span: span_to(ts, start, q) }),
{
    lemma_span_to(src, file, ts, start, q);
    lemma_order(src, file, ts, p, q - 1);
    lemma_made(src, file, ts, p, q, ExprV { kind, span: span_to(ts, start, q) });
}

proof fn lemma_binary(
    src: Seq<char>,
    file: FileId,
    ts: Seq<TokenV>,
    p: int,
    m: int,
    n: int,
    q: int,
    op: BinOp,
    lhs: ExprV,
    rhs: ExprV,
)
    requires
        is_row(src, file, ts),
        m <= n,
        stands(src, file, ts, p, m, lhs),
        stands(src, file, ts, n, q, rhs),
    ensures
        stands(src, file, ts, p, q, binary(op, lhs, rhs)),
{
    lemma_order(src, file, ts, m - 1, q - 1);
    lemma_made(src, file, ts, p, q, binary(op, lhs, rhs));
}

proof fn lemma_exprs_push(ok: spec_fn(Span) -> bool, acc: Seq<ExprV>, e: ExprV)
    requires
        exprs_in(ok, acc),
        expr_in(ok, e),
    ensures
        exprs_in(ok, acc.push(e)),
{
}

/// What an expression reads as stands in the text, or the error does.
pub proof fn lemma_expr(src: Seq<char>, file: FileId, ts: Seq<TokenV>, p: int)
    requires
        is_row(src, file, ts),
        0 <= p < ts.len(),
    ensures
        answers(src, file, ts, p, expr(ts, p)),
    decreases nest(ts), left(ts, p), 13int, 0int,
{
    lemma_level(src, file, ts, p, 0);
}

proof fn lemma_level(src: Seq<char>, file: FileId, ts: Seq<TokenV>, p: int, k: int)
    requires
        is_row(src, file, ts),
        0 <= p < ts.len(),
        0 <= k <= 9,
    ensures
        answers(src, file, ts, p, level(ts, p, k)),
    decreases nest(ts), left(ts, p), 12 - k, 0int,
{
    if k == 9 {
        lemma_unary(src, file, ts, p);
    } else {
        lemma_level(src, file, ts, p, k + 1);
        if let Parsed::Done(lhs, q) = level(ts, p, k + 1) {
            lemma_level_rest(src, file, ts, p, q, k, lhs);
        }
    }
}

proof fn lemma_level_rest(
    src: Seq<char>,
    file: FileId,
    ts: Seq<TokenV>,
    p0: int,
    p: int,
    k: int,
    lhs: ExprV,
)
    requires
        is_row(src, file, ts),
        0 <= k < 9,
        stands(src, file, ts, p0, p, lhs),
    ensures
        answers(src, file, ts, p0, level_rest(ts, p, k, lhs)),
    decreases nest(ts), left(ts, p), 0int, 0int,
{
    if let Some(op) = level_op(k, ts[p].kind) {
        lemma_tok(src, file, ts, p);
        lemma_level(src, file, ts, p + 1, k + 1);
        if let Parsed::Done(rhs, q) = level(ts, p + 1, k + 1) {
            lemma_binary(src, file, ts, p0, p, p + 1, q, op, lhs, rhs);
            lemma_level_rest(src, file, ts, p0, q, k, binary(op, lhs, rhs));
        }
    }
}

proof fn lemma_unary(src: Seq<char>, file: FileId, ts: Seq<TokenV>, p: int)
    requires
        is_row(src, file, ts),
        0 <= p < ts.len(),
    ensures
        answers(src, file, ts, p, unary(ts, p)),
    decreases nest(ts), left(ts, p), 2int, 0int,
{
    lemma_tok(src, file, ts, p);
    match prefix_op(ts[p].kind) {
        Some(op) => {
            lemma_unary(src, file, ts, p + 1);
            if let Parsed::Done(e, q) = unary(ts, p + 1) {
                lemma_order(src, file, ts, p, q - 1);
                lemma_made(
                    src,
                    file,
                    ts,
                    p,
                    q,
                    ExprV {
                        kind: ExprKindV::Unary { op, expr: Box::new(e) },
                        span: span_merge(ts[p].span, e.span),
                    },
                );
            }
        },
        None => {
            lemma_primary(src, file, ts, p);
            if let Parsed::Done(e, q) = primary(ts, p) {
                lemma_postfix(src, file, ts, p, q, e);
            }
        },
    }
}

proof fn lemma_postfix(
    src: Seq<char>,
    file: FileId,
    ts: Seq<TokenV>,
    p0: int,
    p: int,
    e: ExprV,
)
    requires
        is_row(src, file, ts),
        stands(src, file, ts, p0, p, e),
    ensures
        answers(src, file, ts, p0, postfix_rest(ts, p, e)),
    decreases nest(ts), left(ts, p), 1int, 0int,
{
    lemma_tok(src, file, ts, p);
    if at(ts, p, Tok::LBracket) {
        lemma_bracket(src, file, ts, p0, p, e);
        if let Parsed::Done(e2, q) = bracket(ts, p + 1, e) {
            lemma_postfix(src, file, ts, p0, q, e2);
        }
    } else if at(ts, p, Tok::Dot) {
        lemma_tok(src, file, ts, p + 1);
        if let Parsed::Done(field, q) = ident(ts, p + 1) {
            let kind = ExprKindV::Field { obj: Box::new(e), field };
            lemma_order(src, file, ts, p - 1, q - 1);
            lemma_made_to(src, file, ts, p0, q, e.span.start, kind);
            lemma_postfix(
                src,
                file,
                ts,
                p0,
                q,
                ExprV { kind, span: span_to(ts, e.span.start, q) },
            );
        }
    }
}

/// An index or a slice of `e`, whose opening bracket stands at `p`.
proof fn lemma_bracket(
    src: Seq<char>,
    file: FileId,
    ts: Seq<TokenV>,
    p0: int,
    p: int,
    e: ExprV,
)
    requires
        is_row(src, file, ts),
        stands(src, file, ts, p0, p, e),
        p + 1 < ts.len(),
    ensures
        answers(src, file, ts, p0, bracket(ts, p + 1, e)),
        bracket(ts, p + 1, e) matches Parsed::Done(_, q) ==> p < q,
    decreases nest(ts), left(ts, p + 1), 15int, 0int,
{
    lemma_opt(src, file, ts, p + 1, Tok::Colon);
    if let Parsed::Done(lo, q) = opt_expr(ts, p + 1, Tok::Colon) {
        lemma_tok(src, file, ts, q);
        if at(ts, q, Tok::Colon) {
            lemma_opt(src, file, ts, q + 1, Tok::RBracket);
            if let Parsed::Done(hi, r) = opt_expr(ts, q + 1, Tok::RBracket) {
                lemma_tok(src, file, ts, r);
                if at(ts, r, Tok::RBracket) {
                    lemma_order(src, file, ts, p - 1, r);
                    lemma_made_to(
                        src,
                        file,
                        ts,
                        p0,
                        r + 1,
                        e.span.start,
                        ExprKindV::Slice { seq: Box::new(e), lo, hi },
                    );
                }
            }
        } else if at(ts, q, Tok::RBracket) {
            lemma_order(src, file, ts, p - 1, q);
            lemma_made_to(
                src,
                file,
                ts,
                p0,
                q + 1,
                e.span.start,
                ExprKindV::Index { array: Box::new(e), index: lo->0 },
            );
        }
    }
}

proof fn lemma_opt(src: Seq<char>, file: FileId, ts: Seq<TokenV>, p: int, stop: Tok)
    requires
        is_row(src, file, ts),
        0 <= p < ts.len(),
    ensures
        match opt_expr(ts, p, stop) {
            Parsed::Done(e, q) => {
                &&& p <= q < ts.len()
                &&& opt_in(spots(src, file), e)
                &&& e is None ==> at(ts, q, stop)
            },
            Parsed::Bad(d) => points(src, file, d),
        },
    decreases nest(ts), left(ts, p), 14int, 0int,
{
    if !at(ts, p, stop) {
        lemma_expr(src, file, ts, p);
    }
}

/// The first segments of the string literal at `p`.
proof fn lemma_interpolation(
    src: Seq<char>,
    file: FileId,
    ts: Seq<TokenV>,
    p: int,
    all: Seq<SegmentV>,
    n: int,
)
    requires
        is_row(src, file, ts),
        0 <= p < ts.len(),
        ts[p].kind == TokV::InterpStr(all),
        0 <= n <= all.len(),
    ensures
        match interpolation(ts, p, all.take(n)) {
            Ok(Some(e)) => {
                &&& expr_in(spots(src, file), e)
                &&& is_spot(src, file, e.span)
                &&& ts[p].span.start <= e.span.end <= ts[p].span.end
            },
            Ok(None) => n == 0,
            Err(d) => points(src, file, d),
        },
    decreases nest(ts), left(ts, p), 0int, n,
{
    if n > 0 {
        let ok = spots(src, file);
        let segs = all.take(n);
        assert(segs.drop_last() =~= all.take(n - 1));
        assert(segs.last() == all[n - 1]);
        lemma_interpolation(src, file, ts, p, all, n - 1);
        lemma_tok(src, file, ts, p);
        if let Ok(acc) = interpolation(ts, p, all.take(n - 1)) {
            match all[n - 1] {
                SegmentV::Lit(s) => {
                    let e = ExprV { kind: ExprKindV::Str(s), span: ts[p].span };
                    lemma_expr_in(ok, e);
                    if let Some(a) = acc {
                        lemma_expr_in(ok, binary(BinOp::Add, a, e));
                    }
                },
                SegmentV::Expr { src: part, offset } => {
                    lemma_embedded(src, file, ts, p, all, n - 1);
                    if let Ok(x) = embedded(ts, p, part, offset) {
                        let e = ExprV {
                            kind: ExprKindV::Call { name: "str"@, args: seq![x] },
                            span: x.span,
                        };
                        lemma_expr_in(ok, e);
                        if let Some(a) = acc {
                            lemma_expr_in(ok, binary(BinOp::Add, a, e));
                        }
                    }
                },
            }
        }
    }
}

/// The expression in a segment of the string literal at `p`.
proof fn lemma_embedded(
    src: Seq<char>,
    file: FileId,
    ts: Seq<TokenV>,
    p: int,
    all: Seq<SegmentV>,
    k: int,
)
    requires
        is_row(src, file, ts),
        0 <= p < ts.len(),
        ts[p].kind == TokV::InterpStr(all),
        0 <= k < all.len(),
        all[k] is Expr,
    ensures
        match embedded(ts, p, all[k]->src, all[k]->offset) {
            Ok(e) => {
                &&& expr_in(spots(src, file), e)
                &&& is_spot(src, file, e.span)
                &&& ts[p].span.start <= e.span.end <= ts[p].span.end
            },
            Err(d) => points(src, file, d),
        },
    decreases nest(ts), left(ts, p), 0int, 0int,
{
    let part = all[k]->src;
    let offset = all[k]->offset;
    assert(tok_stands(src, file, ts[p]));
    assert(seg_in(src, all[k], ts[p].span.start as int, ts[p].span.end as int));
    lemma_segment(
        src,
        file,
        part,
        offset,
        ts[p].span.start as int,
        ts[p].span.end as int,
    );
    lemma_segs_nest_at(all, k);
    lemma_nest_at(ts, p);
    if let Ok(inner) = lexed(part, file) {
        let sub = shift_tokens(inner, offset);
        lemma_expr(src, file, sub, 0);
        if let Parsed::Done(e, q) = expr(sub, 0) {
            lemma_tok(src, file, sub, q);
            assert(sub[q - 1].span.end <= ts[p].span.end);
            assert(sub[0].span.start >= ts[p].span.start);
        }
    }
}

proof fn lemma_primary(src: Seq<char>, file: FileId, ts: Seq<TokenV>, p: int)
    requires
        is_row(src, file, ts),
        0 <= p < ts.len(),
    ensures
        answers(src, file, ts, p, primary(ts, p)),
    decreases nest(ts), left(ts, p), 1int, 0int,
{
    lemma_tok(src, file, ts, p);
    let span = ts[p].span;
    match ts[p].kind {
        TokV::Int(n) => lemma_made(
            src,
            file,
            ts,
            p,
            p + 1,
            ExprV { kind: ExprKindV::Int(n), span },
        ),
        TokV::Float(s) => lemma_made(
            src,
            file,
            ts,
            p,
            p + 1,
            ExprV { kind: ExprKindV::Float(s), span },
        ),
        TokV::Str(s) => lemma_made(
            src,
            file,
            ts,
            p,
            p + 1,
            ExprV { kind: ExprKindV::Str(s), span },
        ),
        TokV::InterpStr(segs) => {
            lemma_interpolation(src, file, ts, p, segs, segs.len() as int);
            assert(segs.take(segs.len() as int) =~= segs);
            lemma_made(
                src,
                file,
                ts,
                p,
                p + 1,
                ExprV { kind: ExprKindV::Str(Seq::empty()), span },
            );
        },
        TokV::Ident(name) => lemma_named(src, file, ts, p, name),
        TokV::Sym(Tok::True) => lemma_made(
            src,
            file,
            ts,
            p,
            p + 1,
            ExprV { kind: ExprKindV::Bool(true), span },
        ),
        TokV::Sym(Tok::False) => lemma_made(
            src,
            file,
            ts,
            p,
            p + 1,
            ExprV { kind: ExprKindV::Bool(false), span },
        ),
        TokV::Sym(Tok::Null) => lemma_made(
            src,
            file,
            ts,
            p,
            p + 1,
            ExprV { kind: ExprKindV::Null, span },
        ),
        TokV::Sym(Tok::LParen) => {
            lemma_expr(src, file, ts, p + 1);
            if let Parsed::Done(e, q) = expr(ts, p + 1) {
                lemma_tok(src, file, ts, q);
                lemma_order(src, file, ts, p, p + 1);
                lemma_order(src, file, ts, q - 1, q);
            }
        },
        TokV::Sym(Tok::LBracket) => {
            lemma_exprs(src, file, ts, p + 1, Tok::RBracket, true);
            if let Parsed::Done(elems, q) = exprs(ts, p + 1, Tok::RBracket, true) {
                lemma_order(src, file, ts, p, q - 1);
                lemma_made_to(src, file, ts, p, q, span.start, ExprKindV::Array(elems));
            }
        },
        TokV::Sym(Tok::LBrace) => {
            lemma_pairs(src, file, ts, p + 1, Seq::empty());
            if let Parsed::Done(items, q) = pairs(ts, p + 1, Seq::empty()) {
                lemma_order(src, file, ts, p, q - 1);
                lemma_made_to(src, file, ts, p, q, span.start, ExprKindV::MapLit(items));
            }
        },
        _ => {},
    }
}

proof fn lemma_named(src: Seq<char>, file: FileId, ts: Seq<TokenV>, p: int, name: Seq<char>)
    requires
        is_row(src, file, ts),
        0 <= p < ts.len(),
        ts[p].kind is Ident,
    ensures
        answers(src, file, ts, p, named(ts, p, name)),
    decreases nest(ts), left(ts, p), 0int, 0int,
{
    let span = ts[p].span;
    lemma_tok(src, file, ts, p);
    lemma_tok(src, file, ts, p + 1);
    if at(ts, p + 1, Tok::LParen) {
        lemma_exprs(src, file, ts, p + 2, Tok::RParen, false);
        if let Parsed::Done(args, q) = exprs(ts, p + 2, Tok::RParen, false) {
            lemma_order(src, file, ts, p, q - 1);
            lemma_made_to(src, file, ts, p, q, span.start, ExprKindV::Call { name, args });
        }
    } else if at(ts, p + 1, Tok::LBrace) {
        lemma_inits(src, file, ts, p + 2, Seq::empty());
        if let Parsed::Done(fields, q) = inits(ts, p + 2, Seq::empty()) {
            lemma_order(src, file, ts, p, q - 1);
            lemma_made_to(src, file, ts, p, q, span.start, ExprKindV::StructLit { name, fields });
        }
    } else {
        lemma_made(src, file, ts, p, p + 1, ExprV { kind: ExprKindV::Var(name), span });
    }
}

proof fn lemma_exprs(
    src: Seq<char>,
    file: FileId,
    ts: Seq<TokenV>,
    p: int,
    close: Tok,
    trailing: bool,
)
    requires
        is_row(src, file, ts),
        0 <= p < ts.len(),
        close != Tok::Eof,
    ensures
        match exprs(ts, p, close, trailing) {
            Parsed::Done(es, q) => p < q < ts.len() && exprs_in(spots(src, file), es),
            Parsed::Bad(d) => points(src, file, d),
        },
    decreases nest(ts), left(ts, p), 15int, 0int,
{
    lemma_tok(src, file, ts, p);
    if !at(ts, p, close) {
        lemma_exprs_rest(src, file, ts, p, close, trailing, Seq::empty());
    }
}

proof fn lemma_exprs_rest(
    src: Seq<char>,
    file: FileId,
    ts: Seq<TokenV>,
    p: int,
    close: Tok,
    trailing: bool,
    acc: Seq<ExprV>,
)
    requires
        is_row(src, file, ts),
        0 <= p < ts.len(),
        close != Tok::Eof,
        exprs_in(spots(src, file), acc),
    ensures
        match exprs_rest(ts, p, close, trailing, acc) {
            Parsed::Done(es, q) => p < q < ts.len() && exprs_in(spots(src, file), es),
            Parsed::Bad(d) => points(src, file, d),
        },
    decreases nest(ts), left(ts, p), 14int, 0int,
{
    lemma_expr(src, file, ts, p);
    if let Parsed::Done(e, q) = expr(ts, p) {
        lemma_exprs_push(spots(src, file), acc, e);
        lemma_tok(src, file, ts, q);
        if at(ts, q, Tok::Comma) {
            lemma_tok(src, file, ts, q + 1);
            if !(trailing && at(ts, q + 1, close)) {
                lemma_exprs_rest(src, file, ts, q + 1, close, trailing, acc.push(e));
            }
        }
    }
}

proof fn lemma_pairs(
    src: Seq<char>,
    file: FileId,
    ts: Seq<TokenV>,
    p: int,
    acc: Seq<(ExprV, ExprV)>,
)
    requires
        is_row(src, file, ts),
        0 <= p < ts.len(),
        pairs_in(spots(src, file), acc),
    ensures
        match pairs(ts, p, acc) {
            Parsed::Done(es, q) => p < q < ts.len() && pairs_in(spots(src, file), es),
            Parsed::Bad(d) => points(src, file, d),
        },
    decreases nest(ts), left(ts, p), 14int, 0int,
{
    lemma_tok(src, file, ts, p);
    if !at(ts, p, Tok::RBrace) {
        lemma_expr(src, file, ts, p);
        if let Parsed::Done(key, q0) = expr(ts, p) {
            lemma_tok(src, file, ts, q0);
            if at(ts, q0, Tok::Colon) {
                lemma_expr(src, file, ts, q0 + 1);
                if let Parsed::Done(value, q) = expr(ts, q0 + 1) {
                    lemma_tok(src, file, ts, q);
                    let more = acc.push((key, value));
                    assert(pairs_in(spots(src, file), more));
                    if at(ts, q, Tok::Comma) {
                        lemma_pairs(src, file, ts, q + 1, more);
                    }
                }
            }
        }
    }
}

proof fn lemma_inits(
    src: Seq<char>,
    file: FileId,
    ts: Seq<TokenV>,
    p: int,
    acc: Seq<FieldInitV>,
)
    requires
        is_row(src, file, ts),
        0 <= p < ts.len(),
        inits_in(spots(src, file), acc),
    ensures
        match inits(ts, p, acc) {
            Parsed::Done(fs, q) => p < q < ts.len() && inits_in(spots(src, file), fs),
            Parsed::Bad(d) => points(src, file, d),
        },
    decreases nest(ts), left(ts, p), 14int, 0int,
{
    lemma_tok(src, file, ts, p);
    if !at(ts, p, Tok::RBrace) {
        if let Parsed::Done(name, q1) = ident(ts, p) {
            lemma_tok(src, file, ts, q1);
            if at(ts, q1, Tok::Colon) {
                lemma_expr(src, file, ts, q1 + 1);
                if let Parsed::Done(value, q) = expr(ts, q1 + 1) {
                    lemma_tok(src, file, ts, 0);
                    lemma_order(src, file, ts, p, q1 + 1);
                    lemma_tok(src, file, ts, q);
                    let span = Span {
                        file: ts[0].span.file,
                        start: ts[p].span.start,
                        end: value.span.end,
                    };
                    let more = acc.push(FieldInitV { name, value, span });
                    assert(is_spot(src, file, span));
                    assert(inits_in(spots(src, file), more));
                    if at(ts, q, Tok::Comma) {
                        lemma_inits(src, file, ts, q + 1, more);
                    }
                }
            }
        }
    }
}

} // verus!
