//! The places of statements.
use vstd::prelude::*;
#[allow(unused_imports)]
use crate::ast::{ExprKindV, ExprV, MatchArmV, StmtKindV, StmtV};
#[allow(unused_imports)]
use crate::grammar::{
    arm_body, arms, assign_rest, at, block, compound_op, else_part, expr, for_head, for_in_head,
    for_kind, ident, left, let_rest, names_rest, opt_simple, opt_ty, paren_expr, pattern, placed,
    simple_kind, span_to, stmt, stmt_kind, stmts, ty, Parsed,
};
#[allow(unused_imports)]
use crate::places::exprs::{lemma_expr, lemma_order, lemma_span_to, lemma_tok, points, stands};
#[allow(unused_imports)]
use crate::places::rows::{is_row, is_spot, spots};
#[allow(unused_imports)]
use crate::places::tree::{
    arm_in, arms_in, expr_in, kind_in, lemma_expr_in, lemma_kind_in, opt_stmt_in, stmt_in, stmts_in,
};
#[allow(unused_imports)]
use crate::span::FileId;
#[allow(unused_imports)]
use crate::token::{Tok, TokV, TokenV};

verus! {

/// What a rule for the kind of a statement answers stands in the text.
pub open spec fn kind_answers(
    src: Seq<char>,
    file: FileId,
    ts: Seq<TokenV>,
    p: int,
    r: Parsed<StmtKindV>,
) -> bool {
    match r {
        Parsed::Done(kind, q) => p < q < ts.len() && kind_in(spots(src, file), kind),
        Parsed::Bad(d) => points(src, file, d),
    }
}

/// What a rule for a row of statements answers stands in the text.
pub open spec fn stmts_answer(
    src: Seq<char>,
    file: FileId,
    ts: Seq<TokenV>,
    p: int,
    r: Parsed<Seq<StmtV>>,
) -> bool {
    match r {
        Parsed::Done(ss, q) => p < q < ts.len() && stmts_in(spots(src, file), ss),
        Parsed::Bad(d) => points(src, file, d),
    }
}

/// What a type reads as stands in the text, or the error does.
pub proof fn lemma_ty(src: Seq<char>, file: FileId, ts: Seq<TokenV>, p: int)
    requires
        is_row(src, file, ts),
        0 <= p < ts.len(),
    ensures
        match ty(ts, p) {
            Parsed::Done((_, span), q) => p < q < ts.len() && is_spot(src, file, span),
            Parsed::Bad(d) => points(src, file, d),
        },
    decreases left(ts, p),
{
    lemma_tok(src, file, ts, p);
    match ts[p].kind {
        TokV::Sym(Tok::LBracket) => {
            lemma_ty(src, file, ts, p + 1);
            if let Parsed::Done(_, q) = ty(ts, p + 1) {
                lemma_tok(src, file, ts, q);
                lemma_order(src, file, ts, p, q);
                lemma_span_to(src, file, ts, ts[p].span.start, q + 1);
            }
        },
        TokV::Sym(Tok::LBrace) => {
            lemma_ty(src, file, ts, p + 1);
            if let Parsed::Done(_, q) = ty(ts, p + 1) {
                lemma_tok(src, file, ts, q);
                if at(ts, q, Tok::Colon) {
                    lemma_ty(src, file, ts, q + 1);
                    if let Parsed::Done(_, q2) = ty(ts, q + 1) {
                        lemma_tok(src, file, ts, q2);
                        lemma_order(src, file, ts, p, q2);
                        lemma_span_to(src, file, ts, ts[p].span.start, q2 + 1);
                    }
                }
            }
        },
        _ => {},
    }
}

pub proof fn lemma_opt_ty(src: Seq<char>, file: FileId, ts: Seq<TokenV>, p: int, mark: Tok)
    requires
        is_row(src, file, ts),
        0 <= p < ts.len(),
        mark != Tok::Eof,
    ensures
        match opt_ty(ts, p, mark) {
            Parsed::Done(_, q) => p <= q < ts.len(),
            Parsed::Bad(d) => points(src, file, d),
        },
{
    lemma_tok(src, file, ts, p);
    if at(ts, p, mark) {
        lemma_ty(src, file, ts, p + 1);
    }
}

proof fn lemma_paren(src: Seq<char>, file: FileId, ts: Seq<TokenV>, p: int)
    requires
        is_row(src, file, ts),
        0 <= p < ts.len(),
    ensures
        match paren_expr(ts, p) {
            Parsed::Done(e, q) => p < q < ts.len() && expr_in(spots(src, file), e),
            Parsed::Bad(d) => points(src, file, d),
        },
{
    lemma_tok(src, file, ts, p);
    if at(ts, p, Tok::LParen) {
        lemma_expr(src, file, ts, p + 1);
        if let Parsed::Done(e, q) = expr(ts, p + 1) {
            lemma_tok(src, file, ts, q);
        }
    }
}

proof fn lemma_let(src: Seq<char>, file: FileId, ts: Seq<TokenV>, p: int)
    requires
        is_row(src, file, ts),
        0 <= p < ts.len(),
    ensures
        kind_answers(src, file, ts, p, let_rest(ts, p)),
{
    lemma_tok(src, file, ts, p);
    if let Parsed::Done(name, q) = ident(ts, p) {
        lemma_opt_ty(src, file, ts, q, Tok::Colon);
        if let Parsed::Done(ty, q2) = opt_ty(ts, q, Tok::Colon) {
            lemma_tok(src, file, ts, q2);
            if at(ts, q2, Tok::Assign) {
                lemma_expr(src, file, ts, q2 + 1);
                if let Parsed::Done(value, q4) = expr(ts, q2 + 1) {
                    lemma_kind_in(spots(src, file), StmtKindV::Let { name, ty, value });
                }
            }
        }
    }
}

/// What follows the expression `e`, which goes from `p0` up to `p`.
proof fn lemma_assign(
    src: Seq<char>,
    file: FileId,
    ts: Seq<TokenV>,
    p0: int,
    p: int,
    e: ExprV,
)
    requires
        is_row(src, file, ts),
        stands(src, file, ts, p0, p, e),
    ensures
        kind_answers(src, file, ts, p0, assign_rest(ts, p, e)),
{
    let ok = spots(src, file);
    lemma_tok(src, file, ts, p);
    if at(ts, p, Tok::Assign) {
        lemma_expr(src, file, ts, p + 1);
        if let Parsed::Done(value, q) = expr(ts, p + 1) {
            lemma_kind_in(ok, StmtKindV::Assign { target: e, value });
        }
    } else {
        match compound_op(ts[p].kind) {
            Some(op) => {
                lemma_expr(src, file, ts, p + 1);
                if let Parsed::Done(rhs, q) = expr(ts, p + 1) {
                    let value = ExprV {
                        kind: ExprKindV::Binary { op, lhs: Box::new(e), rhs: Box::new(rhs) },
                        span: span_to(ts, e.span.start, q),
                    };
                    lemma_order(src, file, ts, p - 1, q - 1);
                    lemma_span_to(src, file, ts, e.span.start, q);
                    lemma_expr_in(ok, value);
                    lemma_kind_in(ok, StmtKindV::Assign { target: e, value });
                }
            },
            None => lemma_kind_in(ok, StmtKindV::ExprStmt(e)),
        }
    }
}

proof fn lemma_simple(src: Seq<char>, file: FileId, ts: Seq<TokenV>, p: int)
    requires
        is_row(src, file, ts),
        0 <= p < ts.len(),
    ensures
        kind_answers(src, file, ts, p, simple_kind(ts, p)),
{
    lemma_tok(src, file, ts, p);
    if at(ts, p, Tok::Let) {
        lemma_let(src, file, ts, p + 1);
    } else {
        lemma_expr(src, file, ts, p);
        if let Parsed::Done(e, q) = expr(ts, p) {
            lemma_assign(src, file, ts, p, q, e);
        }
    }
}

/// A statement that starts at `p` stands from there on.
proof fn lemma_placed(
    src: Seq<char>,
    file: FileId,
    ts: Seq<TokenV>,
    p: int,
    kind: Parsed<StmtKindV>,
)
    requires
        is_row(src, file, ts),
        0 <= p < ts.len(),
        kind_answers(src, file, ts, p, kind),
    ensures
        match placed(ts, p, kind) {
            Parsed::Done(s, q) => p < q < ts.len() && stmt_in(spots(src, file), s),
            Parsed::Bad(d) => points(src, file, d),
        },
{
    lemma_tok(src, file, ts, p);
    if let Parsed::Done(_, q) = kind {
        lemma_order(src, file, ts, p, q - 1);
        lemma_span_to(src, file, ts, ts[p].span.start, q);
    }
}

proof fn lemma_opt_simple(src: Seq<char>, file: FileId, ts: Seq<TokenV>, p: int, stop: Tok)
    requires
        is_row(src, file, ts),
        0 <= p < ts.len(),
    ensures
        match opt_simple(ts, p, stop) {
            Parsed::Done(s, q) => p <= q < ts.len() && opt_stmt_in(spots(src, file), s),
            Parsed::Bad(d) => points(src, file, d),
        },
{
    if !at(ts, p, stop) {
        lemma_simple(src, file, ts, p);
        lemma_placed(src, file, ts, p, simple_kind(ts, p));
    }
}

proof fn lemma_for_head(src: Seq<char>, file: FileId, ts: Seq<TokenV>, p: int)
    requires
        is_row(src, file, ts),
        0 <= p < ts.len(),
    ensures
        match for_head(ts, p) {
            Parsed::Done((init, cond, step), q) => {
                &&& p < q < ts.len()
                &&& opt_stmt_in(spots(src, file), init)
                &&& expr_in(spots(src, file), cond)
                &&& opt_stmt_in(spots(src, file), step)
            },
            Parsed::Bad(d) => points(src, file, d),
        },
{
    lemma_opt_simple(src, file, ts, p, Tok::Semicolon);
    if let Parsed::Done(init, q0) = opt_simple(ts, p, Tok::Semicolon) {
        lemma_tok(src, file, ts, q0);
        if at(ts, q0, Tok::Semicolon) {
            lemma_expr(src, file, ts, q0 + 1);
            if let Parsed::Done(cond, q1) = expr(ts, q0 + 1) {
                lemma_tok(src, file, ts, q1);
                if at(ts, q1, Tok::Semicolon) {
                    lemma_opt_simple(src, file, ts, q1 + 1, Tok::RParen);
                    if let Parsed::Done(step, q2) = opt_simple(ts, q1 + 1, Tok::RParen) {
                        lemma_tok(src, file, ts, q2);
                    }
                }
            }
        }
    }
}

proof fn lemma_for_in_head(src: Seq<char>, file: FileId, ts: Seq<TokenV>, p: int)
    requires
        is_row(src, file, ts),
        0 <= p < ts.len(),
    ensures
        match for_in_head(ts, p) {
            Parsed::Done((_, iter), q) => p < q < ts.len() && expr_in(spots(src, file), iter),
            Parsed::Bad(d) => points(src, file, d),
        },
{
    lemma_tok(src, file, ts, p);
    if let Parsed::Done(var, q0) = ident(ts, p) {
        lemma_tok(src, file, ts, q0);
        if at(ts, q0, Tok::In) {
            lemma_expr(src, file, ts, q0 + 1);
            if let Parsed::Done(iter, q1) = expr(ts, q0 + 1) {
                lemma_tok(src, file, ts, q1);
            }
        }
    }
}

proof fn lemma_names(src: Seq<char>, file: FileId, ts: Seq<TokenV>, p: int, acc: Seq<Seq<char>>)
    requires
        is_row(src, file, ts),
        0 <= p < ts.len(),
    ensures
        match names_rest(ts, p, acc) {
            Parsed::Done(_, q) => p < q < ts.len(),
            Parsed::Bad(d) => points(src, file, d),
        },
    decreases left(ts, p),
{
    lemma_tok(src, file, ts, p);
    if let Parsed::Done(name, q) = ident(ts, p) {
        lemma_tok(src, file, ts, q);
        if at(ts, q, Tok::Comma) {
            lemma_names(src, file, ts, q + 1, acc.push(name));
        }
    }
}

proof fn lemma_pattern(src: Seq<char>, file: FileId, ts: Seq<TokenV>, p: int)
    requires
        is_row(src, file, ts),
        0 <= p < ts.len(),
    ensures
        match pattern(ts, p) {
            Parsed::Done(_, q) => p < q < ts.len(),
            Parsed::Bad(d) => points(src, file, d),
        },
{
    lemma_tok(src, file, ts, p);
    if let Parsed::Done(name, q) = ident(ts, p) {
        lemma_tok(src, file, ts, q);
        if at(ts, q, Tok::LParen) {
            lemma_tok(src, file, ts, q + 1);
            if at(ts, q + 1, Tok::RParen) {
                lemma_tok(src, file, ts, q + 2);
            } else {
                lemma_names(src, file, ts, q + 1, Seq::empty());
                if let Parsed::Done(_, q2) = names_rest(ts, q + 1, Seq::empty()) {
                    lemma_tok(src, file, ts, q2);
                }
            }
        }
    }
}

/// What a statement reads as stands in the text, or the error does.
proof fn lemma_stmt(src: Seq<char>, file: FileId, ts: Seq<TokenV>, p: int)
    requires
        is_row(src, file, ts),
        0 <= p < ts.len(),
    ensures
        match stmt(ts, p) {
            Parsed::Done(s, q) => p < q < ts.len() && stmt_in(spots(src, file), s),
            Parsed::Bad(d) => points(src, file, d),
        },
    decreases left(ts, p), 2int,
{
    lemma_kind(src, file, ts, p);
    lemma_placed(src, file, ts, p, stmt_kind(ts, p));
}

proof fn lemma_kind(src: Seq<char>, file: FileId, ts: Seq<TokenV>, p: int)
    requires
        is_row(src, file, ts),
        0 <= p < ts.len(),
    ensures
        kind_answers(src, file, ts, p, stmt_kind(ts, p)),
    decreases left(ts, p), 1int,
{
    let ok = spots(src, file);
    lemma_tok(src, file, ts, p);
    match ts[p].kind {
        TokV::Sym(Tok::Return) => {
            lemma_expr(src, file, ts, p + 1);
            if let Parsed::Done(e, q) = expr(ts, p + 1) {
                lemma_tok(src, file, ts, q);
                lemma_kind_in(ok, StmtKindV::Return(e));
            }
        },
        TokV::Sym(Tok::Print) => {
            lemma_expr(src, file, ts, p + 1);
            if let Parsed::Done(e, q) = expr(ts, p + 1) {
                lemma_tok(src, file, ts, q);
                lemma_kind_in(ok, StmtKindV::Print(e));
            }
        },
        TokV::Sym(Tok::If) => {
            lemma_paren(src, file, ts, p + 1);
            if let Parsed::Done(cond, q) = paren_expr(ts, p + 1) {
                lemma_block(src, file, ts, q);
                if let Parsed::Done(then_body, q2) = block(ts, q) {
                    lemma_else(src, file, ts, q2);
                    if let Parsed::Done(else_body, q3) = else_part(ts, q2) {
                        lemma_kind_in(ok, StmtKindV::If { cond, then_body, else_body });
                    }
                }
            }
        },
        TokV::Sym(Tok::While) => {
            lemma_paren(src, file, ts, p + 1);
            if let Parsed::Done(cond, q) = paren_expr(ts, p + 1) {
                lemma_block(src, file, ts, q);
                if let Parsed::Done(body, q2) = block(ts, q) {
                    lemma_kind_in(ok, StmtKindV::While { cond, body });
                }
            }
        },
        TokV::Sym(Tok::Match) => {
            lemma_paren(src, file, ts, p + 1);
            if let Parsed::Done(scrut, q) = paren_expr(ts, p + 1) {
                lemma_tok(src, file, ts, q);
                if at(ts, q, Tok::LBrace) {
                    lemma_arms(src, file, ts, q + 1, Seq::empty());
                    if let Parsed::Done(arms, q2) = arms(ts, q + 1, Seq::empty()) {
                        lemma_kind_in(ok, StmtKindV::Match { scrut, arms });
                    }
                }
            }
        },
        TokV::Sym(Tok::For) => lemma_for(src, file, ts, p),
        TokV::Sym(Tok::Break) => {
            lemma_tok(src, file, ts, p + 1);
            lemma_kind_in(ok, StmtKindV::Break);
        },
        TokV::Sym(Tok::Continue) => {
            lemma_tok(src, file, ts, p + 1);
            lemma_kind_in(ok, StmtKindV::Continue);
        },
        _ => {
            lemma_simple(src, file, ts, p);
            if let Parsed::Done(_, q) = simple_kind(ts, p) {
                lemma_tok(src, file, ts, q);
            }
        },
    }
}

proof fn lemma_for(src: Seq<char>, file: FileId, ts: Seq<TokenV>, p: int)
    requires
        is_row(src, file, ts),
        0 <= p < ts.len(),
        p + 1 < ts.len(),
    ensures
        kind_answers(src, file, ts, p, for_kind(ts, p)),
    decreases left(ts, p), 0int,
{
    let ok = spots(src, file);
    lemma_tok(src, file, ts, p + 1);
    if at(ts, p + 1, Tok::LParen) {
        let q = p + 2;
        if ts[q].kind is Ident && at(ts, q + 1, Tok::In) {
            lemma_for_in_head(src, file, ts, q);
            if let Parsed::Done((var, iter), q2) = for_in_head(ts, q) {
                lemma_block(src, file, ts, q2);
                if let Parsed::Done(body, q3) = block(ts, q2) {
                    lemma_kind_in(ok, StmtKindV::ForIn { var, iter, body });
                }
            }
        } else {
            lemma_for_head(src, file, ts, q);
            if let Parsed::Done((init, cond, step), q2) = for_head(ts, q) {
                lemma_block(src, file, ts, q2);
                if let Parsed::Done(body, q3) = block(ts, q2) {
                    lemma_kind_in(ok, StmtKindV::For { init, cond, step, body });
                }
            }
        }
    }
}

proof fn lemma_else(src: Seq<char>, file: FileId, ts: Seq<TokenV>, p: int)
    requires
        is_row(src, file, ts),
        0 <= p < ts.len(),
    ensures
        match else_part(ts, p) {
            Parsed::Done(ss, q) => p <= q < ts.len() && stmts_in(spots(src, file), ss),
            Parsed::Bad(d) => points(src, file, d),
        },
    decreases left(ts, p), 0int,
{
    lemma_tok(src, file, ts, p);
    if at(ts, p, Tok::Else) {
        if at(ts, p + 1, Tok::If) {
            lemma_stmt(src, file, ts, p + 1);
        } else {
            lemma_block(src, file, ts, p + 1);
        }
    }
}

/// What a block reads as stands in the text, or the error does.
pub proof fn lemma_block(src: Seq<char>, file: FileId, ts: Seq<TokenV>, p: int)
    requires
        is_row(src, file, ts),
        0 <= p < ts.len(),
    ensures
        stmts_answer(src, file, ts, p, block(ts, p)),
    decreases left(ts, p), 0int,
{
    lemma_tok(src, file, ts, p);
    if at(ts, p, Tok::LBrace) {
        lemma_stmts(src, file, ts, p + 1, Seq::empty());
    }
}

proof fn lemma_stmts(src: Seq<char>, file: FileId, ts: Seq<TokenV>, p: int, acc: Seq<StmtV>)
    requires
        is_row(src, file, ts),
        0 <= p < ts.len(),
        stmts_in(spots(src, file), acc),
    ensures
        stmts_answer(src, file, ts, p, stmts(ts, p, acc)),
    decreases left(ts, p), 3int,
{
    lemma_tok(src, file, ts, p);
    if !(at(ts, p, Tok::RBrace) || at(ts, p, Tok::Eof)) {
        lemma_stmt(src, file, ts, p);
        if let Parsed::Done(s, q) = stmt(ts, p) {
            assert(stmts_in(spots(src, file), acc.push(s)));
            lemma_stmts(src, file, ts, q, acc.push(s));
        }
    }
}

proof fn lemma_arm_body(src: Seq<char>, file: FileId, ts: Seq<TokenV>, p: int)
    requires
        is_row(src, file, ts),
        0 <= p < ts.len(),
    ensures
        stmts_answer(src, file, ts, p, arm_body(ts, p)),
    decreases left(ts, p), 3int,
{
    if at(ts, p, Tok::LBrace) {
        lemma_block(src, file, ts, p);
    } else {
        lemma_stmt(src, file, ts, p);
    }
}

proof fn lemma_arms(src: Seq<char>, file: FileId, ts: Seq<TokenV>, p: int, acc: Seq<MatchArmV>)
    requires
        is_row(src, file, ts),
        0 <= p < ts.len(),
        arms_in(spots(src, file), acc),
    ensures
        match arms(ts, p, acc) {
            Parsed::Done(arms, q) => p < q < ts.len() && arms_in(spots(src, file), arms),
            Parsed::Bad(d) => points(src, file, d),
        },
    decreases left(ts, p), 0int,
{
    lemma_tok(src, file, ts, p);
    if !(at(ts, p, Tok::RBrace) || at(ts, p, Tok::Eof)) {
        lemma_pattern(src, file, ts, p);
        if let Parsed::Done(arm, q) = pattern(ts, p) {
            lemma_arm_body(src, file, ts, q);
            if let Parsed::Done(body, q2) = arm_body(ts, q) {
                let whole = MatchArmV { body, span: span_to(ts, ts[p].span.start, q2), ..arm };
                lemma_order(src, file, ts, p, q2 - 1);
                lemma_span_to(src, file, ts, ts[p].span.start, q2);
                assert(arm_in(spots(src, file), whole));
                assert(arms_in(spots(src, file), acc.push(whole)));
                lemma_arms(src, file, ts, q2, acc.push(whole));
            }
        }
    }
}

} // verus!
