//! Expressions are read as they are written.
use crate::ast::{BinOp, UnOp};
use crate::token::Tok;
use vstd::prelude::*;
#[allow(unused_imports)]
use crate::ast::{ExprKindV, ExprV, FieldInitV};
#[allow(unused_imports)]
use crate::grammar::{
    at, bracket, expr, exprs, exprs_rest, inits, level_op, opt_expr, pairs, postfix_rest, prefix_op,
    primary, unary, Parsed,
};
#[allow(unused_imports)]
use crate::laws::parsing::{
    is_spelled, lemma_no_operator, lemma_operand, no_operator, op_spelling, operand,
    operators_stand_between_their_operands,
};
#[allow(unused_imports)]
use crate::laws::writing::mark_spelling;
#[allow(unused_imports)]
use crate::token::{TokV, TokenV};

verus! {

// Trees without their places.

/// An expression, but for where it and its parts stand.
pub open spec fn bare(e: ExprV) -> ExprV
    decreases e, 0int,
{
    let kind = match e.kind {
        ExprKindV::Unary { op, expr } => ExprKindV::Unary { op, expr: Box::new(bare(*expr)) },
        ExprKindV::Binary { op, lhs, rhs } => ExprKindV::Binary {
            op,
            lhs: Box::new(bare(*lhs)),
            rhs: Box::new(bare(*rhs)),
        },
        ExprKindV::Call { name, args } => ExprKindV::Call { name, args: bares(args, args.len()) },
        ExprKindV::Array(args) => ExprKindV::Array(bares(args, args.len())),
        ExprKindV::Index { array, index } => ExprKindV::Index {
            array: Box::new(bare(*array)),
            index: Box::new(bare(*index)),
        },
        ExprKindV::Slice { seq, lo, hi } => ExprKindV::Slice {
            seq: Box::new(bare(*seq)),
            lo: match lo {
                Some(x) => Some(Box::new(bare(*x))),
                None => None,
            },
            hi: match hi {
                Some(x) => Some(Box::new(bare(*x))),
                None => None,
            },
        },
        ExprKindV::StructLit { name, fields } => ExprKindV::StructLit {
            name,
            fields: bare_fields(fields, fields.len()),
        },
        ExprKindV::MapLit(items) => ExprKindV::MapLit(bare_items(items, items.len())),
        ExprKindV::Field { obj, field } => ExprKindV::Field { obj: Box::new(bare(*obj)), field },
        kind => kind,
    };
    ExprV { kind, span: arbitrary() }
}

/// The first `n` of some expressions.
pub open spec fn bares(es: Seq<ExprV>, n: nat) -> Seq<ExprV>
    decreases es, n,
{
    if n == 0 || n > es.len() {
        Seq::empty()
    } else {
        bares(es, (n - 1) as nat).push(bare(es[n - 1]))
    }
}

pub open spec fn bare_fields(es: Seq<FieldInitV>, n: nat) -> Seq<FieldInitV>
    decreases es, n,
{
    if n == 0 || n > es.len() {
        Seq::empty()
    } else {
        bare_fields(es, (n - 1) as nat).push(
            FieldInitV { name: es[n - 1].name, value: bare(es[n - 1].value), span: arbitrary() },
        )
    }
}

pub open spec fn bare_items(es: Seq<(ExprV, ExprV)>, n: nat) -> Seq<(ExprV, ExprV)>
    decreases es, n,
{
    if n == 0 || n > es.len() {
        Seq::empty()
    } else {
        bare_items(es, (n - 1) as nat).push((bare(es[n - 1].0), bare(es[n - 1].1)))
    }
}

// How trees are written.

pub open spec fn sym(t: Tok) -> TokV {
    TokV::Sym(t)
}

/// The mark for an operator.
pub open spec fn op_tok(op: BinOp) -> Tok {
    match op {
        BinOp::Add => Tok::Plus,
        BinOp::Sub => Tok::Minus,
        BinOp::Mul => Tok::Star,
        BinOp::Div => Tok::Slash,
        BinOp::Mod => Tok::Percent,
        BinOp::Eq => Tok::EqEq,
        BinOp::Ne => Tok::NotEq,
        BinOp::Lt => Tok::Lt,
        BinOp::Le => Tok::Le,
        BinOp::Gt => Tok::Gt,
        BinOp::Ge => Tok::Ge,
        BinOp::And => Tok::AmpAmp,
        BinOp::Or => Tok::PipePipe,
        BinOp::BitAnd => Tok::Amp,
        BinOp::BitOr => Tok::Pipe,
        BinOp::BitXor => Tok::Caret,
        BinOp::Shl => Tok::Shl,
        BinOp::Shr => Tok::Shr,
    }
}

pub open spec fn prefix_tok(op: UnOp) -> Tok {
    match op {
        UnOp::Neg => Tok::Minus,
        UnOp::Not => Tok::Bang,
        UnOp::BitNot => Tok::Tilde,
    }
}

/// The tokens of an expression, with every operand in brackets of its own.
pub open spec fn row_of(e: ExprV) -> Seq<TokV>
    decreases e, 1int,
{
    match e.kind {
        ExprKindV::Int(n) => seq![TokV::Int(n)],
        ExprKindV::Float(s) => seq![TokV::Float(s)],
        ExprKindV::Bool(b) => seq![
            sym(
                if b {
                    Tok::True
                } else {
                    Tok::False
                },
            ),
        ],
        ExprKindV::Str(s) => seq![TokV::Str(s)],
        ExprKindV::Null => seq![sym(Tok::Null)],
        ExprKindV::Var(name) => seq![TokV::Ident(name)],
        ExprKindV::Unary { op, expr } => seq![sym(prefix_tok(op))] + wrapped(row_of(*expr)),
        ExprKindV::Binary { op, lhs, rhs } => wrapped(row_of(*lhs)) + seq![sym(op_tok(op))]
            + wrapped(row_of(*rhs)),
        ExprKindV::Call { name, args } => seq![TokV::Ident(name), sym(Tok::LParen)] + rows_of(
            args,
            0,
        ) + seq![sym(Tok::RParen)],
        ExprKindV::Array(args) => seq![sym(Tok::LBracket)] + rows_of(args, 0) + seq![
            sym(Tok::RBracket),
        ],
        ExprKindV::Index { array, index } => wrapped(row_of(*array)) + seq![sym(Tok::LBracket)]
            + row_of(*index) + seq![sym(Tok::RBracket)],
        ExprKindV::Slice { seq, lo, hi } => wrapped(row_of(*seq)) + seq![sym(Tok::LBracket)] + (
        match lo {
            Some(x) => row_of(*x),
            None => Seq::empty(),
        }) + seq![sym(Tok::Colon)] + (match hi {
            Some(x) => row_of(*x),
            None => Seq::empty(),
        }) + seq![sym(Tok::RBracket)],
        ExprKindV::StructLit { name, fields } => seq![TokV::Ident(name), sym(Tok::LBrace)]
            + fields_row(fields, 0) + seq![sym(Tok::RBrace)],
        ExprKindV::MapLit(items) => seq![sym(Tok::LBrace)] + items_row(items, 0) + seq![
            sym(Tok::RBrace),
        ],
        ExprKindV::Field { obj, field } => wrapped(row_of(*obj)) + seq![
            sym(Tok::Dot),
            TokV::Ident(field),
        ],
    }
}

/// In round brackets.
pub open spec fn wrapped(ks: Seq<TokV>) -> Seq<TokV> {
    seq![sym(Tok::LParen)] + ks + seq![sym(Tok::RParen)]
}

/// A comma, unless what it would stand behind is the last.
pub open spec fn comma(i: int, n: nat) -> Seq<TokV> {
    if i + 1 < n {
        seq![sym(Tok::Comma)]
    } else {
        Seq::empty()
    }
}

/// The expressions from `i` on, with commas between them.
pub open spec fn rows_of(es: Seq<ExprV>, i: int) -> Seq<TokV>
    decreases es, es.len() - i,
{
    if !(0 <= i < es.len()) {
        Seq::empty()
    } else {
        row_of(es[i]) + comma(i, es.len()) + rows_of(es, i + 1)
    }
}

pub open spec fn fields_row(es: Seq<FieldInitV>, i: int) -> Seq<TokV>
    decreases es, es.len() - i,
{
    if !(0 <= i < es.len()) {
        Seq::empty()
    } else {
        seq![TokV::Ident(es[i].name), sym(Tok::Colon)] + row_of(es[i].value) + comma(i, es.len())
            + fields_row(es, i + 1)
    }
}

pub open spec fn items_row(es: Seq<(ExprV, ExprV)>, i: int) -> Seq<TokV>
    decreases es, es.len() - i,
{
    if !(0 <= i < es.len()) {
        Seq::empty()
    } else {
        row_of(es[i].0) + seq![sym(Tok::Colon)] + row_of(es[i].1) + comma(i, es.len()) + items_row(
            es,
            i + 1,
        )
    }
}

// Reading.

/// These tokens stand from `p` on.
pub open spec fn stands(ts: Seq<TokenV>, p: int, ks: Seq<TokV>) -> bool {
    &&& 0 <= p
    &&& p + ks.len() <= ts.len()
    &&& forall|k: int| 0 <= k < ks.len() ==> ts[p + k].kind == #[trigger] ks[k]
}

pub proof fn lemma_stands(ts: Seq<TokenV>, p: int, a: Seq<TokV>, b: Seq<TokV>)
    requires
        stands(ts, p, a + b),
    ensures
        stands(ts, p, a),
        stands(ts, p + a.len(), b),
{
    assert forall|k: int| 0 <= k < a.len() implies ts[p + k].kind == #[trigger] a[k] by {
        assert((a + b)[k] == a[k]);
    }
    assert forall|k: int| 0 <= k < b.len() implies ts[p + a.len() + k].kind == #[trigger] b[k] by {
        assert((a + b)[a.len() + k] == b[k]);
        assert(ts[p + (a.len() + k)].kind == (a + b)[a.len() + k]);
    }
}

pub proof fn lemma_stands_one(ts: Seq<TokenV>, p: int, k: TokV)
    requires
        stands(ts, p, seq![k]),
    ensures
        ts[p].kind == k,
        0 <= p < ts.len(),
{
    assert(ts[p + 0].kind == seq![k][0]);
}

/// A token that no expression goes on with.
pub open spec fn is_end(t: TokV) -> bool {
    &&& no_operator(t)
    &&& t != sym(Tok::LParen)
    &&& t != sym(Tok::LBrace)
    &&& t != sym(Tok::LBracket)
    &&& t != sym(Tok::Dot)
}

pub proof fn lemma_ends(t: Tok)
    requires
        t is RParen || t is RBracket || t is RBrace || t is Comma || t is Colon || t is Semicolon
            || t is Assign || t is Eof,
    ensures
        is_end(sym(t)),
{
    assert forall|op: BinOp| !is_spelled(sym(t), #[trigger] op_spelling(op)) by {
        let m = mark_spelling(t);
        let o = op_spelling(op);
        if m == o {
            assert(m.len() == o.len());
            assert(m[0] == o[0]);
        }
    }
}

/// An expression of that shape stands there, and `q` is behind it.
pub open spec fn reads(r: Parsed<ExprV>, e: ExprV, q: int) -> bool {
    r matches Parsed::Done(d, end) && end == q && bare(d) == bare(e)
}


/// The first `n` of two rows of expressions have one shape.
pub open spec fn alike(a: Seq<ExprV>, b: Seq<ExprV>, n: int) -> bool {
    &&& n <= a.len()
    &&& n <= b.len()
    &&& forall|i: int| 0 <= i < n ==> bare(#[trigger] a[i]) == bare(b[i])
}

proof fn lemma_bares(a: Seq<ExprV>, b: Seq<ExprV>, n: nat)
    requires
        alike(a, b, n as int),
    ensures
        bares(a, n) == bares(b, n),
    decreases n,
{
    if n > 0 {
        lemma_bares(a, b, (n - 1) as nat);
        assert(bare(a[n - 1]) == bare(b[n - 1]));
    }
}

pub open spec fn fields_alike(a: Seq<FieldInitV>, b: Seq<FieldInitV>, n: int) -> bool {
    &&& n <= a.len()
    &&& n <= b.len()
    &&& forall|i: int|
        0 <= i < n ==> (#[trigger] a[i]).name == b[i].name && bare(a[i].value) == bare(b[i].value)
}

proof fn lemma_bare_fields(a: Seq<FieldInitV>, b: Seq<FieldInitV>, n: nat)
    requires
        fields_alike(a, b, n as int),
    ensures
        bare_fields(a, n) == bare_fields(b, n),
    decreases n,
{
    if n > 0 {
        lemma_bare_fields(a, b, (n - 1) as nat);
        assert(a[n - 1].name == b[n - 1].name);
    }
}

pub open spec fn items_alike(a: Seq<(ExprV, ExprV)>, b: Seq<(ExprV, ExprV)>, n: int) -> bool {
    &&& n <= a.len()
    &&& n <= b.len()
    &&& forall|i: int|
        0 <= i < n ==> bare((#[trigger] a[i]).0) == bare(b[i].0) && bare(a[i].1) == bare(b[i].1)
}

proof fn lemma_bare_items(a: Seq<(ExprV, ExprV)>, b: Seq<(ExprV, ExprV)>, n: nat)
    requires
        items_alike(a, b, n as int),
    ensures
        bare_items(a, n) == bare_items(b, n),
    decreases n,
{
    if n > 0 {
        lemma_bare_items(a, b, (n - 1) as nat);
        assert(bare(a[n - 1].0) == bare(b[n - 1].0));
    }
}

/// A token that ends something or parts it, with which no expression starts.
pub open spec fn is_closing(t: TokV) -> bool {
    t == sym(Tok::RParen) || t == sym(Tok::RBracket) || t == sym(Tok::RBrace) || t == sym(Tok::Comma)
        || t == sym(Tok::Colon) || t == sym(Tok::Semicolon) || t == sym(Tok::Eof)
}

/// How a row of an expression starts: with no closing token and no keyword of a statement.
pub proof fn lemma_first_token(e: ExprV)
    ensures
        row_of(e).len() > 0,
        !is_closing(row_of(e)[0]),
        row_of(e)[0] matches TokV::Sym(t) ==> t is LParen || t is LBracket || t is LBrace || t
            is Minus || t is Bang || t is Tilde || t is True || t is False || t is Null,
{
    match e.kind {
        ExprKindV::Unary { op, expr } => {
            assert(row_of(e)[0] == sym(prefix_tok(op)));
        },
        ExprKindV::Binary { op, lhs, rhs } => {
            assert(row_of(e)[0] == sym(Tok::LParen));
        },
        ExprKindV::Call { name, args } => {
            assert(row_of(e)[0] == TokV::Ident(name));
        },
        ExprKindV::Array(args) => {
            assert(row_of(e)[0] == sym(Tok::LBracket));
        },
        ExprKindV::Index { array, index } => {
            assert(row_of(e)[0] == sym(Tok::LParen));
        },
        ExprKindV::Slice { seq, lo, hi } => {
            assert(row_of(e)[0] == sym(Tok::LParen));
        },
        ExprKindV::StructLit { name, fields } => {
            assert(row_of(e)[0] == TokV::Ident(name));
        },
        ExprKindV::MapLit(items) => {
            assert(row_of(e)[0] == sym(Tok::LBrace));
        },
        ExprKindV::Field { obj, field } => {
            assert(row_of(e)[0] == sym(Tok::LParen));
        },
        _ => {},
    }
}

/// What stands in round brackets is an operand of its own.
pub proof fn lemma_wrapped(ts: Seq<TokenV>, p: int, ks: Seq<TokV>, e: ExprV)
    requires
        stands(ts, p, wrapped(ks)),
        reads(expr(ts, p + 1), e, p + 1 + ks.len()),
    ensures
        reads(primary(ts, p), e, p + wrapped(ks).len()),
        prefix_op(ts[p].kind) is None,
{
    let w = wrapped(ks);
    assert(ts[p + 0].kind == w[0]);
    assert(w[0] == sym(Tok::LParen));
    let last = ks.len() + 1;
    assert(ts[p + last].kind == w[last as int]);
    assert(w[last as int] == sym(Tok::RParen));
    assert(at(ts, p + 1 + ks.len(), Tok::RParen));
}

proof fn lemma_alone(ts: Seq<TokenV>, p: int, d: ExprV, q: int)
    requires
        0 <= p < q < ts.len(),
        primary(ts, p) == Parsed::Done(d, q),
        prefix_op(ts[p].kind) is None,
        !at(ts, q, Tok::LBracket),
        !at(ts, q, Tok::Dot),
    ensures
        operand(ts, p, d, q),
{
    assert(postfix_rest(ts, q, d) == Parsed::Done(d, q));
}

/// An operand that no operator follows is an expression.
proof fn lemma_whole(ts: Seq<TokenV>, p: int, d: ExprV, q: int)
    requires
        operand(ts, p, d, q),
        no_operator(ts[q].kind),
    ensures
        expr(ts, p) == Parsed::Done(d, q),
{
    assert forall|l: int| #[trigger] level_op(l, ts[q].kind) is None by {
        lemma_no_operator(ts[q].kind, l);
    }
    lemma_operand(ts, p, 0, d, q);
}

/// The expressions from `i` on, up to and with the closing token.
proof fn lemma_rows(
    ts: Seq<TokenV>,
    p: int,
    es: Seq<ExprV>,
    i: int,
    close: Tok,
    trailing: bool,
    acc: Seq<ExprV>,
) -> (r: Seq<ExprV>)
    requires
        close is RParen || close is RBracket,
        0 <= i < es.len(),
        stands(ts, p, rows_of(es, i) + seq![sym(close)]),
        acc.len() == i,
        alike(acc, es, i),
    ensures
        exprs_rest(ts, p, close, trailing, acc) == Parsed::Done(r, p + rows_of(es, i).len() + 1),
        r.len() == es.len(),
        alike(r, es, es.len() as int),
    decreases es, es.len() - i,
{
    let e = es[i];
    let row = row_of(e);
    let mark = comma(i, es.len());
    let rest = rows_of(es, i + 1);
    let end = seq![sym(close)];
    assert(rows_of(es, i) + end =~= row + (mark + rest + end));
    lemma_stands(ts, p, row, mark + rest + end);
    let q = p + row.len();
    lemma_first_token(e);
    lemma_ends(close);
    lemma_ends(Tok::Comma);
    if i + 1 < es.len() {
        assert(mark + rest + end =~= seq![sym(Tok::Comma)] + (rest + end));
        lemma_stands(ts, q, seq![sym(Tok::Comma)], rest + end);
        lemma_stands_one(ts, q, sym(Tok::Comma));
        expressions_are_read_as_they_are_written(ts, p, e);
        let d = expr(ts, p)->Done_0;
        lemma_first_token(es[i + 1]);
        let next = row_of(es[i + 1]);
        assert(rest[0] == next[0]);
        assert((rest + end)[0] == rest[0]);
        assert(ts[q + 1 + 0].kind == (rest + end)[0]);
        assert(!at(ts, q + 1, close));
        assert(alike(acc.push(d), es, i + 1));
        let r = lemma_rows(ts, q + 1, es, i + 1, close, trailing, acc.push(d));
        r
    } else {
        assert(rest =~= Seq::empty());
        assert(mark + rest + end =~= end);
        lemma_stands_one(ts, q, sym(close));
        expressions_are_read_as_they_are_written(ts, p, e);
        let d = expr(ts, p)->Done_0;
        assert(alike(acc.push(d), es, i + 1));
        acc.push(d)
    }
}

proof fn lemma_fields(
    ts: Seq<TokenV>,
    p: int,
    es: Seq<FieldInitV>,
    i: int,
    acc: Seq<FieldInitV>,
) -> (r: Seq<FieldInitV>)
    requires
        0 <= i <= es.len(),
        stands(ts, p, fields_row(es, i) + seq![sym(Tok::RBrace)]),
        acc.len() == i,
        fields_alike(acc, es, i),
    ensures
        inits(ts, p, acc) == Parsed::Done(r, p + fields_row(es, i).len() + 1),
        r.len() == es.len(),
        fields_alike(r, es, es.len() as int),
    decreases es, es.len() - i,
{
    let end = seq![sym(Tok::RBrace)];
    if i == es.len() {
        assert(fields_row(es, i) + end =~= end);
        lemma_stands_one(ts, p, sym(Tok::RBrace));
        acc
    } else {
        let e = es[i].value;
        let row = row_of(e);
        let head = seq![TokV::Ident(es[i].name), sym(Tok::Colon)];
        let mark = comma(i, es.len());
        let rest = fields_row(es, i + 1);
        assert(fields_row(es, i) + end =~= head + (row + (mark + rest + end)));
        lemma_stands(ts, p, head, row + (mark + rest + end));
        assert(ts[p + 0].kind == head[0]);
        assert(ts[p + 1].kind == head[1]);
        lemma_stands(ts, p + 2, row, mark + rest + end);
        let q = p + 2 + row.len();
        lemma_first_token(e);
        lemma_ends(Tok::RBrace);
        lemma_ends(Tok::Comma);
        if i + 1 < es.len() {
            assert(mark + rest + end =~= seq![sym(Tok::Comma)] + (rest + end));
            lemma_stands(ts, q, seq![sym(Tok::Comma)], rest + end);
            lemma_stands_one(ts, q, sym(Tok::Comma));
            expressions_are_read_as_they_are_written(ts, p + 2, e);
            let d = expr(ts, p + 2)->Done_0;
            let item = FieldInitV {
                name: es[i].name,
                value: d,
                span: crate::span::Span {
                    file: ts[0].span.file,
                    start: ts[p].span.start,
                    end: d.span.end,
                },
            };
            assert(fields_alike(acc.push(item), es, i + 1));
            lemma_fields(ts, q + 1, es, i + 1, acc.push(item))
        } else {
            assert(rest =~= Seq::empty());
            assert(mark + rest + end =~= end);
            lemma_stands_one(ts, q, sym(Tok::RBrace));
            expressions_are_read_as_they_are_written(ts, p + 2, e);
            let d = expr(ts, p + 2)->Done_0;
            let item = FieldInitV {
                name: es[i].name,
                value: d,
                span: crate::span::Span {
                    file: ts[0].span.file,
                    start: ts[p].span.start,
                    end: d.span.end,
                },
            };
            assert(fields_alike(acc.push(item), es, i + 1));
            acc.push(item)
        }
    }
}

proof fn lemma_items(
    ts: Seq<TokenV>,
    p: int,
    es: Seq<(ExprV, ExprV)>,
    i: int,
    acc: Seq<(ExprV, ExprV)>,
) -> (r: Seq<(ExprV, ExprV)>)
    requires
        0 <= i <= es.len(),
        stands(ts, p, items_row(es, i) + seq![sym(Tok::RBrace)]),
        acc.len() == i,
        items_alike(acc, es, i),
    ensures
        pairs(ts, p, acc) == Parsed::Done(r, p + items_row(es, i).len() + 1),
        r.len() == es.len(),
        items_alike(r, es, es.len() as int),
    decreases es, es.len() - i,
{
    let end = seq![sym(Tok::RBrace)];
    if i == es.len() {
        assert(items_row(es, i) + end =~= end);
        lemma_stands_one(ts, p, sym(Tok::RBrace));
        acc
    } else {
        let key = es[i].0;
        let val = es[i].1;
        let krow = row_of(key);
        let vrow = row_of(val);
        let colon = seq![sym(Tok::Colon)];
        let mark = comma(i, es.len());
        let rest = items_row(es, i + 1);
        assert(items_row(es, i) + end =~= krow + (colon + (vrow + (mark + rest + end))));
        lemma_stands(ts, p, krow, colon + (vrow + (mark + rest + end)));
        let c = p + krow.len();
        lemma_stands(ts, c, colon, vrow + (mark + rest + end));
        lemma_stands_one(ts, c, sym(Tok::Colon));
        lemma_stands(ts, c + 1, vrow, mark + rest + end);
        let q = c + 1 + vrow.len();
        lemma_first_token(key);
        assert(ts[p + 0].kind == krow[0]);
        lemma_first_token(val);
        lemma_ends(Tok::RBrace);
        lemma_ends(Tok::Comma);
        lemma_ends(Tok::Colon);
        expressions_are_read_as_they_are_written(ts, p, key);
        let k = expr(ts, p)->Done_0;
        if i + 1 < es.len() {
            assert(mark + rest + end =~= seq![sym(Tok::Comma)] + (rest + end));
            lemma_stands(ts, q, seq![sym(Tok::Comma)], rest + end);
            lemma_stands_one(ts, q, sym(Tok::Comma));
            expressions_are_read_as_they_are_written(ts, c + 1, val);
            let d = expr(ts, c + 1)->Done_0;
            assert(items_alike(acc.push((k, d)), es, i + 1));
            lemma_items(ts, q + 1, es, i + 1, acc.push((k, d)))
        } else {
            assert(rest =~= Seq::empty());
            assert(mark + rest + end =~= end);
            lemma_stands_one(ts, q, sym(Tok::RBrace));
            expressions_are_read_as_they_are_written(ts, c + 1, val);
            let d = expr(ts, c + 1)->Done_0;
            assert(items_alike(acc.push((k, d)), es, i + 1));
            acc.push((k, d))
        }
    }
}

/// Expressions are read as they are written: from the tokens of a tree, with every operand in
/// brackets of its own, the grammar makes that tree again, but for where its parts stand. What
/// comes behind can be anything that no expression goes on with.
pub proof fn expressions_are_read_as_they_are_written(ts: Seq<TokenV>, p: int, e: ExprV)
    requires
        stands(ts, p, row_of(e)),
        p + row_of(e).len() < ts.len(),
        is_end(ts[p + row_of(e).len()].kind),
    ensures
        reads(expr(ts, p), e, p + row_of(e).len()),
    decreases e, 0int,
{
    let row = row_of(e);
    let q = p + row.len();
    lemma_first_token(e);
    assert(ts[p + 0].kind == row[0]);
    match e.kind {
        ExprKindV::Unary { op, expr: inner } => lemma_prefix(ts, p, e),
        ExprKindV::Binary { op, lhs, rhs } => lemma_infix(ts, p, e),
        ExprKindV::Call { name, args } => lemma_call(ts, p, e),
        ExprKindV::Array(args) => lemma_array(ts, p, e),
        ExprKindV::StructLit { name, fields } => lemma_struct(ts, p, e),
        ExprKindV::MapLit(items) => lemma_map(ts, p, e),
        ExprKindV::Field { obj, field } => lemma_field(ts, p, e),
        ExprKindV::Index { array, index } => lemma_index(ts, p, e),
        ExprKindV::Slice { seq, lo, hi } => lemma_slice(ts, p, e),
        _ => {
            assert(row.len() == 1);
            let d = primary(ts, p)->Done_0;
            lemma_alone(ts, p, d, q);
            lemma_whole(ts, p, d, q);
        },
    }
}

#[verifier::rlimit(40)]
#[verifier::spinoff_prover]
proof fn lemma_prefix(ts: Seq<TokenV>, p: int, e: ExprV)
    requires
        e.kind is Unary,
        stands(ts, p, row_of(e)),
        p + row_of(e).len() < ts.len(),
        is_end(ts[p + row_of(e).len()].kind),
    ensures
        reads(expr(ts, p), e, p + row_of(e).len()),
    decreases e.kind, 3int,
{
    let row = row_of(e);
    let q = p + row.len();
    lemma_first_token(e);
    assert(ts[p + 0].kind == row[0]);
    if let ExprKindV::Unary { op, expr: inner } = e.kind {
        let ks = row_of(*inner);
        lemma_stands(ts, p, seq![sym(prefix_tok(op))], wrapped(ks));
        lemma_bracketed(ts, p + 1, *inner);
        let d = primary(ts, p + 1)->Done_0;
        lemma_alone(ts, p + 1, d, q);
        let u = unary(ts, p)->Done_0;
        lemma_whole(ts, p, u, q);
    }
}

proof fn lemma_op_tok(op: BinOp)
    ensures
        is_spelled(sym(op_tok(op)), op_spelling(op)),
        !(op_tok(op) is LBracket) && !(op_tok(op) is Dot),
{
    assert(mark_spelling(op_tok(op)) =~= op_spelling(op));
}

#[verifier::rlimit(40)]
#[verifier::spinoff_prover]
proof fn lemma_infix(ts: Seq<TokenV>, p: int, e: ExprV)
    requires
        e.kind is Binary,
        stands(ts, p, row_of(e)),
        p + row_of(e).len() < ts.len(),
        is_end(ts[p + row_of(e).len()].kind),
    ensures
        reads(expr(ts, p), e, p + row_of(e).len()),
    decreases e.kind, 3int,
{
    let row = row_of(e);
    let q = p + row.len();
    lemma_first_token(e);
    assert(ts[p + 0].kind == row[0]);
    if let ExprKindV::Binary { op, lhs, rhs } = e.kind {
        let a = wrapped(row_of(*lhs));
        let b = wrapped(row_of(*rhs));
        let o = seq![sym(op_tok(op))];
        assert(row =~= a + (o + b));
        lemma_stands(ts, p, a, o + b);
        let m = p + a.len();
        lemma_stands(ts, m, o, b);
        lemma_stands_one(ts, m, sym(op_tok(op)));
        lemma_bracketed(ts, p, *lhs);
        let x = primary(ts, p)->Done_0;
        lemma_alone(ts, p, x, m);
        lemma_bracketed(ts, m + 1, *rhs);
        let y = primary(ts, m + 1)->Done_0;
        lemma_alone(ts, m + 1, y, q);
        lemma_op_tok(op);
        operators_stand_between_their_operands(ts, p, x, m, op, y, q);
    }
}

#[verifier::rlimit(40)]
#[verifier::spinoff_prover]
proof fn lemma_call(ts: Seq<TokenV>, p: int, e: ExprV)
    requires
        e.kind is Call,
        stands(ts, p, row_of(e)),
        p + row_of(e).len() < ts.len(),
        is_end(ts[p + row_of(e).len()].kind),
    ensures
        reads(expr(ts, p), e, p + row_of(e).len()),
    decreases e.kind, 3int,
{
    let row = row_of(e);
    let q = p + row.len();
    lemma_first_token(e);
    assert(ts[p + 0].kind == row[0]);
    if let ExprKindV::Call { name, args } = e.kind {
        let head = seq![TokV::Ident(name), sym(Tok::LParen)];
        let body = rows_of(args, 0) + seq![sym(Tok::RParen)];
        assert(row =~= head + body);
        lemma_stands(ts, p, head, body);
        assert(ts[p + 1].kind == head[1]);
        let r = lemma_list(ts, p + 2, args, Tok::RParen, false);
        lemma_bares(r, args, args.len());
        let d = primary(ts, p)->Done_0;
        lemma_alone(ts, p, d, q);
        lemma_whole(ts, p, d, q);
    }
}

#[verifier::rlimit(40)]
#[verifier::spinoff_prover]
proof fn lemma_array(ts: Seq<TokenV>, p: int, e: ExprV)
    requires
        e.kind is Array,
        stands(ts, p, row_of(e)),
        p + row_of(e).len() < ts.len(),
        is_end(ts[p + row_of(e).len()].kind),
    ensures
        reads(expr(ts, p), e, p + row_of(e).len()),
    decreases e.kind, 3int,
{
    let row = row_of(e);
    let q = p + row.len();
    lemma_first_token(e);
    assert(ts[p + 0].kind == row[0]);
    if let ExprKindV::Array(args) = e.kind {
        let head = seq![sym(Tok::LBracket)];
        let body = rows_of(args, 0) + seq![sym(Tok::RBracket)];
        assert(row =~= head + body);
        lemma_stands(ts, p, head, body);
        let r = lemma_list(ts, p + 1, args, Tok::RBracket, true);
        lemma_bares(r, args, args.len());
        let d = primary(ts, p)->Done_0;
        lemma_alone(ts, p, d, q);
        lemma_whole(ts, p, d, q);
    }
}

#[verifier::rlimit(40)]
#[verifier::spinoff_prover]
proof fn lemma_struct(ts: Seq<TokenV>, p: int, e: ExprV)
    requires
        e.kind is StructLit,
        stands(ts, p, row_of(e)),
        p + row_of(e).len() < ts.len(),
        is_end(ts[p + row_of(e).len()].kind),
    ensures
        reads(expr(ts, p), e, p + row_of(e).len()),
    decreases e.kind, 3int,
{
    let row = row_of(e);
    let q = p + row.len();
    lemma_first_token(e);
    assert(ts[p + 0].kind == row[0]);
    if let ExprKindV::StructLit { name, fields } = e.kind {
        let head = seq![TokV::Ident(name), sym(Tok::LBrace)];
        let body = fields_row(fields, 0) + seq![sym(Tok::RBrace)];
        assert(row =~= head + body);
        lemma_stands(ts, p, head, body);
        assert(ts[p + 1].kind == head[1]);
        let r = lemma_fields(ts, p + 2, fields, 0, Seq::empty());
        lemma_bare_fields(r, fields, fields.len());
        let d = primary(ts, p)->Done_0;
        lemma_alone(ts, p, d, q);
        lemma_whole(ts, p, d, q);
    }
}

#[verifier::rlimit(40)]
#[verifier::spinoff_prover]
proof fn lemma_map(ts: Seq<TokenV>, p: int, e: ExprV)
    requires
        e.kind is MapLit,
        stands(ts, p, row_of(e)),
        p + row_of(e).len() < ts.len(),
        is_end(ts[p + row_of(e).len()].kind),
    ensures
        reads(expr(ts, p), e, p + row_of(e).len()),
    decreases e.kind, 3int,
{
    let row = row_of(e);
    let q = p + row.len();
    lemma_first_token(e);
    assert(ts[p + 0].kind == row[0]);
    if let ExprKindV::MapLit(items) = e.kind {
        let head = seq![sym(Tok::LBrace)];
        let body = items_row(items, 0) + seq![sym(Tok::RBrace)];
        assert(row =~= head + body);
        lemma_stands(ts, p, head, body);
        let r = lemma_items(ts, p + 1, items, 0, Seq::empty());
        lemma_bare_items(r, items, items.len());
        let d = primary(ts, p)->Done_0;
        lemma_alone(ts, p, d, q);
        lemma_whole(ts, p, d, q);
    }
}

#[verifier::rlimit(40)]
#[verifier::spinoff_prover]
proof fn lemma_field(ts: Seq<TokenV>, p: int, e: ExprV)
    requires
        e.kind is Field,
        stands(ts, p, row_of(e)),
        p + row_of(e).len() < ts.len(),
        is_end(ts[p + row_of(e).len()].kind),
    ensures
        reads(expr(ts, p), e, p + row_of(e).len()),
    decreases e.kind, 3int,
{
    let row = row_of(e);
    let q = p + row.len();
    lemma_first_token(e);
    assert(ts[p + 0].kind == row[0]);
    if let ExprKindV::Field { obj, field } = e.kind {
        let a = wrapped(row_of(*obj));
        let tail = seq![sym(Tok::Dot), TokV::Ident(field)];
        lemma_stands(ts, p, a, tail);
        let m = p + a.len();
        assert(ts[m + 0].kind == tail[0]);
        assert(ts[m + 1].kind == tail[1]);
        lemma_bracketed(ts, p, *obj);
        let x = primary(ts, p)->Done_0;
        let d = ExprV {
            kind: ExprKindV::Field { obj: Box::new(x), field },
            span: crate::grammar::span_to(ts, x.span.start, m + 2),
        };
        assert(postfix_rest(ts, m + 2, d) == Parsed::Done(d, q));
        assert(postfix_rest(ts, m, x) == Parsed::Done(d, q));
        lemma_whole(ts, p, d, q);
    }
}

#[verifier::rlimit(40)]
#[verifier::spinoff_prover]
proof fn lemma_index(ts: Seq<TokenV>, p: int, e: ExprV)
    requires
        e.kind is Index,
        stands(ts, p, row_of(e)),
        p + row_of(e).len() < ts.len(),
        is_end(ts[p + row_of(e).len()].kind),
    ensures
        reads(expr(ts, p), e, p + row_of(e).len()),
    decreases e.kind, 3int,
{
    let row = row_of(e);
    let q = p + row.len();
    lemma_first_token(e);
    assert(ts[p + 0].kind == row[0]);
    if let ExprKindV::Index { array, index } = e.kind {
        let a = wrapped(row_of(*array));
        let open = seq![sym(Tok::LBracket)];
        let k = row_of(*index);
        let close = seq![sym(Tok::RBracket)];
        assert(row =~= a + (open + (k + close)));
        lemma_stands(ts, p, a, open + (k + close));
        let m = p + a.len();
        lemma_stands(ts, m, open, k + close);
        lemma_stands_one(ts, m, sym(Tok::LBracket));
        lemma_stands(ts, m + 1, k, close);
        lemma_stands_one(ts, m + 1 + k.len(), sym(Tok::RBracket));
        lemma_ends(Tok::RBracket);
        lemma_bracketed(ts, p, *array);
        let x = primary(ts, p)->Done_0;
        lemma_first_token(*index);
        assert(ts[m + 1 + 0].kind == k[0]);
        expressions_are_read_as_they_are_written(ts, m + 1, *index);
        let d = bracket(ts, m + 1, x)->Done_0;
        assert(bracket(ts, m + 1, x) == Parsed::Done(d, q));
        assert(postfix_rest(ts, q, d) == Parsed::Done(d, q));
        assert(postfix_rest(ts, m, x) == Parsed::Done(d, q));
        lemma_whole(ts, p, d, q);
    }
}

/// The row of an expression that may be missing.
spec fn opt_row(o: Option<Box<ExprV>>) -> Seq<TokV> {
    match o {
        Some(x) => row_of(*x),
        None => Seq::empty(),
    }
}

spec fn bare_opt(o: Option<Box<ExprV>>) -> Option<Box<ExprV>> {
    match o {
        Some(x) => Some(Box::new(bare(*x))),
        None => None,
    }
}

/// An expression that may be missing, before a token that ends it.
proof fn lemma_opt(ts: Seq<TokenV>, p: int, o: Option<Box<ExprV>>, stop: Tok) -> (d: Option<
    Box<ExprV>,
>)
    requires
        stop is Colon || stop is RBracket,
        stands(ts, p, opt_row(o)),
        p + opt_row(o).len() < ts.len(),
        ts[p + opt_row(o).len()].kind == sym(stop),
    ensures
        opt_expr(ts, p, stop) == Parsed::Done(d, p + opt_row(o).len()),
        bare_opt(d) == bare_opt(o),
        d is Some <==> o is Some,
    decreases o, 0int,
{
    lemma_ends(stop);
    match o {
        Some(x) => {
            lemma_first_token(*x);
            assert(ts[p + 0].kind == row_of(*x)[0]);
            expressions_are_read_as_they_are_written(ts, p, *x);
            Some(Box::new(expr(ts, p)->Done_0))
        },
        None => None,
    }
}

proof fn lemma_slice_row(e: ExprV, seq: Box<ExprV>, lo: Option<Box<ExprV>>, hi: Option<Box<ExprV>>)
    requires
        e.kind == (ExprKindV::Slice { seq, lo, hi }),
    ensures
        row_of(e) == wrapped(row_of(*seq)) + (seq![sym(Tok::LBracket)] + (opt_row(lo) + (seq![
            sym(Tok::Colon),
        ] + (opt_row(hi) + seq![sym(Tok::RBracket)])))),
{
    assert(row_of(e) =~= wrapped(row_of(*seq)) + (seq![sym(Tok::LBracket)] + (opt_row(lo) + (seq![
        sym(Tok::Colon),
    ] + (opt_row(hi) + seq![sym(Tok::RBracket)])))));
}

#[verifier::rlimit(40)]
#[verifier::spinoff_prover]
proof fn lemma_slice(ts: Seq<TokenV>, p: int, e: ExprV)
    requires
        e.kind is Slice,
        stands(ts, p, row_of(e)),
        p + row_of(e).len() < ts.len(),
        is_end(ts[p + row_of(e).len()].kind),
    ensures
        reads(expr(ts, p), e, p + row_of(e).len()),
    decreases e.kind, 3int,
{
    let q = p + row_of(e).len();
    if let ExprKindV::Slice { seq, lo, hi } = e.kind {
        let a = wrapped(row_of(*seq));
        let open = seq![sym(Tok::LBracket)];
        let l = opt_row(lo);
        let colon = seq![sym(Tok::Colon)];
        let h = opt_row(hi);
        let close = seq![sym(Tok::RBracket)];
        lemma_slice_row(e, seq, lo, hi);
        lemma_stands(ts, p, a, open + (l + (colon + (h + close))));
        let m = p + a.len();
        lemma_stands(ts, m, open, l + (colon + (h + close)));
        lemma_stands_one(ts, m, sym(Tok::LBracket));
        lemma_stands(ts, m + 1, l, colon + (h + close));
        let c = m + 1 + l.len();
        lemma_stands(ts, c, colon, h + close);
        lemma_stands_one(ts, c, sym(Tok::Colon));
        lemma_stands(ts, c + 1, h, close);
        let r = c + 1 + h.len();
        lemma_stands_one(ts, r, sym(Tok::RBracket));
        lemma_bracketed(ts, p, *seq);
        let x = primary(ts, p)->Done_0;
        let low = lemma_opt(ts, m + 1, lo, Tok::Colon);
        let high = lemma_opt(ts, c + 1, hi, Tok::RBracket);
        let d = ExprV {
            kind: ExprKindV::Slice { seq: Box::new(x), lo: low, hi: high },
            span: crate::grammar::span_to(ts, x.span.start, r + 1),
        };
        assert(bracket(ts, m + 1, x) == Parsed::Done(d, q));
        assert(postfix_rest(ts, q, d) == Parsed::Done(d, q));
        assert(postfix_rest(ts, m, x) == Parsed::Done(d, q));
        lemma_whole(ts, p, d, q);
    }
}

/// What stands in round brackets is read as an operand.
proof fn lemma_bracketed(ts: Seq<TokenV>, p: int, e: ExprV)
    requires
        stands(ts, p, wrapped(row_of(e))),
    ensures
        reads(primary(ts, p), e, p + wrapped(row_of(e)).len()),
        prefix_op(ts[p].kind) is None,
    decreases e, 1int,
{
    let ks = row_of(e);
    let open = seq![sym(Tok::LParen)];
    let close = seq![sym(Tok::RParen)];
    assert(wrapped(ks) =~= open + (ks + close));
    lemma_stands(ts, p, open, ks + close);
    lemma_stands(ts, p + 1, ks, close);
    lemma_stands_one(ts, p + 1 + ks.len(), sym(Tok::RParen));
    lemma_ends(Tok::RParen);
    expressions_are_read_as_they_are_written(ts, p + 1, e);
    lemma_wrapped(ts, p, ks, e);
}

/// Expressions in brackets.
pub proof fn lemma_list(ts: Seq<TokenV>, p: int, es: Seq<ExprV>, close: Tok, trailing: bool) -> (r: Seq<
    ExprV,
>)
    requires
        close is RParen || close is RBracket,
        stands(ts, p, rows_of(es, 0) + seq![sym(close)]),
    ensures
        exprs(ts, p, close, trailing) == Parsed::Done(r, p + rows_of(es, 0).len() + 1),
        r.len() == es.len(),
        alike(r, es, es.len() as int),
    decreases es, es.len() + 1,
{
    if es.len() == 0 {
        assert(rows_of(es, 0) + seq![sym(close)] =~= seq![sym(close)]);
        lemma_stands_one(ts, p, sym(close));
        Seq::empty()
    } else {
        lemma_first_token(es[0]);
        let row = rows_of(es, 0) + seq![sym(close)];
        assert(rows_of(es, 0)[0] == row_of(es[0])[0]);
        assert(row[0] == rows_of(es, 0)[0]);
        assert(ts[p + 0].kind == row[0]);
        lemma_rows(ts, p, es, 0, close, trailing, Seq::empty())
    }
}

} // verus!
