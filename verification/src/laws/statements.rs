//! Statements are read as they are written.
use crate::token::Tok;
use vstd::prelude::*;
#[allow(unused_imports)]
use crate::ast::{ExprKindV, ExprV, MatchArmV, StmtKindV, StmtV};
#[allow(unused_imports)]
use crate::grammar::{
    arm_body, arms, at, bindings, block, else_part, expr, for_head, for_in_head, for_kind, named_ty,
    names_rest, opt_simple, paren_expr, pattern, placed, simple_kind, stmt, stmt_kind, stmts, ty,
    Parsed,
};
#[allow(unused_imports)]
use crate::laws::trees::{
    bare, comma, expressions_are_read_as_they_are_written, is_closing, lemma_ends,
    lemma_first_token, lemma_stands, lemma_stands_one, reads, row_of, stands, sym, wrapped,
};
#[allow(unused_imports)]
use crate::token::{TokV, TokenV};
#[allow(unused_imports)]
use crate::types::Ty;

verus! {

// Types.

/// A type that can be written: every name in it is the name of no other type.
pub open spec fn is_ty(t: Ty) -> bool
    decreases t,
{
    match t {
        Ty::Int | Ty::Bool | Ty::Float | Ty::Str => true,
        Ty::Struct(name) => name != "int"@ && name != "bool"@ && name != "float"@ && name
            != "string"@,
        Ty::Array(e) => is_ty(*e),
        Ty::MapOf(v) => is_ty(*v),
        _ => false,
    }
}

/// The tokens of a type.
pub open spec fn ty_row(t: Ty) -> Seq<TokV>
    decreases t,
{
    match t {
        Ty::Int => seq![TokV::Ident("int"@)],
        Ty::Bool => seq![TokV::Ident("bool"@)],
        Ty::Float => seq![TokV::Ident("float"@)],
        Ty::Str => seq![TokV::Ident("string"@)],
        Ty::Struct(name) => seq![TokV::Ident(name)],
        Ty::Array(e) => seq![sym(Tok::LBracket)] + ty_row(*e) + seq![sym(Tok::RBracket)],
        Ty::MapOf(v) => seq![sym(Tok::LBrace), TokV::Ident("string"@), sym(Tok::Colon)] + ty_row(*v)
            + seq![sym(Tok::RBrace)],
        _ => Seq::empty(),
    }
}

proof fn lemma_type_names()
    ensures
        named_ty("int"@) == Ty::Int,
        named_ty("bool"@) == Ty::Bool,
        named_ty("float"@) == Ty::Float,
        named_ty("string"@) == Ty::Str,
{
    reveal_strlit("int");
    reveal_strlit("bool");
    reveal_strlit("float");
    reveal_strlit("string");
    assert("int"@.len() == 3);
    assert("bool"@.len() == 4);
    assert("float"@.len() == 5);
    assert("string"@.len() == 6);
}

/// Types are read as they are written.
pub proof fn types_are_read_as_they_are_written(ts: Seq<TokenV>, p: int, t: Ty)
    requires
        is_ty(t),
        stands(ts, p, ty_row(t)),
        p + ty_row(t).len() < ts.len(),
    ensures
        ty(ts, p) matches Parsed::Done((d, _), q) && d == t && q == p + ty_row(t).len(),
        ty_row(t).len() > 0,
    decreases t,
{
    lemma_type_names();
    let row = ty_row(t);
    match t {
        Ty::Array(e) => {
            let open = seq![sym(Tok::LBracket)];
            let close = seq![sym(Tok::RBracket)];
            let k = ty_row(*e);
            assert(row =~= open + (k + close));
            lemma_stands(ts, p, open, k + close);
            lemma_stands_one(ts, p, sym(Tok::LBracket));
            lemma_stands(ts, p + 1, k, close);
            lemma_stands_one(ts, p + 1 + k.len(), sym(Tok::RBracket));
            types_are_read_as_they_are_written(ts, p + 1, *e);
        },
        Ty::MapOf(v) => {
            let open = seq![sym(Tok::LBrace), TokV::Ident("string"@), sym(Tok::Colon)];
            let close = seq![sym(Tok::RBrace)];
            let k = ty_row(*v);
            assert(row =~= open + (k + close));
            lemma_stands(ts, p, open, k + close);
            assert(ts[p + 0].kind == open[0]);
            assert(ts[p + 1].kind == open[1]);
            assert(ts[p + 2].kind == open[2]);
            lemma_stands(ts, p + 3, k, close);
            lemma_stands_one(ts, p + 3 + k.len(), sym(Tok::RBrace));
            types_are_read_as_they_are_written(ts, p + 3, *v);
            let key = ty(ts, p + 1);
            assert(key == Parsed::Done((Ty::Str, ts[p + 1].span), p + 2));
        },
        _ => {
            assert(ts[p + 0].kind == row[0]);
        },
    }
}

// Trees without their places.

/// A statement, but for where it and its parts stand.
pub open spec fn bare_stmt(s: StmtV) -> StmtV
    decreases s, 0int,
{
    let kind = match s.kind {
        StmtKindV::Let { name, ty, value } => StmtKindV::Let { name, ty, value: bare(value) },
        StmtKindV::Assign { target, value } => StmtKindV::Assign {
            target: bare(target),
            value: bare(value),
        },
        StmtKindV::Print(e) => StmtKindV::Print(bare(e)),
        StmtKindV::Return(e) => StmtKindV::Return(bare(e)),
        StmtKindV::If { cond, then_body, else_body } => StmtKindV::If {
            cond: bare(cond),
            then_body: bare_stmts(then_body, then_body.len()),
            else_body: bare_stmts(else_body, else_body.len()),
        },
        StmtKindV::While { cond, body } => StmtKindV::While {
            cond: bare(cond),
            body: bare_stmts(body, body.len()),
        },
        StmtKindV::For { init, cond, step, body } => StmtKindV::For {
            init: match init {
                Some(x) => Some(Box::new(bare_stmt(*x))),
                None => None,
            },
            cond: bare(cond),
            step: match step {
                Some(x) => Some(Box::new(bare_stmt(*x))),
                None => None,
            },
            body: bare_stmts(body, body.len()),
        },
        StmtKindV::ForIn { var, iter, body } => StmtKindV::ForIn {
            var,
            iter: bare(iter),
            body: bare_stmts(body, body.len()),
        },
        StmtKindV::Match { scrut, arms } => StmtKindV::Match {
            scrut: bare(scrut),
            arms: bare_arms(arms, arms.len()),
        },
        StmtKindV::Break => StmtKindV::Break,
        StmtKindV::Continue => StmtKindV::Continue,
        StmtKindV::ExprStmt(e) => StmtKindV::ExprStmt(bare(e)),
    };
    StmtV { kind, span: arbitrary() }
}

/// The first `n` of some statements.
pub open spec fn bare_stmts(ss: Seq<StmtV>, n: nat) -> Seq<StmtV>
    decreases ss, n,
{
    if n == 0 || n > ss.len() {
        Seq::empty()
    } else {
        bare_stmts(ss, (n - 1) as nat).push(bare_stmt(ss[n - 1]))
    }
}

pub open spec fn bare_arms(xs: Seq<MatchArmV>, n: nat) -> Seq<MatchArmV>
    decreases xs, n,
{
    if n == 0 || n > xs.len() {
        Seq::empty()
    } else {
        let x = xs[n - 1];
        bare_arms(xs, (n - 1) as nat).push(
            MatchArmV {
                wildcard: x.wildcard,
                variant: x.variant,
                bindings: x.bindings,
                body: bare_stmts(x.body, x.body.len()),
                span: arbitrary(),
            },
        )
    }
}

// How statements are written.

/// A statement that can stand in the head of a loop.
pub open spec fn is_simple(k: StmtKindV) -> bool {
    k is Let || k is Assign || k is ExprStmt
}

/// A statement that can be written: its types can be, what stands in the heads of loops is
/// simple, and a pattern that holds of everything names nothing.
pub open spec fn is_stmt(s: StmtV) -> bool
    decreases s, 0int,
{
    match s.kind {
        StmtKindV::Let { name, ty, value } => ty matches Some(t) ==> is_ty(t),
        StmtKindV::If { cond, then_body, else_body } => are_stmts(then_body, then_body.len())
            && are_stmts(else_body, else_body.len()),
        StmtKindV::While { cond, body } => are_stmts(body, body.len()),
        StmtKindV::For { init, cond, step, body } => {
            &&& match init {
                Some(x) => is_stmt(*x) && is_simple((*x).kind),
                None => true,
            }
            &&& match step {
                Some(x) => is_stmt(*x) && is_simple((*x).kind),
                None => true,
            }
            &&& are_stmts(body, body.len())
        },
        StmtKindV::ForIn { var, iter, body } => are_stmts(body, body.len()),
        StmtKindV::Match { scrut, arms } => are_arms(arms, arms.len()),
        _ => true,
    }
}

pub open spec fn are_stmts(ss: Seq<StmtV>, n: nat) -> bool
    decreases ss, n,
{
    n == 0 || n > ss.len() || (is_stmt(ss[n - 1]) && are_stmts(ss, (n - 1) as nat))
}

pub open spec fn are_arms(xs: Seq<MatchArmV>, n: nat) -> bool
    decreases xs, n,
{
    n == 0 || n > xs.len() || ({
        let x = xs[n - 1];
        &&& if x.wildcard {
            x.variant == Seq::<char>::empty() && x.bindings == Seq::<Seq<char>>::empty()
        } else {
            x.variant != "_"@
        }
        &&& are_stmts(x.body, x.body.len())
        &&& are_arms(xs, (n - 1) as nat)
    })
}

/// The tokens of a simple statement, without the semicolon.
pub open spec fn simple_row(k: StmtKindV) -> Seq<TokV> {
    match k {
        StmtKindV::Let { name, ty, value } => seq![sym(Tok::Let), TokV::Ident(name)] + (match ty {
            Some(t) => seq![sym(Tok::Colon)] + ty_row(t),
            None => Seq::empty(),
        }) + seq![sym(Tok::Assign)] + row_of(value),
        StmtKindV::Assign { target, value } => row_of(target) + seq![sym(Tok::Assign)] + row_of(
            value,
        ),
        StmtKindV::ExprStmt(e) => row_of(e),
        _ => Seq::empty(),
    }
}

pub open spec fn opt_simple_row(o: Option<Box<StmtV>>) -> Seq<TokV> {
    match o {
        Some(x) => simple_row((*x).kind),
        None => Seq::empty(),
    }
}

/// The tokens of a statement.
pub open spec fn stmt_row(s: StmtV) -> Seq<TokV>
    decreases s, 1int,
{
    let semi = seq![sym(Tok::Semicolon)];
    match s.kind {
        StmtKindV::Print(e) => seq![sym(Tok::Print)] + row_of(e) + semi,
        StmtKindV::Return(e) => seq![sym(Tok::Return)] + row_of(e) + semi,
        StmtKindV::If { cond, then_body, else_body } => seq![sym(Tok::If)] + wrapped(row_of(cond))
            + braced(stmts_row(then_body, 0)) + (if else_body.len() == 0 {
            Seq::empty()
        } else {
            seq![sym(Tok::Else)] + braced(stmts_row(else_body, 0))
        }),
        StmtKindV::While { cond, body } => seq![sym(Tok::While)] + wrapped(row_of(cond)) + braced(
            stmts_row(body, 0),
        ),
        StmtKindV::For { init, cond, step, body } => seq![sym(Tok::For), sym(Tok::LParen)]
            + opt_simple_row(init) + semi + row_of(cond) + semi + opt_simple_row(step) + seq![
            sym(Tok::RParen),
        ] + braced(stmts_row(body, 0)),
        StmtKindV::ForIn { var, iter, body } => seq![
            sym(Tok::For),
            sym(Tok::LParen),
            TokV::Ident(var),
            sym(Tok::In),
        ] + row_of(iter) + seq![sym(Tok::RParen)] + braced(stmts_row(body, 0)),
        StmtKindV::Match { scrut, arms } => seq![sym(Tok::Match)] + wrapped(row_of(scrut)) + braced(
            arms_row(arms, 0),
        ),
        StmtKindV::Break => seq![sym(Tok::Break)] + semi,
        StmtKindV::Continue => seq![sym(Tok::Continue)] + semi,
        k => simple_row(k) + semi,
    }
}

/// In braces.
pub open spec fn braced(ks: Seq<TokV>) -> Seq<TokV> {
    seq![sym(Tok::LBrace)] + ks + seq![sym(Tok::RBrace)]
}

/// The statements from `i` on.
pub open spec fn stmts_row(ss: Seq<StmtV>, i: int) -> Seq<TokV>
    decreases ss, ss.len() - i,
{
    if !(0 <= i < ss.len()) {
        Seq::empty()
    } else {
        stmt_row(ss[i]) + stmts_row(ss, i + 1)
    }
}

/// The names from `i` on, with commas between them.
pub open spec fn names_row(ns: Seq<Seq<char>>, i: int) -> Seq<TokV>
    decreases ns.len() - i,
{
    if !(0 <= i < ns.len()) {
        Seq::empty()
    } else {
        seq![TokV::Ident(ns[i])] + comma(i, ns.len()) + names_row(ns, i + 1)
    }
}

/// The pattern of an arm.
pub open spec fn pattern_row(x: MatchArmV) -> Seq<TokV> {
    if x.wildcard {
        seq![TokV::Ident("_"@)]
    } else if x.bindings.len() == 0 {
        seq![TokV::Ident(x.variant)]
    } else {
        seq![TokV::Ident(x.variant)] + wrapped(names_row(x.bindings, 0))
    }
}

/// The arms from `i` on.
pub open spec fn arms_row(xs: Seq<MatchArmV>, i: int) -> Seq<TokV>
    decreases xs, xs.len() - i,
{
    if !(0 <= i < xs.len()) {
        Seq::empty()
    } else {
        pattern_row(xs[i]) + seq![sym(Tok::FatArrow)] + braced(stmts_row(xs[i].body, 0)) + arms_row(
            xs,
            i + 1,
        )
    }
}

// Reading.

/// A statement kind of that shape stands there, and `q` is behind it.
pub open spec fn reads_kind(r: Parsed<StmtKindV>, k: StmtKindV, q: int) -> bool {
    r matches Parsed::Done(d, end) && end == q && bare_kind(d) == bare_kind(k)
}

pub open spec fn bare_kind(k: StmtKindV) -> StmtKindV {
    bare_stmt(StmtV { kind: k, span: arbitrary() }).kind
}

proof fn lemma_simple_first(k: StmtKindV)
    requires
        is_simple(k),
    ensures
        simple_row(k).len() > 0,
        !is_closing(simple_row(k)[0]),
        simple_row(k)[0] matches TokV::Sym(t) ==> t is LParen || t is LBracket || t is LBrace || t
            is Minus || t is Bang || t is Tilde || t is True || t is False || t is Null || t is Let,
        k is Let <==> simple_row(k)[0] == sym(Tok::Let),
{
    match k {
        StmtKindV::Let { name, ty, value } => {
            assert(simple_row(k)[0] == sym(Tok::Let));
        },
        StmtKindV::Assign { target, value } => {
            lemma_first_token(target);
            assert(simple_row(k)[0] == row_of(target)[0]);
        },
        StmtKindV::ExprStmt(e) => {
            lemma_first_token(e);
        },
        _ => {},
    }
}

/// A simple statement before a semicolon or a closing bracket.
#[verifier::rlimit(60)]
#[verifier::spinoff_prover]
proof fn lemma_simple(ts: Seq<TokenV>, p: int, k: StmtKindV)
    requires
        is_simple(k),
        k matches StmtKindV::Let { name, ty, value } ==> (ty matches Some(t) ==> is_ty(t)),
        stands(ts, p, simple_row(k)),
        p + simple_row(k).len() < ts.len(),
        ts[p + simple_row(k).len()].kind == sym(Tok::Semicolon) || ts[p + simple_row(k).len()].kind
            == sym(Tok::RParen),
    ensures
        reads_kind(simple_kind(ts, p), k, p + simple_row(k).len()),
{
    let row = simple_row(k);
    let q = p + row.len();
    lemma_simple_first(k);
    assert(ts[p + 0].kind == row[0]);
    lemma_ends(Tok::Semicolon);
    lemma_ends(Tok::RParen);
    lemma_ends(Tok::Assign);
    match k {
        StmtKindV::Let { name, ty: t, value } => {
            let head = seq![sym(Tok::Let), TokV::Ident(name)];
            let mid = match t {
                Some(x) => seq![sym(Tok::Colon)] + ty_row(x),
                None => Seq::empty(),
            };
            let eq = seq![sym(Tok::Assign)];
            let v = row_of(value);
            assert(row =~= head + (mid + (eq + v)));
            lemma_stands(ts, p, head, mid + (eq + v));
            assert(ts[p + 1].kind == head[1]);
            lemma_stands(ts, p + 2, mid, eq + v);
            let m = p + 2 + mid.len();
            lemma_stands(ts, m, eq, v);
            lemma_stands_one(ts, m, sym(Tok::Assign));
            if let Some(x) = t {
                lemma_stands(ts, p + 2, seq![sym(Tok::Colon)], ty_row(x));
                lemma_stands_one(ts, p + 2, sym(Tok::Colon));
                types_are_read_as_they_are_written(ts, p + 3, x);
            }
            expressions_are_read_as_they_are_written(ts, m + 1, value);
        },
        StmtKindV::Assign { target, value } => {
            let a = row_of(target);
            let eq = seq![sym(Tok::Assign)];
            let v = row_of(value);
            assert(row =~= a + (eq + v));
            lemma_stands(ts, p, a, eq + v);
            let m = p + a.len();
            lemma_stands(ts, m, eq, v);
            lemma_stands_one(ts, m, sym(Tok::Assign));
            expressions_are_read_as_they_are_written(ts, p, target);
            expressions_are_read_as_they_are_written(ts, m + 1, value);
        },
        StmtKindV::ExprStmt(e) => {
            expressions_are_read_as_they_are_written(ts, p, e);
        },
        _ => {},
    }
}


/// The first `n` of two rows of statements have one shape.
pub open spec fn stmts_alike(a: Seq<StmtV>, b: Seq<StmtV>, n: int) -> bool {
    &&& n <= a.len()
    &&& n <= b.len()
    &&& forall|i: int| 0 <= i < n ==> bare_stmt(#[trigger] a[i]) == bare_stmt(b[i])
}

proof fn lemma_bare_stmts(a: Seq<StmtV>, b: Seq<StmtV>, n: nat)
    requires
        stmts_alike(a, b, n as int),
    ensures
        bare_stmts(a, n) == bare_stmts(b, n),
    decreases n,
{
    if n > 0 {
        lemma_bare_stmts(a, b, (n - 1) as nat);
        assert(bare_stmt(a[n - 1]) == bare_stmt(b[n - 1]));
    }
}

pub open spec fn arms_alike(a: Seq<MatchArmV>, b: Seq<MatchArmV>, n: int) -> bool {
    &&& n <= a.len()
    &&& n <= b.len()
    &&& forall|i: int|
        0 <= i < n ==> {
            &&& (#[trigger] a[i]).wildcard == b[i].wildcard
            &&& a[i].variant == b[i].variant
            &&& a[i].bindings == b[i].bindings
            &&& a[i].body.len() == b[i].body.len()
            &&& stmts_alike(a[i].body, b[i].body, a[i].body.len() as int)
        }
}

proof fn lemma_bare_arms(a: Seq<MatchArmV>, b: Seq<MatchArmV>, n: nat)
    requires
        arms_alike(a, b, n as int),
    ensures
        bare_arms(a, n) == bare_arms(b, n),
    decreases n,
{
    if n > 0 {
        lemma_bare_arms(a, b, (n - 1) as nat);
        assert(a[n - 1].wildcard == b[n - 1].wildcard);
        lemma_bare_stmts(a[n - 1].body, b[n - 1].body, a[n - 1].body.len());
    }
}

proof fn lemma_each_stmt(ss: Seq<StmtV>, n: nat, i: int)
    requires
        are_stmts(ss, n),
        0 <= i < n <= ss.len(),
    ensures
        is_stmt(ss[i]),
    decreases n,
{
    if i < n - 1 {
        lemma_each_stmt(ss, (n - 1) as nat, i);
    }
}

proof fn lemma_each_arm(xs: Seq<MatchArmV>, n: nat, i: int)
    requires
        are_arms(xs, n),
        0 <= i < n <= xs.len(),
    ensures
        if xs[i].wildcard {
            xs[i].variant == Seq::<char>::empty() && xs[i].bindings == Seq::<Seq<char>>::empty()
        } else {
            xs[i].variant != "_"@
        },
        are_stmts(xs[i].body, xs[i].body.len()),
    decreases n,
{
    if i < n - 1 {
        lemma_each_arm(xs, (n - 1) as nat, i);
    }
}

proof fn lemma_stmt_first(s: StmtV)
    ensures
        stmt_row(s).len() > 0,
        !is_closing(stmt_row(s)[0]),
        stmt_row(s)[0] != sym(Tok::Else),
        is_simple(s.kind) ==> stmt_row(s)[0] == simple_row(s.kind)[0],
{
    if is_simple(s.kind) {
        lemma_simple_first(s.kind);
        assert(stmt_row(s)[0] == simple_row(s.kind)[0]);
    } else {
        match s.kind {
            StmtKindV::Print(e) => {
                assert(stmt_row(s)[0] == sym(Tok::Print));
            },
            StmtKindV::Return(e) => {
                assert(stmt_row(s)[0] == sym(Tok::Return));
            },
            StmtKindV::If { cond, then_body, else_body } => {
                assert(stmt_row(s)[0] == sym(Tok::If));
            },
            StmtKindV::While { cond, body } => {
                assert(stmt_row(s)[0] == sym(Tok::While));
            },
            StmtKindV::For { init, cond, step, body } => {
                assert(stmt_row(s)[0] == sym(Tok::For));
            },
            StmtKindV::ForIn { var, iter, body } => {
                assert(stmt_row(s)[0] == sym(Tok::For));
            },
            StmtKindV::Match { scrut, arms } => {
                assert(stmt_row(s)[0] == sym(Tok::Match));
            },
            _ => {},
        }
    }
}

/// An expression in round brackets.
proof fn lemma_paren(ts: Seq<TokenV>, p: int, e: ExprV)
    requires
        stands(ts, p, wrapped(row_of(e))),
    ensures
        reads(paren_expr(ts, p), e, p + wrapped(row_of(e)).len()),
{
    let ks = row_of(e);
    let open = seq![sym(Tok::LParen)];
    let close = seq![sym(Tok::RParen)];
    assert(wrapped(ks) =~= open + (ks + close));
    lemma_stands(ts, p, open, ks + close);
    lemma_stands_one(ts, p, sym(Tok::LParen));
    lemma_stands(ts, p + 1, ks, close);
    lemma_stands_one(ts, p + 1 + ks.len(), sym(Tok::RParen));
    lemma_ends(Tok::RParen);
    expressions_are_read_as_they_are_written(ts, p + 1, e);
}

/// The statements from `i` on, up to and with the closing brace.
proof fn lemma_stmts(ts: Seq<TokenV>, p: int, ss: Seq<StmtV>, i: int, acc: Seq<StmtV>) -> (r: Seq<
    StmtV,
>)
    requires
        0 <= i <= ss.len(),
        are_stmts(ss, ss.len()),
        stands(ts, p, stmts_row(ss, i) + seq![sym(Tok::RBrace)]),
        acc.len() == i,
        stmts_alike(acc, ss, i),
    ensures
        stmts(ts, p, acc) == Parsed::Done(r, p + stmts_row(ss, i).len() + 1),
        r.len() == ss.len(),
        stmts_alike(r, ss, ss.len() as int),
    decreases ss, ss.len() - i,
{
    let end = seq![sym(Tok::RBrace)];
    if i == ss.len() {
        assert(stmts_row(ss, i) + end =~= end);
        lemma_stands_one(ts, p, sym(Tok::RBrace));
        acc
    } else {
        let row = stmt_row(ss[i]);
        let rest = stmts_row(ss, i + 1) + end;
        assert(stmts_row(ss, i) + end =~= row + rest);
        lemma_stands(ts, p, row, rest);
        let q = p + row.len();
        lemma_each_stmt(ss, ss.len(), i);
        lemma_stmt_first(ss[i]);
        assert(ts[p + 0].kind == row[0]);
        assert(ts[q + 0].kind == rest[0]);
        if i + 1 < ss.len() {
            lemma_stmt_first(ss[i + 1]);
            assert(rest[0] == stmt_row(ss[i + 1])[0]);
        } else {
            assert(rest =~= end);
        }
        statements_are_read_as_they_are_written(ts, p, ss[i]);
        let d = stmt(ts, p)->Done_0;
        assert(stmts_alike(acc.push(d), ss, i + 1));
        lemma_stmts(ts, q, ss, i + 1, acc.push(d))
    }
}

/// Statements in braces.
pub proof fn lemma_block(ts: Seq<TokenV>, p: int, ss: Seq<StmtV>) -> (r: Seq<StmtV>)
    requires
        are_stmts(ss, ss.len()),
        stands(ts, p, braced(stmts_row(ss, 0))),
    ensures
        block(ts, p) == Parsed::Done(r, p + braced(stmts_row(ss, 0)).len()),
        bare_stmts(r, r.len()) == bare_stmts(ss, ss.len()),
        r.len() == ss.len(),
        stmts_alike(r, ss, ss.len() as int),
    decreases ss, ss.len() + 1,
{
    let ks = stmts_row(ss, 0);
    let open = seq![sym(Tok::LBrace)];
    let close = seq![sym(Tok::RBrace)];
    assert(braced(ks) =~= open + (ks + close));
    lemma_stands(ts, p, open, ks + close);
    lemma_stands_one(ts, p, sym(Tok::LBrace));
    let r = lemma_stmts(ts, p + 1, ss, 0, Seq::empty());
    lemma_bare_stmts(r, ss, ss.len());
    r
}

proof fn lemma_names(ts: Seq<TokenV>, p: int, ns: Seq<Seq<char>>, i: int, acc: Seq<Seq<char>>)
    requires
        0 <= i < ns.len(),
        stands(ts, p, names_row(ns, i) + seq![sym(Tok::RParen)]),
        acc == ns.take(i),
    ensures
        names_rest(ts, p, acc) == Parsed::Done(ns, p + names_row(ns, i).len() + 1),
    decreases ns.len() - i,
{
    let end = seq![sym(Tok::RParen)];
    let rest = names_row(ns, i + 1);
    let head = seq![TokV::Ident(ns[i])];
    let mark = comma(i, ns.len());
    assert(names_row(ns, i) + end =~= head + (mark + rest + end));
    lemma_stands(ts, p, head, mark + rest + end);
    lemma_stands_one(ts, p, TokV::Ident(ns[i]));
    assert(acc.push(ns[i]) =~= ns.take(i + 1));
    if i + 1 < ns.len() {
        assert(mark + rest + end =~= seq![sym(Tok::Comma)] + (rest + end));
        lemma_stands(ts, p + 1, seq![sym(Tok::Comma)], rest + end);
        lemma_stands_one(ts, p + 1, sym(Tok::Comma));
        lemma_names(ts, p + 2, ns, i + 1, acc.push(ns[i]));
    } else {
        assert(rest =~= Seq::empty());
        assert(mark + rest + end =~= end);
        lemma_stands_one(ts, p + 1, sym(Tok::RParen));
        assert(ns.take(i + 1) =~= ns);
    }
}

proof fn lemma_names_first(ns: Seq<Seq<char>>)
    requires
        ns.len() > 0,
    ensures
        names_row(ns, 0).len() > 0,
        names_row(ns, 0)[0] == TokV::Ident(ns[0]),
{
}

/// The pattern of an arm, with the arrow behind it.
proof fn lemma_pattern(ts: Seq<TokenV>, p: int, x: MatchArmV)
    requires
        if x.wildcard {
            x.variant == Seq::<char>::empty() && x.bindings == Seq::<Seq<char>>::empty()
        } else {
            x.variant != "_"@
        },
        stands(ts, p, pattern_row(x) + seq![sym(Tok::FatArrow)]),
    ensures
        ({
            &&& pattern(ts, p) matches Parsed::Done(a, q)
            &&& q == p + pattern_row(x).len() + 1
            &&& a.wildcard == x.wildcard
            &&& a.variant == x.variant
            &&& a.bindings == x.bindings
        }),
        pattern_row(x).len() > 0,
        pattern_row(x)[0] is Ident,
{
    let arrow = seq![sym(Tok::FatArrow)];
    let row = pattern_row(x);
    lemma_stands(ts, p, row, arrow);
    let m = p + row.len();
    lemma_stands_one(ts, m, sym(Tok::FatArrow));
    assert(ts[p + 0].kind == row[0]);
    if !x.wildcard {
        if x.bindings.len() == 0 {
            assert(x.bindings =~= Seq::<Seq<char>>::empty());
        } else {
            let ks = names_row(x.bindings, 0);
            let open = seq![sym(Tok::LParen)];
            let close = seq![sym(Tok::RParen)];
            assert(row =~= seq![TokV::Ident(x.variant)] + (open + (ks + close)));
            lemma_stands(ts, p, seq![TokV::Ident(x.variant)], open + (ks + close));
            lemma_stands(ts, p + 1, open, ks + close);
            lemma_stands_one(ts, p + 1, sym(Tok::LParen));
            lemma_names_first(x.bindings);
            assert((ks + close)[0] == ks[0]);
            assert(ts[p + 2 + 0].kind == (ks + close)[0]);
            assert(x.bindings.take(0) =~= Seq::<Seq<char>>::empty());
            lemma_names(ts, p + 2, x.bindings, 0, Seq::empty());
        }
    }
}

/// The arms from `i` on, up to and with the closing brace.
#[verifier::rlimit(60)]
#[verifier::spinoff_prover]
proof fn lemma_arms(ts: Seq<TokenV>, p: int, xs: Seq<MatchArmV>, i: int, acc: Seq<MatchArmV>) -> (r:
    Seq<MatchArmV>)
    requires
        0 <= i <= xs.len(),
        are_arms(xs, xs.len()),
        stands(ts, p, arms_row(xs, i) + seq![sym(Tok::RBrace)]),
        acc.len() == i,
        arms_alike(acc, xs, i),
    ensures
        arms(ts, p, acc) == Parsed::Done(r, p + arms_row(xs, i).len() + 1),
        r.len() == xs.len(),
        arms_alike(r, xs, xs.len() as int),
    decreases xs, xs.len() - i,
{
    let end = seq![sym(Tok::RBrace)];
    if i == xs.len() {
        assert(arms_row(xs, i) + end =~= end);
        lemma_stands_one(ts, p, sym(Tok::RBrace));
        acc
    } else {
        let x = xs[i];
        let head = pattern_row(x) + seq![sym(Tok::FatArrow)];
        let body = braced(stmts_row(x.body, 0));
        let rest = arms_row(xs, i + 1) + end;
        assert(arms_row(xs, i) + end =~= head + (body + rest));
        lemma_stands(ts, p, head, body + rest);
        lemma_each_arm(xs, xs.len(), i);
        lemma_pattern(ts, p, x);
        assert(head[0] == pattern_row(x)[0]);
        assert(ts[p + 0].kind == head[0]);
        let m = p + head.len();
        lemma_stands(ts, m, body, rest);
        let b = lemma_block(ts, m, x.body);
        assert(body[0] == sym(Tok::LBrace));
        assert(ts[m + 0].kind == body[0]);
        let q = m + body.len();
        assert(arm_body(ts, m) == Parsed::Done(b, q));
        let a = pattern(ts, p)->Done_0;
        let arm = MatchArmV {
            body: b,
            span: crate::grammar::span_to(ts, ts[p].span.start, q),
            ..a
        };
        assert(arms_alike(acc.push(arm), xs, i + 1));
        lemma_arms(ts, q, xs, i + 1, acc.push(arm))
    }
}

/// Statements are read as they are written: from the tokens of a tree the grammar makes that
/// tree again, but for where its parts stand. What comes behind can be anything but an `else`.
pub proof fn statements_are_read_as_they_are_written(ts: Seq<TokenV>, p: int, s: StmtV)
    requires
        stands(ts, p, stmt_row(s)),
        p + stmt_row(s).len() < ts.len(),
        ts[p + stmt_row(s).len()].kind != sym(Tok::Else),
        is_stmt(s),
    ensures
        stmt(ts, p) matches Parsed::Done(d, q) && q == p + stmt_row(s).len() && bare_stmt(d)
            == bare_stmt(s),
    decreases s, 0int,
{
    lemma_kind(ts, p, s);
    let d = stmt_kind(ts, p)->Done_0;
    let made = StmtV {
        kind: d,
        span: crate::grammar::span_to(ts, ts[p].span.start, p + stmt_row(s).len()),
    };
    lemma_kind_only(made, s);
}

proof fn lemma_kind_only(a: StmtV, b: StmtV)
    requires
        bare_kind(a.kind) == bare_kind(b.kind),
    ensures
        bare_stmt(a) == bare_stmt(b),
{
    let x = StmtV { kind: a.kind, span: arbitrary() };
    let y = StmtV { kind: b.kind, span: arbitrary() };
    assert(bare_stmt(a) == bare_stmt(x));
    assert(bare_stmt(b) == bare_stmt(y));
}

#[verifier::rlimit(60)]
#[verifier::spinoff_prover]
proof fn lemma_kind(ts: Seq<TokenV>, p: int, s: StmtV)
    requires
        stands(ts, p, stmt_row(s)),
        p + stmt_row(s).len() < ts.len(),
        ts[p + stmt_row(s).len()].kind != sym(Tok::Else),
        is_stmt(s),
    ensures
        reads_kind(stmt_kind(ts, p), s.kind, p + stmt_row(s).len()),
    decreases s.kind, 4int,
{
    match s.kind {
        StmtKindV::Print(e) => lemma_keyword_expr(ts, p, s),
        StmtKindV::Return(e) => lemma_keyword_expr(ts, p, s),
        StmtKindV::If { cond, then_body, else_body } => lemma_if(ts, p, s),
        StmtKindV::While { cond, body } => lemma_while(ts, p, s),
        StmtKindV::For { init, cond, step, body } => lemma_for(ts, p, s),
        StmtKindV::ForIn { var, iter, body } => lemma_for_in(ts, p, s),
        StmtKindV::Match { scrut, arms } => lemma_match(ts, p, s),
        StmtKindV::Break => {
            let row = stmt_row(s);
            assert(row =~= seq![sym(Tok::Break), sym(Tok::Semicolon)]);
            assert(ts[p + 0].kind == row[0]);
            assert(ts[p + 1].kind == row[1]);
        },
        StmtKindV::Continue => {
            let row = stmt_row(s);
            assert(row =~= seq![sym(Tok::Continue), sym(Tok::Semicolon)]);
            assert(ts[p + 0].kind == row[0]);
            assert(ts[p + 1].kind == row[1]);
        },
        _ => {
            let semi = seq![sym(Tok::Semicolon)];
            let k = simple_row(s.kind);
            assert(stmt_row(s) == k + semi);
            lemma_stands(ts, p, k, semi);
            lemma_stands_one(ts, p + k.len(), sym(Tok::Semicolon));
            lemma_simple(ts, p, s.kind);
            lemma_simple_first(s.kind);
            assert(ts[p + 0].kind == k[0]);
        },
    }
}

proof fn lemma_keyword_expr(ts: Seq<TokenV>, p: int, s: StmtV)
    requires
        stands(ts, p, stmt_row(s)),
        p + stmt_row(s).len() < ts.len(),
        ts[p + stmt_row(s).len()].kind != sym(Tok::Else),
        is_stmt(s),
        s.kind is Print || s.kind is Return,
    ensures
        reads_kind(stmt_kind(ts, p), s.kind, p + stmt_row(s).len()),
{
    let (word, e) = match s.kind {
        StmtKindV::Print(e) => (Tok::Print, e),
        StmtKindV::Return(e) => (Tok::Return, e),
        _ => arbitrary(),
    };
    let head = seq![sym(word)];
    let k = row_of(e);
    let semi = seq![sym(Tok::Semicolon)];
    assert(stmt_row(s) =~= head + (k + semi));
    lemma_stands(ts, p, head, k + semi);
    lemma_stands_one(ts, p, sym(word));
    lemma_stands(ts, p + 1, k, semi);
    lemma_stands_one(ts, p + 1 + k.len(), sym(Tok::Semicolon));
    lemma_ends(Tok::Semicolon);
    expressions_are_read_as_they_are_written(ts, p + 1, e);
}

#[verifier::rlimit(60)]
#[verifier::spinoff_prover]
proof fn lemma_if(ts: Seq<TokenV>, p: int, s: StmtV)
    requires
        stands(ts, p, stmt_row(s)),
        p + stmt_row(s).len() < ts.len(),
        ts[p + stmt_row(s).len()].kind != sym(Tok::Else),
        is_stmt(s),
        s.kind is If,
    ensures
        reads_kind(stmt_kind(ts, p), s.kind, p + stmt_row(s).len()),
    decreases s.kind, 3int,
{
    if let StmtKindV::If { cond, then_body, else_body } = s.kind {
        let head = seq![sym(Tok::If)];
        let c = wrapped(row_of(cond));
        let t = braced(stmts_row(then_body, 0));
        let e = if else_body.len() == 0 {
            Seq::empty()
        } else {
            seq![sym(Tok::Else)] + braced(stmts_row(else_body, 0))
        };
        assert(stmt_row(s) =~= head + (c + (t + e)));
        lemma_stands(ts, p, head, c + (t + e));
        lemma_stands_one(ts, p, sym(Tok::If));
        lemma_stands(ts, p + 1, c, t + e);
        lemma_paren(ts, p + 1, cond);
        let m = p + 1 + c.len();
        lemma_stands(ts, m, t, e);
        let a = lemma_block(ts, m, then_body);
        let n = m + t.len();
        if else_body.len() == 0 {
            assert(else_part(ts, n) == Parsed::Done(Seq::<StmtV>::empty(), n));
            assert(bare_stmts(else_body, else_body.len()) =~= bare_stmts(Seq::<StmtV>::empty(), 0));
        } else {
            let b = braced(stmts_row(else_body, 0));
            lemma_stands(ts, n, seq![sym(Tok::Else)], b);
            lemma_stands_one(ts, n, sym(Tok::Else));
            let d = lemma_block(ts, n + 1, else_body);
            assert(b[0] == sym(Tok::LBrace));
            assert(ts[n + 1 + 0].kind == b[0]);
            assert(else_part(ts, n) == Parsed::Done(d, n + 1 + b.len()));
        }
    }
}

#[verifier::rlimit(60)]
#[verifier::spinoff_prover]
proof fn lemma_while(ts: Seq<TokenV>, p: int, s: StmtV)
    requires
        stands(ts, p, stmt_row(s)),
        p + stmt_row(s).len() < ts.len(),
        ts[p + stmt_row(s).len()].kind != sym(Tok::Else),
        is_stmt(s),
        s.kind is While,
    ensures
        reads_kind(stmt_kind(ts, p), s.kind, p + stmt_row(s).len()),
    decreases s.kind, 3int,
{
    if let StmtKindV::While { cond, body } = s.kind {
        let head = seq![sym(Tok::While)];
        let c = wrapped(row_of(cond));
        let t = braced(stmts_row(body, 0));
        assert(stmt_row(s) =~= head + (c + t));
        lemma_stands(ts, p, head, c + t);
        lemma_stands_one(ts, p, sym(Tok::While));
        lemma_stands(ts, p + 1, c, t);
        lemma_paren(ts, p + 1, cond);
        let a = lemma_block(ts, p + 1 + c.len(), body);
    }
}

#[verifier::rlimit(60)]
#[verifier::spinoff_prover]
proof fn lemma_match(ts: Seq<TokenV>, p: int, s: StmtV)
    requires
        stands(ts, p, stmt_row(s)),
        p + stmt_row(s).len() < ts.len(),
        ts[p + stmt_row(s).len()].kind != sym(Tok::Else),
        is_stmt(s),
        s.kind is Match,
    ensures
        reads_kind(stmt_kind(ts, p), s.kind, p + stmt_row(s).len()),
    decreases s.kind, 3int,
{
    if let StmtKindV::Match { scrut, arms: xs } = s.kind {
        let head = seq![sym(Tok::Match)];
        let c = wrapped(row_of(scrut));
        let open = seq![sym(Tok::LBrace)];
        let k = arms_row(xs, 0) + seq![sym(Tok::RBrace)];
        assert(stmt_row(s) =~= head + (c + (open + k)));
        lemma_stands(ts, p, head, c + (open + k));
        lemma_stands_one(ts, p, sym(Tok::Match));
        lemma_stands(ts, p + 1, c, open + k);
        lemma_paren(ts, p + 1, scrut);
        let m = p + 1 + c.len();
        lemma_stands(ts, m, open, k);
        lemma_stands_one(ts, m, sym(Tok::LBrace));
        let r = lemma_arms(ts, m + 1, xs, 0, Seq::empty());
        lemma_bare_arms(r, xs, xs.len());
    }
}

#[verifier::rlimit(60)]
#[verifier::spinoff_prover]
proof fn lemma_for_in(ts: Seq<TokenV>, p: int, s: StmtV)
    requires
        stands(ts, p, stmt_row(s)),
        p + stmt_row(s).len() < ts.len(),
        ts[p + stmt_row(s).len()].kind != sym(Tok::Else),
        is_stmt(s),
        s.kind is ForIn,
    ensures
        reads_kind(stmt_kind(ts, p), s.kind, p + stmt_row(s).len()),
    decreases s.kind, 3int,
{
    if let StmtKindV::ForIn { var, iter, body } = s.kind {
        let head = seq![sym(Tok::For), sym(Tok::LParen), TokV::Ident(var), sym(Tok::In)];
        let c = row_of(iter);
        let close = seq![sym(Tok::RParen)];
        let t = braced(stmts_row(body, 0));
        assert(stmt_row(s) =~= head + (c + (close + t)));
        lemma_stands(ts, p, head, c + (close + t));
        assert(ts[p + 0].kind == head[0]);
        assert(ts[p + 1].kind == head[1]);
        assert(ts[p + 2].kind == head[2]);
        assert(ts[p + 3].kind == head[3]);
        lemma_stands(ts, p + 4, c, close + t);
        let m = p + 4 + c.len();
        lemma_stands(ts, m, close, t);
        lemma_stands_one(ts, m, sym(Tok::RParen));
        lemma_ends(Tok::RParen);
        expressions_are_read_as_they_are_written(ts, p + 4, iter);
        let a = lemma_block(ts, m + 1, body);
        assert(for_in_head(ts, p + 2) matches Parsed::Done((v, it), q) && v == var && q == m + 1
            && bare(it) == bare(iter));
        assert(reads_kind(for_kind(ts, p), s.kind, p + stmt_row(s).len()));
    }
}

/// A simple statement that may be missing, before a token that ends it.
proof fn lemma_opt_simple(ts: Seq<TokenV>, p: int, o: Option<Box<StmtV>>, stop: Tok) -> (d: Option<
    Box<StmtV>,
>)
    requires
        stop is Semicolon || stop is RParen,
        match o {
            Some(x) => is_stmt(*x) && is_simple((*x).kind),
            None => true,
        },
        stands(ts, p, opt_simple_row(o)),
        p + opt_simple_row(o).len() < ts.len(),
        ts[p + opt_simple_row(o).len()].kind == sym(stop),
    ensures
        opt_simple(ts, p, stop) == Parsed::Done(d, p + opt_simple_row(o).len()),
        match (d, o) {
            (Some(x), Some(y)) => bare_stmt(*x) == bare_stmt(*y),
            (None, None) => true,
            _ => false,
        },
{
    match o {
        Some(x) => {
            let k = (*x).kind;
            lemma_simple_first(k);
            assert(ts[p + 0].kind == simple_row(k)[0]);
            lemma_simple(ts, p, k);
            let made = placed(ts, p, simple_kind(ts, p))->Done_0;
            lemma_kind_only(made, *x);
            Some(Box::new(made))
        },
        None => None,
    }
}

/// A simple statement is no name with an `in` behind it.
proof fn lemma_no_in(ts: Seq<TokenV>, p: int, o: Option<Box<StmtV>>)
    requires
        match o {
            Some(x) => is_simple((*x).kind),
            None => true,
        },
        stands(ts, p, opt_simple_row(o) + seq![sym(Tok::Semicolon)]),
    ensures
        !(ts[p].kind is Ident && at(ts, p + 1, Tok::In)),
{
    let row = opt_simple_row(o) + seq![sym(Tok::Semicolon)];
    assert(ts[p + 0].kind == row[0]);
    if let Some(x) = o {
        let k = (*x).kind;
        lemma_simple_first(k);
        assert(row[0] == simple_row(k)[0]);
        assert(row.len() >= 2);
        assert(ts[p + 1].kind == row[1]);
        match k {
            StmtKindV::Assign { target, value } => {
                lemma_second(target, seq![sym(Tok::Assign)] + row_of(value) + seq![
                    sym(Tok::Semicolon),
                ]);
                assert(row =~= row_of(target) + (seq![sym(Tok::Assign)] + row_of(value) + seq![
                    sym(Tok::Semicolon),
                ]));
            },
            StmtKindV::ExprStmt(e) => {
                lemma_second(e, seq![sym(Tok::Semicolon)]);
            },
            _ => {},
        }
    }
}

proof fn lemma_second(e: ExprV, rest: Seq<TokV>)
    requires
        rest.len() > 0,
        rest[0] != sym(Tok::In),
    ensures
        (row_of(e) + rest)[0] is Ident ==> (row_of(e) + rest)[1] != sym(Tok::In),
{
    lemma_first_token(e);
    let row = row_of(e);
    assert((row + rest)[0] == row[0]);
    match e.kind {
        ExprKindV::Var(name) => {
            assert(row.len() == 1);
            assert((row + rest)[1] == rest[0]);
        },
        ExprKindV::Call { name, args } => {
            assert(row[1] == sym(Tok::LParen));
            assert((row + rest)[1] == row[1]);
        },
        ExprKindV::StructLit { name, fields } => {
            assert(row[1] == sym(Tok::LBrace));
            assert((row + rest)[1] == row[1]);
        },
        ExprKindV::Unary { op, expr } => {
            assert(row[0] == sym(crate::laws::trees::prefix_tok(op)));
        },
        ExprKindV::Binary { op, lhs, rhs } => {
            assert(row[0] == sym(Tok::LParen));
        },
        ExprKindV::Array(args) => {
            assert(row[0] == sym(Tok::LBracket));
        },
        ExprKindV::Index { array, index } => {
            assert(row[0] == sym(Tok::LParen));
        },
        ExprKindV::Slice { seq, lo, hi } => {
            assert(row[0] == sym(Tok::LParen));
        },
        ExprKindV::MapLit(items) => {
            assert(row[0] == sym(Tok::LBrace));
        },
        ExprKindV::Field { obj, field } => {
            assert(row[0] == sym(Tok::LParen));
        },
        _ => {},
    }
}

#[verifier::rlimit(60)]
#[verifier::spinoff_prover]
proof fn lemma_for(ts: Seq<TokenV>, p: int, s: StmtV)
    requires
        stands(ts, p, stmt_row(s)),
        p + stmt_row(s).len() < ts.len(),
        ts[p + stmt_row(s).len()].kind != sym(Tok::Else),
        is_stmt(s),
        s.kind is For,
    ensures
        reads_kind(stmt_kind(ts, p), s.kind, p + stmt_row(s).len()),
    decreases s.kind, 3int,
{
    if let StmtKindV::For { init, cond, step, body } = s.kind {
        let head = seq![sym(Tok::For), sym(Tok::LParen)];
        let semi = seq![sym(Tok::Semicolon)];
        let a = opt_simple_row(init);
        let c = row_of(cond);
        let b = opt_simple_row(step);
        let close = seq![sym(Tok::RParen)];
        let t = braced(stmts_row(body, 0));
        assert(stmt_row(s) =~= head + ((a + semi) + (c + (semi + (b + (close + t))))));
        lemma_stands(ts, p, head, (a + semi) + (c + (semi + (b + (close + t)))));
        assert(ts[p + 0].kind == head[0]);
        assert(ts[p + 1].kind == head[1]);
        lemma_stands(ts, p + 2, a + semi, c + (semi + (b + (close + t))));
        lemma_no_in(ts, p + 2, init);
        lemma_stands(ts, p + 2, a, semi);
        let m = p + 2 + a.len();
        lemma_stands_one(ts, m, sym(Tok::Semicolon));
        let x = lemma_opt_simple(ts, p + 2, init, Tok::Semicolon);
        lemma_stands(ts, m + 1, c, semi + (b + (close + t)));
        let n = m + 1 + c.len();
        lemma_stands(ts, n, semi, b + (close + t));
        lemma_stands_one(ts, n, sym(Tok::Semicolon));
        lemma_ends(Tok::Semicolon);
        expressions_are_read_as_they_are_written(ts, m + 1, cond);
        lemma_stands(ts, n + 1, b, close + t);
        let r = n + 1 + b.len();
        lemma_stands(ts, r, close, t);
        lemma_stands_one(ts, r, sym(Tok::RParen));
        let y = lemma_opt_simple(ts, n + 1, step, Tok::RParen);
        let z = lemma_block(ts, r + 1, body);
        let d = expr(ts, m + 1)->Done_0;
        assert(for_head(ts, p + 2) == Parsed::Done((x, d, y), r + 1));
        assert(reads_kind(for_kind(ts, p), s.kind, p + stmt_row(s).len()));
    }
}

} // verus!
