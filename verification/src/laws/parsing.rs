//! How operators are read.
use crate::ast::{BinOp, UnOp};
use crate::token::Tok;
use vstd::prelude::*;
#[allow(unused_imports)]
use crate::ast::{ExprKindV, ExprV, StmtKindV};
#[allow(unused_imports)]
use crate::grammar::{
    at, binary, compound_op, expr, level, level_op, level_rest, simple_kind, unary, Parsed,
};
#[allow(unused_imports)]
use crate::laws::writing::mark_spelling;
#[allow(unused_imports)]
use crate::token::{TokV, TokenV};

verus! {

/// How an operator between two operands is spelled.
pub open spec fn op_spelling(op: BinOp) -> Seq<char> {
    match op {
        BinOp::Add => seq!['+'],
        BinOp::Sub => seq!['-'],
        BinOp::Mul => seq!['*'],
        BinOp::Div => seq!['/'],
        BinOp::Mod => seq!['%'],
        BinOp::Eq => seq!['=', '='],
        BinOp::Ne => seq!['!', '='],
        BinOp::Lt => seq!['<'],
        BinOp::Le => seq!['<', '='],
        BinOp::Gt => seq!['>'],
        BinOp::Ge => seq!['>', '='],
        BinOp::And => seq!['&', '&'],
        BinOp::Or => seq!['|', '|'],
        BinOp::BitAnd => seq!['&'],
        BinOp::BitOr => seq!['|'],
        BinOp::BitXor => seq!['^'],
        BinOp::Shl => seq!['<', '<'],
        BinOp::Shr => seq!['>', '>'],
    }
}

/// How tightly an operator binds.
pub open spec fn strength(op: BinOp) -> int {
    match op {
        BinOp::Or => 0,
        BinOp::And => 1,
        BinOp::BitOr => 2,
        BinOp::BitXor => 3,
        BinOp::BitAnd => 4,
        BinOp::Eq | BinOp::Ne | BinOp::Lt | BinOp::Le | BinOp::Gt | BinOp::Ge => 5,
        BinOp::Shl | BinOp::Shr => 6,
        BinOp::Add | BinOp::Sub => 7,
        BinOp::Mul | BinOp::Div | BinOp::Mod => 8,
    }
}

/// An operator that an assignment can be combined with: those of arithmetic, of bits and of
/// shifts.
pub open spec fn combines(op: BinOp) -> bool {
    match op {
        BinOp::Add | BinOp::Sub | BinOp::Mul | BinOp::Div | BinOp::Mod => true,
        BinOp::BitAnd | BinOp::BitOr | BinOp::BitXor | BinOp::Shl | BinOp::Shr => true,
        _ => false,
    }
}

/// How a prefix operator is spelled.
pub open spec fn prefix_spelling(op: UnOp) -> Seq<char> {
    match op {
        UnOp::Neg => seq!['-'],
        UnOp::Not => seq!['!'],
        UnOp::BitNot => seq!['~'],
    }
}

/// A mark that is spelled so.
pub open spec fn is_spelled(t: TokV, s: Seq<char>) -> bool {
    t matches TokV::Sym(sym) && mark_spelling(sym) == s && s.len() > 0
}

/// No operator stands here that takes an operand before it.
pub open spec fn no_operator(t: TokV) -> bool {
    forall|op: BinOp| !is_spelled(t, #[trigger] op_spelling(op))
}


proof fn lemma_operator(t: TokV, op: BinOp)
    requires
        is_spelled(t, op_spelling(op)),
    ensures
        level_op(strength(op), t) == Some(op),
        forall|l: int| l != strength(op) ==> #[trigger] level_op(l, t) is None,
{
    let sym = t->Sym_0;
    let m = mark_spelling(sym);
    let o = op_spelling(op);
    assert(m.len() == o.len());
    assert(m[0] == o[0]);
    if o.len() == 2 {
        assert(m[1] == o[1]);
    }
}

pub proof fn lemma_no_operator(t: TokV, l: int)
    requires
        no_operator(t),
    ensures
        level_op(l, t) is None,
{
    if let Some(op) = level_op(l, t) {
        assert(mark_spelling(t->Sym_0) =~= op_spelling(op));
        assert(is_spelled(t, op_spelling(op)));
    }
}

/// What is complete on one level is so on every looser one, where none of their operators
/// follows.
proof fn lemma_climb(ts: Seq<TokenV>, p: int, k: int, j: int, e: ExprV, q: int)
    requires
        0 <= j <= k <= 9,
        level(ts, p, k) == Parsed::Done(e, q),
        p < q,
        0 <= q < ts.len(),
        forall|l: int| j <= l < k ==> #[trigger] level_op(l, ts[q].kind) is None,
    ensures
        level(ts, p, j) == Parsed::Done(e, q),
    decreases k - j,
{
    if j < k {
        lemma_climb(ts, p, k, j + 1, e, q);
        assert(level_op(j, ts[q].kind) is None);
        assert(level_rest(ts, q, j, e) == Parsed::Done(e, q));
    }
}

/// An operand stands at `p`, and `q` is behind it.
pub open spec fn operand(ts: Seq<TokenV>, p: int, e: ExprV, q: int) -> bool {
    0 <= p < q < ts.len() && unary(ts, p) == Parsed::Done(e, q)
}

pub proof fn lemma_operand(ts: Seq<TokenV>, p: int, j: int, e: ExprV, q: int)
    requires
        0 <= j <= 9,
        operand(ts, p, e, q),
        forall|l: int| j <= l ==> #[trigger] level_op(l, ts[q].kind) is None,
    ensures
        level(ts, p, j) == Parsed::Done(e, q),
{
    assert(level(ts, p, 9) == Parsed::Done(e, q));
    lemma_climb(ts, p, 9, j, e, q);
}

/// `a op b` on the level of the operator, whatever of another level follows.
proof fn lemma_pair(
    ts: Seq<TokenV>,
    p: int,
    a: ExprV,
    q: int,
    op: BinOp,
    b: ExprV,
    r: int,
)
    requires
        operand(ts, p, a, q),
        is_spelled(ts[q].kind, op_spelling(op)),
        0 <= strength(op) < 9,
        level(ts, q + 1, strength(op) + 1) == Parsed::Done(b, r),
        q + 1 < r < ts.len(),
        level_op(strength(op), ts[r].kind) is None,
    ensures
        level(ts, p, strength(op)) == Parsed::Done(binary(op, a, b), r),
{
    let k = strength(op);
    lemma_operator(ts[q].kind, op);
    lemma_operand(ts, p, k + 1, a, q);
    assert(level_rest(ts, r, k, binary(op, a, b)) == Parsed::Done(binary(op, a, b), r));
    assert(level_rest(ts, q, k, a) == Parsed::Done(binary(op, a, b), r));
}

/// Two operands with an operator between them are read as that operator on them.
pub proof fn operators_stand_between_their_operands(
    ts: Seq<TokenV>,
    p: int,
    a: ExprV,
    q: int,
    op: BinOp,
    b: ExprV,
    r: int,
)
    requires
        operand(ts, p, a, q),
        is_spelled(ts[q].kind, op_spelling(op)),
        operand(ts, q + 1, b, r),
        no_operator(ts[r].kind),
    ensures
        expr(ts, p) == Parsed::Done(binary(op, a, b), r),
{
    let k = strength(op);
    assert forall|l: int| #[trigger] level_op(l, ts[r].kind) is None by {
        lemma_no_operator(ts[r].kind, l);
    }
    lemma_operand(ts, q + 1, k + 1, b, r);
    lemma_pair(ts, p, a, q, op, b, r);
    lemma_climb(ts, p, k, 0, binary(op, a, b), r);
}

/// Of two operators in a row, the one that binds more tightly has the operand between them;
/// where both bind alike, the first has it.
pub proof fn tighter_operators_are_read_first(
    ts: Seq<TokenV>,
    p: int,
    a: ExprV,
    q: int,
    first: BinOp,
    b: ExprV,
    r: int,
    second: BinOp,
    c: ExprV,
    t: int,
)
    requires
        operand(ts, p, a, q),
        is_spelled(ts[q].kind, op_spelling(first)),
        operand(ts, q + 1, b, r),
        is_spelled(ts[r].kind, op_spelling(second)),
        operand(ts, r + 1, c, t),
        no_operator(ts[t].kind),
    ensures
        expr(ts, p) == Parsed::Done(
            if strength(first) >= strength(second) {
                binary(second, binary(first, a, b), c)
            } else {
                binary(first, a, binary(second, b, c))
            },
            t,
        ),
{
    let k = strength(first);
    let m = strength(second);
    lemma_operator(ts[q].kind, first);
    lemma_operator(ts[r].kind, second);
    assert forall|l: int| #[trigger] level_op(l, ts[t].kind) is None by {
        lemma_no_operator(ts[t].kind, l);
    }
    lemma_operand(ts, r + 1, m + 1, c, t);
    let ab = binary(first, a, b);
    if k > m {
        lemma_operand(ts, q + 1, k + 1, b, r);
        lemma_pair(ts, p, a, q, first, b, r);
        lemma_climb(ts, p, k, m + 1, ab, r);
        let abc = binary(second, ab, c);
        assert(level_rest(ts, t, m, abc) == Parsed::Done(abc, t));
        assert(level_rest(ts, r, m, ab) == Parsed::Done(abc, t));
        assert(level(ts, p, m) == Parsed::Done(abc, t));
        lemma_climb(ts, p, m, 0, abc, t);
    } else if k == m {
        lemma_operand(ts, p, k + 1, a, q);
        lemma_operand(ts, q + 1, k + 1, b, r);
        let abc = binary(second, ab, c);
        assert(level_rest(ts, t, m, abc) == Parsed::Done(abc, t));
        assert(level_rest(ts, r, m, ab) == Parsed::Done(abc, t));
        assert(level_rest(ts, q, k, a) == Parsed::Done(abc, t));
        assert(level(ts, p, k) == Parsed::Done(abc, t));
        lemma_climb(ts, p, k, 0, abc, t);
    } else {
        let bc = binary(second, b, c);
        lemma_pair(ts, q + 1, b, r, second, c, t);
        lemma_climb(ts, q + 1, m, k + 1, bc, t);
        let abc = binary(first, a, bc);
        lemma_pair(ts, p, a, q, first, bc, t);
        lemma_climb(ts, p, k, 0, abc, t);
    }
}

/// An operator before an operand is read as that operator on it.
pub proof fn prefixes_stand_before_their_operands(
    ts: Seq<TokenV>,
    p: int,
    op: UnOp,
    a: ExprV,
    q: int,
)
    requires
        0 <= p,
        is_spelled(ts[p].kind, prefix_spelling(op)),
        operand(ts, p + 1, a, q),
    ensures
        ({
            &&& unary(ts, p) matches Parsed::Done(e, r)
            &&& r == q
            &&& e.kind == ExprKindV::Unary { op, expr: Box::new(a) }
        }),
{
    let sym = ts[p].kind->Sym_0;
    let m = mark_spelling(sym);
    assert(m.len() == 1 && m[0] == prefix_spelling(op)[0]);
}

/// `a op= b` is the assignment to `a` of what `a op b` is read as. For every operator that an
/// assignment can be combined with, where `x op y` stands somewhere and is read as an
/// expression, `a op= b` assigns to `a` that same operator on `a` and `b`.
pub proof fn combined_assignments_are_assignments(
    ts: Seq<TokenV>,
    p: int,
    a: ExprV,
    q: int,
    b: ExprV,
    r: int,
    op: BinOp,
    us: Seq<TokenV>,
    p2: int,
    x: ExprV,
    q2: int,
    y: ExprV,
    r2: int,
)
    requires
        combines(op),
        !at(ts, p, Tok::Let),
        expr(ts, p) == Parsed::Done(a, q),
        is_spelled(ts[q].kind, op_spelling(op).push('=')),
        expr(ts, q + 1) == Parsed::Done(b, r),
        operand(us, p2, x, q2),
        is_spelled(us[q2].kind, op_spelling(op)),
        operand(us, q2 + 1, y, r2),
        no_operator(us[r2].kind),
    ensures
        ({
            &&& simple_kind(ts, p) matches Parsed::Done(StmtKindV::Assign { target, value }, end)
            &&& end == r
            &&& target == a
            &&& value.kind matches ExprKindV::Binary { op: did, lhs, rhs }
            &&& *lhs == a
            &&& *rhs == b
            &&& did == op
            &&& expr(us, p2) matches Parsed::Done(e, end2)
            &&& end2 == r2
            &&& e.kind == ExprKindV::Binary { op: did, lhs: Box::new(x), rhs: Box::new(y) }
        }),
{
    operators_stand_between_their_operands(us, p2, x, q2, op, y, r2);
    let sym = ts[q].kind->Sym_0;
    let m = mark_spelling(sym);
    let o = op_spelling(op).push('=');
    assert(m.len() == o.len());
    assert(m[0] == o[0] && m[1] == o[1]);
    if o.len() == 3 {
        assert(m[2] == o[2]);
    }
    assert(compound_op(ts[q].kind) == Some(op));
}

/// `a = b` is the assignment of `b` to `a`, and an expression that nothing follows is a
/// statement by itself.
pub proof fn assignments_are_read(ts: Seq<TokenV>, p: int, a: ExprV, q: int, b: ExprV, r: int)
    requires
        !at(ts, p, Tok::Let),
        expr(ts, p) == Parsed::Done(a, q),
    ensures
        is_spelled(ts[q].kind, seq!['=']) && expr(ts, q + 1) == Parsed::Done(b, r) ==> simple_kind(
            ts,
            p,
        ) == Parsed::Done(StmtKindV::Assign { target: a, value: b }, r),
        is_spelled(ts[q].kind, seq![';']) ==> simple_kind(ts, p) == Parsed::Done(
            StmtKindV::ExprStmt(a),
            q,
        ),
{
    if ts[q].kind is Sym {
        let m = mark_spelling(ts[q].kind->Sym_0);
        assert(m == seq!['='] ==> m.len() == 1 && m[0] == '=');
        assert(m == seq![';'] ==> m.len() == 1 && m[0] == ';');
    }
}

} // verus!
