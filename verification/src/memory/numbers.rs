//! What becomes of numbers.
use vstd::prelude::*;
#[allow(unused_imports)]
use crate::ast::{BinOp, UnOp};
#[allow(unused_imports)]
use crate::lowering::int_op;
#[allow(unused_imports)]
use crate::meaning::{
    absolute_row, extremum_row, infix_row, prefix_row, row, single, value_of, Base, Value,
};
#[allow(unused_imports)]
use crate::memory::heap::{
    bitwise, distance, divides, lemma_check, lemma_do, lemma_wrapped, numeric, on_machine, quotient,
    remainder, wrapped, Heap, Word,
};
#[allow(unused_imports)]
use crate::types::Ty;

verus! {

/// Division by zero ends the program.
pub proof fn division_by_zero_is_caught(
    other: Base<Word, Heap>,
    op: BinOp,
    t: Ty,
    n: i64,
    h: Heap,
)
    requires
        op == BinOp::Div || op == BinOp::Mod,
        t is Int,
    ensures
        value_of(
            on_machine(other),
            infix_row(op, t),
            seq![Word::Int(n), Word::Int(0)],
            h,
        ) == Value::<Word, Heap>::Halt("lumo: division by zero\n"@, h),
{
    reveal(value_of);
    reveal(row);
    reveal(infix_row);
    let ps = infix_row(op, t).parts;
    let ins = seq![Word::Int(n), Word::Int(0)];
    let r1 = Seq::<Word>::empty().push(Word::Bit(true));
    lemma_do(other, ps, 0, ins, Seq::empty(), h, r1.last(), h);
    lemma_check(other, ps, 1, ins, r1, h);
}

/// A quotient lies within the numbers of 64 bits, and a remainder is nearer to zero than the
/// divisor.
proof fn lemma_quotient(a: int, b: int)
    requires
        i64::MIN <= a <= i64::MAX,
        i64::MIN <= b <= i64::MAX,
        divides(a, b),
    ensures
        i64::MIN <= quotient(a, b) <= i64::MAX,
        distance(remainder(a, b)) < distance(b),
{
    let (x, y) = (distance(a), distance(b));
    let q = x / y;
    assert(0 <= q <= x && (y >= 2 ==> 2 * q <= x)) by (nonlinear_arith)
        requires
            x >= 0,
            y >= 1,
            q == x / y,
    ;
    assert(x - q * y == x % y && 0 <= x % y < y) by (nonlinear_arith)
        requires
            x >= 0,
            y >= 1,
            q == x / y,
    ;
    assert((-q) * b == -(q * b) && q * (-y) == -(q * y) && (-q) * (-y) == q * y && (-q) * y == -(q
        * y)) by (nonlinear_arith);
}

/// `/` of integers is the quotient, rounded toward zero, and `%` what the divisor leaves of
/// the dividend: `a - (a / b) * b`. The least integer divided by -1 has no quotient that an
/// integer can be.
pub proof fn division_rounds_toward_zero(
    other: Base<Word, Heap>,
    op: BinOp,
    t: Ty,
    a: i64,
    b: i64,
    h: Heap,
)
    requires
        op == BinOp::Div || op == BinOp::Mod,
        t is Int,
        b != 0,
        !(a == i64::MIN && b == -1),
    ensures
        value_of(on_machine(other), infix_row(op, t), seq![Word::Int(a), Word::Int(b)], h)
            == Value::<Word, Heap>::Is(
            Word::Int(
                (if op == BinOp::Div {
                    quotient(a as int, b as int)
                } else {
                    a - quotient(a as int, b as int) * b
                }) as i64,
            ),
            h,
        ),
        i64::MIN <= quotient(a as int, b as int) <= i64::MAX,
        distance(a - quotient(a as int, b as int) * b) < distance(b as int),
{
    reveal(value_of);
    reveal(row);
    reveal(infix_row);
    lemma_quotient(a as int, b as int);
    let ps = infix_row(op, t).parts;
    let ins = seq![Word::Int(a), Word::Int(b)];
    let r1 = Seq::<Word>::empty().push(Word::Bit(false));
    let v = numeric(int_op(op), a as int, b as int)->0;
    lemma_wrapped(v);
    lemma_do(other, ps, 0, ins, Seq::empty(), h, r1.last(), h);
    lemma_check(other, ps, 1, ins, r1, h);
    lemma_do(other, ps, 2, ins, r1, h, Word::Int(v as i64), h);
}

/// `+`, `-` and `*` of integers wrap around.
pub proof fn integers_wrap_around(
    other: Base<Word, Heap>,
    op: BinOp,
    t: Ty,
    a: i64,
    b: i64,
    h: Heap,
)
    requires
        op == BinOp::Add || op == BinOp::Sub || op == BinOp::Mul,
        t is Int,
    ensures
        value_of(on_machine(other), infix_row(op, t), seq![Word::Int(a), Word::Int(b)], h)
            == Value::<Word, Heap>::Is(
            Word::Int(
                wrapped(
                    if op == BinOp::Add {
                        a + b
                    } else if op == BinOp::Sub {
                        a - b
                    } else {
                        a * b
                    },
                ),
            ),
            h,
        ),
{
    reveal(value_of);
    reveal(row);
    reveal(infix_row);
    reveal(single);
    let ps = infix_row(op, t).parts;
    let ins = seq![Word::Int(a), Word::Int(b)];
    let v = Word::Int(wrapped(numeric(int_op(op), a as int, b as int)->0));
    lemma_do(other, ps, 0, ins, Seq::empty(), h, v, h);
}

/// `&`, `|`, `^`, `<<` and `>>` work on the bits of integers.
pub proof fn bits_are_combined(
    other: Base<Word, Heap>,
    op: BinOp,
    t: Ty,
    a: i64,
    b: i64,
    h: Heap,
)
    requires
        op == BinOp::BitAnd || op == BinOp::BitOr || op == BinOp::BitXor || op == BinOp::Shl || op
            == BinOp::Shr,
        t is Int,
    ensures
        value_of(on_machine(other), infix_row(op, t), seq![Word::Int(a), Word::Int(b)], h)
            == Value::<Word, Heap>::Is(
            Word::Int(
                match op {
                    BinOp::BitAnd => a & b,
                    BinOp::BitOr => a | b,
                    BinOp::BitXor => a ^ b,
                    BinOp::Shl => a << ((b as int % 64) as u64),
                    _ => a >> ((b as int % 64) as u64),
                },
            ),
            h,
        ),
{
    reveal(value_of);
    reveal(row);
    reveal(infix_row);
    reveal(single);
    let ps = infix_row(op, t).parts;
    let ins = seq![Word::Int(a), Word::Int(b)];
    lemma_do(other, ps, 0, ins, Seq::empty(), h, Word::Int(bitwise(int_op(op), a, b)), h);
}

/// `-a` and `~a` of integers.
pub proof fn negations(other: Base<Word, Heap>, t: Ty, a: i64, h: Heap)
    requires
        t is Int,
    ensures
        value_of(on_machine(other), prefix_row(UnOp::Neg, t), seq![Word::Int(a)], h) == Value::<
            Word,
            Heap,
        >::Is(Word::Int(wrapped(-(a as int))), h),
        value_of(on_machine(other), prefix_row(UnOp::BitNot, t), seq![Word::Int(a)], h) == Value::<
            Word,
            Heap,
        >::Is(Word::Int(!a), h),
{
    reveal(value_of);
    reveal(row);
    reveal(single);
    reveal(prefix_row);
    let ins = seq![Word::Int(a)];
    let neg = Word::Int(wrapped(-(a as int)));
    lemma_do(other, prefix_row(UnOp::Neg, t).parts, 0, ins, Seq::empty(), h, neg, h);
    let not = Word::Int(!a);
    lemma_do(other, prefix_row(UnOp::BitNot, t).parts, 0, ins, Seq::empty(), h, not, h);
}

/// `min(a, b)` and `max(a, b)` of integers are the lesser and the greater.
pub proof fn min_and_max(other: Base<Word, Heap>, min: bool, t: Ty, a: i64, b: i64, h: Heap)
    requires
        t is Int,
    ensures
        value_of(on_machine(other), extremum_row(min, t), seq![Word::Int(a), Word::Int(b)], h)
            == Value::<Word, Heap>::Is(
            Word::Int(
                if min == (a < b) {
                    a
                } else {
                    b
                },
            ),
            h,
        ),
{
    reveal(value_of);
    reveal(row);
    let ps = extremum_row(min, t).parts;
    let ins = seq![Word::Int(a), Word::Int(b)];
    let first = if min {
        a < b
    } else {
        a > b
    };
    let r1 = Seq::<Word>::empty().push(Word::Bit(first));
    let v = if first {
        Word::Int(a)
    } else {
        Word::Int(b)
    };
    lemma_do(other, ps, 0, ins, Seq::empty(), h, r1.last(), h);
    lemma_do(other, ps, 1, ins, r1, h, v, h);
}

/// `abs(a)` of an integer is its distance from zero, but for the least integer, which has
/// no counterpart.
pub proof fn absolute_values(other: Base<Word, Heap>, t: Ty, a: i64, h: Heap)
    requires
        t is Int,
    ensures
        value_of(on_machine(other), absolute_row(t), seq![Word::Int(a)], h) == Value::<
            Word,
            Heap,
        >::Is(
            Word::Int(
                if a >= 0 || a == i64::MIN {
                    a
                } else {
                    (-a) as i64
                },
            ),
            h,
        ),
{
    reveal(value_of);
    reveal(row);
    let ps = absolute_row(t).parts;
    let ins = seq![Word::Int(a)];
    let neg = wrapped(-(a as int));
    if a > i64::MIN {
        lemma_wrapped(-(a as int));
    }
    let r1 = Seq::<Word>::empty().push(Word::Int(neg));
    let r2 = r1.push(Word::Bit(a < 0));
    let v = if a < 0 {
        Word::Int(neg)
    } else {
        Word::Int(a)
    };
    lemma_do(other, ps, 0, ins, Seq::empty(), h, r1.last(), h);
    lemma_do(other, ps, 1, ins, r1, h, r2.last(), h);
    lemma_do(other, ps, 2, ins, r2, h, v, h);
}

} // verus!
