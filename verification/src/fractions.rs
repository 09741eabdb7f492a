//! Fractions as messages show them.
//!
//! A fraction is kept as it was written, with digits on both sides of a point. Messages show
//! its value: without the zeros that say nothing, and with an exponent where it is very large
//! or very small.
use crate::text::{append_dec, chars_of};
use vstd::prelude::*;
#[allow(unused_imports)]
use crate::text::int_text;

verus! {

/// Without the zeros in front.
pub open spec fn no_lead(s: Seq<char>) -> Seq<char>
    decreases s.len(),
{
    if s.len() > 0 && s[0] == '0' {
        no_lead(s.drop_first())
    } else {
        s
    }
}

/// Without the zeros at the end.
pub open spec fn no_trail(s: Seq<char>) -> Seq<char>
    decreases s.len(),
{
    if s.len() > 0 && s.last() == '0' {
        no_trail(s.drop_last())
    } else {
        s
    }
}

/// The index of the first point from `i` on.
pub open spec fn point_from(s: Seq<char>, i: int) -> int
    decreases s.len() - i,
{
    if 0 <= i < s.len() && s[i] != '.' {
        point_from(s, i + 1)
    } else {
        i
    }
}

/// The digits before the point, without zeros in front.
pub open spec fn whole(s: Seq<char>) -> Seq<char> {
    no_lead(s.take(point_from(s, 0)))
}

/// The digits behind the point, without zeros at the end.
pub open spec fn part(s: Seq<char>) -> Seq<char> {
    if point_from(s, 0) < s.len() {
        no_trail(s.skip(point_from(s, 0) + 1))
    } else {
        Seq::empty()
    }
}

/// The digits that say something, of which the first and the last are not zero.
pub open spec fn figures(s: Seq<char>) -> Seq<char> {
    no_trail(no_lead(whole(s) + part(s)))
}

/// The power of ten that the first of these digits counts.
pub open spec fn power(s: Seq<char>) -> int {
    if whole(s).len() > 0 {
        whole(s).len() - 1
    } else {
        no_lead(part(s)).len() - part(s).len() - 1
    }
}

pub open spec fn or_zero(s: Seq<char>) -> Seq<char> {
    if s.len() == 0 {
        seq!['0']
    } else {
        s
    }
}

/// The digits with a point behind the first, where there are more.
pub open spec fn pointed(f: Seq<char>) -> Seq<char> {
    seq![f[0]] + if f.len() > 1 {
        seq!['.'] + f.drop_first()
    } else {
        Seq::empty()
    }
}

/// A fraction as messages show it: from ten thousandths up to below ten to the sixteenth
/// with a point, and beyond that with an exponent.
pub open spec fn fraction_text(s: Seq<char>) -> Seq<char> {
    let f = figures(s);
    if f.len() > 0 && !(-4 <= power(s) < 16) {
        pointed(f) + seq!['e'] + int_text(power(s))
    } else {
        or_zero(whole(s)) + seq!['.'] + or_zero(part(s))
    }
}

/// The characters from `i` up to `j`.
fn section(v: &Vec<char>, i: usize, j: usize) -> (r: Vec<char>)
    requires
        i <= j <= v@.len(),
    ensures
        r@ == v@.subrange(i as int, j as int),
{
    let mut r: Vec<char> = Vec::new();
    let mut k: usize = i;
    while k < j
        invariant
            i <= k <= j <= v@.len(),
            r@ == v@.subrange(i as int, k as int),
        decreases j - k,
    {
        r.push(v[k]);
        k += 1;
        assert(r@ =~= v@.subrange(i as int, k as int));
    }
    r
}

fn append_all(out: &mut String, v: &Vec<char>, start: usize)
    requires
        start <= v@.len(),
    ensures
        final(out)@ == old(out)@ + v@.skip(start as int),
{
    let ghost before = out@;
    let mut k: usize = start;
    while k < v.len()
        invariant
            start <= k <= v@.len(),
            out@ == before + v@.subrange(start as int, k as int),
        decreases v@.len() - k,
    {
        out.push(v[k]);
        k += 1;
        assert(out@ =~= before + v@.subrange(start as int, k as int));
    }
    assert(v@.subrange(start as int, k as int) =~= v@.skip(start as int));
}

fn without_lead(v: &Vec<char>) -> (r: Vec<char>)
    ensures
        r@ == no_lead(v@),
        r@.len() <= v@.len(),
{
    let mut i: usize = 0;
    assert(v@.skip(0) =~= v@);
    while i < v.len() && v[i] == '0'
        invariant
            0 <= i <= v@.len(),
            no_lead(v@) == no_lead(v@.skip(i as int)),
        decreases v@.len() - i,
    {
        assert(v@.skip(i as int).drop_first() =~= v@.skip(i + 1));
        i += 1;
    }
    assert(v@.subrange(i as int, v@.len() as int) =~= v@.skip(i as int));
    section(v, i, v.len())
}

fn without_trail(v: Vec<char>) -> (r: Vec<char>)
    ensures
        r@ == no_trail(v@),
        r@.len() <= v@.len(),
{
    let mut r = v;
    while r.len() > 0 && r[r.len() - 1] == '0'
        invariant
            no_trail(v@) == no_trail(r@),
            r@.len() <= v@.len(),
        decreases r@.len(),
    {
        r.pop();
    }
    r
}

fn point_of(v: &Vec<char>) -> (p: usize)
    ensures
        p == point_from(v@, 0),
        p <= v@.len(),
{
    let mut i: usize = 0;
    while i < v.len() && v[i] != '.'
        invariant
            0 <= i <= v@.len(),
            point_from(v@, 0) == point_from(v@, i as int),
        decreases v@.len() - i,
    {
        i += 1;
    }
    i
}

fn append_or_zero(out: &mut String, v: &Vec<char>)
    ensures
        final(out)@ == old(out)@ + or_zero(v@),
{
    if v.len() == 0 {
        out.push('0');
    } else {
        append_all(out, v, 0);
        assert(v@.skip(0) =~= v@);
    }
    assert(out@ =~= old(out)@ + or_zero(v@));
}

fn joined(a: &Vec<char>, b: &Vec<char>) -> (r: Vec<char>)
    ensures
        r@ == a@ + b@,
{
    let mut r = section(a, 0, a.len());
    assert(r@ =~= a@ + b@.take(0));
    let mut i: usize = 0;
    while i < b.len()
        invariant
            0 <= i <= b@.len(),
            r@ == a@ + b@.take(i as int),
        decreases b@.len() - i,
    {
        r.push(b[i]);
        i += 1;
        assert(r@ =~= a@ + b@.take(i as int));
    }
    assert(b@.take(i as int) =~= b@);
    r
}

fn append_pointed(out: &mut String, f: &Vec<char>)
    requires
        f@.len() > 0,
    ensures
        final(out)@ == old(out)@ + pointed(f@),
{
    out.push(f[0]);
    if f.len() > 1 {
        out.push('.');
        append_all(out, f, 1);
        assert(f@.skip(1) =~= f@.drop_first());
    }
    assert(out@ =~= old(out)@ + pointed(f@));
}

/// Appends the power of ten of a fraction with digits before the point, or with zeros behind
/// it.
fn append_power(out: &mut String, before: usize, zeros: usize)
    requires
        zeros < usize::MAX,
    ensures
        final(out)@ == old(out)@ + int_text(
            if before > 0 {
                before - 1
            } else {
                -zeros - 1
            },
        ),
{
    if before > 0 {
        append_dec(out, (before - 1) as u64);
    } else {
        out.append("-");
        append_dec(out, zeros as u64 + 1);
    }
    assert(out@ =~= old(out)@ + int_text(
        if before > 0 {
            before - 1
        } else {
            -zeros - 1
        },
    ));
}

/// The digits before the point and those behind it, without the zeros that say nothing.
fn sides(s: &str) -> (r: (Vec<char>, Vec<char>))
    ensures
        r.0@ == whole(s@),
        r.1@ == part(s@),
        r.1@.len() < usize::MAX,
{
    let cs = chars_of(s);
    let p: usize = point_of(&cs);
    assert(cs@.subrange(0, p as int) =~= cs@.take(p as int));
    let front = without_lead(&section(&cs, 0, p));
    let back: Vec<char> = if p < cs.len() {
        assert(cs@.subrange(p + 1, cs@.len() as int) =~= cs@.skip(p + 1));
        without_trail(section(&cs, p + 1, cs.len()))
    } else {
        Vec::new()
    };
    assert(back@ =~= part(s@));
    (front, back)
}

/// Appends a fraction as messages show it.
pub fn append_fraction(out: &mut String, s: &str)
    ensures
        final(out)@ == old(out)@ + fraction_text(s@),
{
    let (front, back) = sides(s);
    let digits = without_trail(without_lead(&joined(&front, &back)));
    let zeros: usize = back.len() - without_lead(&back).len();
    let wide = front.len() > 16 || (front.len() == 0 && zeros > 3);
    if digits.len() > 0 && wide {
        append_pointed(out, &digits);
        out.push('e');
        append_power(out, front.len(), zeros);
    } else {
        append_or_zero(out, &front);
        out.push('.');
        append_or_zero(out, &back);
    }
    assert(out@ =~= old(out)@ + fraction_text(s@));
}

} // verus!
