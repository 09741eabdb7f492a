//! Integers as text.
use vstd::prelude::*;

verus! {

pub open spec fn is_digit(b: u8) -> bool {
    48 <= b <= 57
}

/// The number that a row of digits writes out.
pub open spec fn digits_value(s: Seq<u8>) -> nat
    decreases s.len(),
{
    if s.len() == 0 {
        0
    } else {
        digits_value(s.drop_last()) * 10 + (s.last() - 48) as nat
    }
}

/// `n`, or the nearest number that an integer of the language can be.
pub open spec fn clamped(n: int) -> int {
    if n > i64::MAX {
        i64::MAX as int
    } else if n < i64::MIN {
        i64::MIN as int
    } else {
        n
    }
}

/// There is at least one byte, and every byte is a digit.
pub open spec fn are_digits(s: Seq<u8>) -> bool {
    s.len() > 0 && forall|k: int| 0 <= k < s.len() ==> is_digit(#[trigger] s[k])
}

/// The integer that all of `s` writes out: a sign or none, and at least one digit. A number
/// that is too large or too small counts as the nearest that is not.
pub open spec fn int_of(s: Seq<u8>) -> Option<int> {
    let signed = s.len() > 0 && (s[0] == 43 || s[0] == 45);
    let digits = if signed {
        s.subrange(1, s.len() as int)
    } else {
        s
    };
    if are_digits(digits) {
        Some(
            clamped(
                if signed && s[0] == 45 {
                    -(digits_value(digits) as int)
                } else {
                    digits_value(digits) as int
                },
            ),
        )
    } else {
        None
    }
}

/// Digits, among which there may be a point.
pub open spec fn is_mantissa(s: Seq<u8>) -> bool {
    &&& exists|k: int| 0 <= k < s.len() && is_digit(#[trigger] s[k])
    &&& forall|k: int| 0 <= k < s.len() ==> is_digit(#[trigger] s[k]) || s[k] == 46
    &&& forall|j: int, k: int|
        0 <= j < k < s.len() ==> !(#[trigger] s[j] == 46 && #[trigger] s[k] == 46)
}

/// A sign or none, and at least one digit.
pub open spec fn is_exponent(s: Seq<u8>) -> bool {
    int_of(s) is Some
}

/// An exponent stands behind the mark at `k`, and a mantissa before it.
pub open spec fn marked_at(s: Seq<u8>, k: int) -> bool {
    &&& 0 <= k < s.len()
    &&& s[k] == 101 || s[k] == 69
    &&& is_mantissa(s.subrange(0, k))
    &&& is_exponent(s.subrange(k + 1, s.len() as int))
}

/// `s` without its sign.
pub open spec fn unsigned(s: Seq<u8>) -> Seq<u8> {
    if s.len() > 0 && (s[0] == 43 || s[0] == 45) {
        s.subrange(1, s.len() as int)
    } else {
        s
    }
}

/// All of `s` writes out a decimal fraction: a sign or none, digits with or without a point,
/// and an exponent or none.
pub open spec fn writes_fraction(s: Seq<u8>) -> bool {
    let u = unsigned(s);
    is_mantissa(u) || exists|k: int| marked_at(u, k)
}

/// The digits of `n`.
pub open spec fn digits_of(n: nat) -> Seq<u8>
    decreases n,
{
    if n < 10 {
        seq![(48 + n) as u8]
    } else {
        digits_of(n / 10).push((48 + n % 10) as u8)
    }
}

/// How `n` is written.
pub open spec fn text_of(n: int) -> Seq<u8> {
    if n < 0 {
        seq![45u8] + digits_of((-n) as nat)
    } else {
        digits_of(n as nat)
    }
}

/// The integer that all of `s` writes out, or what the program ends with where it writes out
/// none.
pub fn read_int(s: &Vec<u8>) -> (r: Result<i64, &'static str>)
    ensures
        match r {
            Ok(n) => int_of(s@) == Some(n as int),
            Err(m) => int_of(s@) is None && m@ == "lumo: int() got a non-integer string\n"@,
        },
{
    match parse_int(s) {
        Some(n) => Ok(n),
        None => Err("lumo: int() got a non-integer string\n"),
    }
}

/// The integer that all of `s` writes out.
pub fn parse_int(s: &Vec<u8>) -> (r: Option<i64>)
    ensures
        match r {
            Some(n) => int_of(s@) == Some(n as int),
            None => int_of(s@) is None,
        },
{
    let n: usize = s.len();
    let mut negative = false;
    let mut start: usize = 0;
    if n > 0 && (s[0] == 43 || s[0] == 45) {
        negative = s[0] == 45;
        start = 1;
    }
    assert(s@.subrange(0, n as int) =~= s@);
    let ghost digits = s@.subrange(start as int, n as int);
    if start == n {
        return None;
    }
    let mut k: usize = start;
    let mut value: u128 = 0;
    assert(digits.take(0) =~= Seq::empty());
    while k < n
        invariant
            start <= k <= n,
            n == s@.len(),
            digits == s@.subrange(start as int, n as int),
            int_of(s@) is Some ==> are_digits(digits),
            forall|j: int| 0 <= j < k - start ==> is_digit(#[trigger] digits[j]),
            value == digits_value(digits.take(k - start)) || (value >= 0x1_0000_0000_0000_0000
                && digits_value(digits.take(k - start)) >= 0x1_0000_0000_0000_0000),
            value < 0xB_0000_0000_0000_0000,
        decreases n - k,
    {
        let b = s[k];
        proof {
            assert(digits[k - start] == b);
            assert(digits.take(k + 1 - start).drop_last() =~= digits.take(k - start));
        }
        if b < 48 || b > 57 {
            return None;
        }
        if value < 0x1_0000_0000_0000_0000 {
            value = value * 10 + (b - 48) as u128;
        }
        k += 1;
    }
    assert(digits.take(n - start) =~= digits);
    if negative {
        if value >= 0x8000_0000_0000_0000 {
            Some(i64::MIN)
        } else {
            Some(-(value as i64))
        }
    } else if value >= 0x8000_0000_0000_0000 {
        Some(i64::MAX)
    } else {
        Some(value as i64)
    }
}

/// Whether all of `s` writes out an integer.
pub fn is_int(s: &Vec<u8>) -> (r: bool)
    ensures
        r == (int_of(s@) is Some),
{
    parse_int(s).is_some()
}

/// Whether all of `s` writes out a decimal fraction.
pub fn is_fraction(s: &Vec<u8>) -> (r: bool)
    ensures
        r == writes_fraction(s@),
{
    let n: usize = s.len();
    let start: usize = if n > 0 && (s[0] == 43 || s[0] == 45) {
        1
    } else {
        0
    };
    let ghost u = unsigned(s@);
    assert(u =~= s@.subrange(start as int, n as int));
    let mut i: usize = start;
    let mut digits = false;
    let mut point = false;
    while i < n && ((48 <= s[i] && s[i] <= 57) || (s[i] == 46 && !point))
        invariant
            start <= i <= n,
            n == s@.len(),
            u == s@.subrange(start as int, n as int),
            forall|k: int| 0 <= k < i - start ==> is_digit(#[trigger] u[k]) || u[k] == 46,
            digits == exists|k: int| 0 <= k < i - start && is_digit(#[trigger] u[k]),
            point == exists|k: int| 0 <= k < i - start && #[trigger] u[k] == 46,
            forall|j: int, k: int|
                0 <= j < k < i - start ==> !(#[trigger] u[j] == 46 && #[trigger] u[k] == 46),
        decreases n - i,
    {
        assert(u[i - start] == s[i as int]);
        if s[i] == 46 {
            point = true;
        } else {
            digits = true;
        }
        i += 1;
    }
    let ghost at = i - start;
    if i == n {
        proof {
            assert forall|k: int| !marked_at(u, k) by {
                if 0 <= k < u.len() {
                    assert(is_digit(u[k]) || u[k] == 46);
                }
            }
        }
        return digits;
    }
    assert(u[at] == s[i as int]);
    if digits && (s[i] == 101 || s[i] == 69) {
        let rest = tail(s, i + 1);
        let r = is_int(&rest);
        proof {
            let head = u.subrange(0, at);
            assert(u.subrange(at + 1, u.len() as int) =~= rest@);
            let d = choose|k: int| 0 <= k < at && is_digit(#[trigger] u[k]);
            assert(is_digit(head[d]));
            assert(is_mantissa(head));
            assert(marked_at(u, at) == r);
            assert forall|k: int| k != at implies !marked_at(u, k) by {
                lemma_one_mark(u, at, k);
            }
            assert(!is_mantissa(u));
        }
        r
    } else {
        proof {
            assert forall|k: int| !marked_at(u, k) by {
                if 0 <= k < at {
                    assert(is_digit(u[k]) || u[k] == 46);
                } else if k == at {
                    if !digits && is_mantissa(u.subrange(0, k)) {
                        let head = u.subrange(0, k);
                        let d = choose|j: int| 0 <= j < head.len() && is_digit(#[trigger] head[j]);
                        assert(is_digit(u[d]));
                    }
                } else if at < k < u.len() && is_mantissa(u.subrange(0, k)) {
                    let head = u.subrange(0, k);
                    assert(is_digit(head[at]) || head[at] == 46);
                    let j = choose|j: int| 0 <= j < at && #[trigger] u[j] == 46;
                    assert(head[j] == 46);
                }
            }
            if is_mantissa(u) {
                assert(is_digit(u[at]) || u[at] == 46);
                let j = choose|j: int| 0 <= j < at && #[trigger] u[j] == 46;
                assert(u[j] == 46);
            }
        }
        false
    }
}

/// What stands before the first mark of an exponent holds no other.
proof fn lemma_one_mark(u: Seq<u8>, at: int, k: int)
    requires
        0 <= at < u.len(),
        u[at] == 101 || u[at] == 69,
        forall|j: int| 0 <= j < at ==> is_digit(#[trigger] u[j]) || u[j] == 46,
        k != at,
    ensures
        !marked_at(u, k),
{
    if 0 <= k < at {
        assert(is_digit(u[k]) || u[k] == 46);
    } else if at < k < u.len() {
        assert(u.subrange(0, k)[at] == u[at]);
    }
}

/// The bytes from `i` on.
fn tail(s: &Vec<u8>, i: usize) -> (r: Vec<u8>)
    requires
        i <= s@.len(),
    ensures
        r@ == s@.subrange(i as int, s@.len() as int),
{
    let mut r: Vec<u8> = Vec::new();
    let mut k: usize = i;
    while k < s.len()
        invariant
            i <= k <= s@.len(),
            r@ == s@.subrange(i as int, k as int),
        decreases s@.len() - k,
    {
        r.push(s[k]);
        k += 1;
        assert(r@ =~= s@.subrange(i as int, k as int));
    }
    r
}

/// How `n` is written.
pub fn format_int(n: i64) -> (r: Vec<u8>)
    ensures
        r@ == text_of(n as int),
{
    let mut r: Vec<u8> = Vec::new();
    if n < 0 {
        r.push(45);
        let m: u64 = (-(n as i128)) as u64;
        append_digits(&mut r, m);
        assert(r@ =~= text_of(n as int));
    } else {
        append_digits(&mut r, n as u64);
        assert(r@ =~= text_of(n as int));
    }
    r
}

fn append_digits(out: &mut Vec<u8>, n: u64)
    ensures
        final(out)@ == old(out)@ + digits_of(n as nat),
    decreases n,
{
    if n >= 10 {
        append_digits(out, n / 10);
    }
    out.push(48 + (n % 10) as u8);
    assert(out@ =~= old(out)@ + digits_of(n as nat));
}

// Laws.

proof fn lemma_digits(n: nat)
    ensures
        digits_of(n).len() > 0,
        forall|k: int| 0 <= k < digits_of(n).len() ==> is_digit(#[trigger] digits_of(n)[k]),
        digits_value(digits_of(n)) == n,
    decreases n,
{
    let d = digits_of(n);
    if n < 10 {
        assert(d.drop_last() =~= Seq::empty());
        assert(digits_value(d.drop_last()) == 0);
    } else {
        lemma_digits(n / 10);
        assert(d.drop_last() =~= digits_of(n / 10));
    }
}

/// Reading what was written gives the integer back.
pub proof fn int_round_trip(n: i64)
    ensures
        int_of(text_of(n as int)) == Some(n as int),
{
    let s = text_of(n as int);
    if n < 0 {
        lemma_digits((-n) as nat);
        assert(s.subrange(1, s.len() as int) =~= digits_of((-n) as nat));
        assert(s[0] == 45);
    } else {
        lemma_digits(n as nat);
        assert(is_digit(s[0]));
    }
}

/// Two integers that are written alike are the same.
pub proof fn int_text_is_unique(a: i64, b: i64)
    requires
        text_of(a as int) == text_of(b as int),
    ensures
        a == b,
{
    int_round_trip(a);
    int_round_trip(b);
}

} // verus!
