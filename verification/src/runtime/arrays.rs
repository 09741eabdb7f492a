//! Arrays: rows of slots.
use vstd::prelude::*;

verus! {

/// Values with an order.
pub trait Ordered: Sized {
    /// Whether the first comes before the second, or neither does.
    spec fn no_later(a: Self, b: Self) -> bool;

    proof fn no_later_total(a: Self, b: Self)
        ensures
            Self::no_later(a, b) || Self::no_later(b, a),
    ;

    proof fn no_later_transitive(a: Self, b: Self, c: Self)
        requires
            Self::no_later(a, b),
            Self::no_later(b, c),
        ensures
            Self::no_later(a, c),
    ;
}

/// Values with an order that can be told.
pub trait Ranked: Ordered {
    fn is_no_later(&self, other: &Self) -> (r: bool)
        ensures
            r == Self::no_later(*self, *other),
    ;
}

impl Ordered for i64 {
    open spec fn no_later(a: i64, b: i64) -> bool {
        a <= b
    }

    proof fn no_later_total(a: i64, b: i64) {
    }

    proof fn no_later_transitive(a: i64, b: i64, c: i64) {
    }
}

impl Ranked for i64 {
    fn is_no_later(&self, other: &i64) -> (r: bool) {
        *self <= *other
    }
}

/// Whether one row of bytes is the other, or comes before it: at the first index at which
/// they differ it holds the lesser byte, or ends.
pub open spec fn bytes_no_later(a: Seq<u8>, b: Seq<u8>) -> bool
    decreases a.len(),
{
    if a.len() == 0 {
        true
    } else if b.len() == 0 {
        false
    } else if a[0] == b[0] {
        bytes_no_later(a.drop_first(), b.drop_first())
    } else {
        a[0] < b[0]
    }
}

proof fn lemma_bytes_total(a: Seq<u8>, b: Seq<u8>)
    ensures
        bytes_no_later(a, b) || bytes_no_later(b, a),
    decreases a.len(),
{
    if a.len() > 0 && b.len() > 0 {
        lemma_bytes_total(a.drop_first(), b.drop_first());
    }
}

proof fn lemma_bytes_transitive(a: Seq<u8>, b: Seq<u8>, c: Seq<u8>)
    requires
        bytes_no_later(a, b),
        bytes_no_later(b, c),
    ensures
        bytes_no_later(a, c),
    decreases a.len(),
{
    if a.len() > 0 && b.len() > 0 && c.len() > 0 && a[0] == b[0] && b[0] == c[0] {
        lemma_bytes_transitive(a.drop_first(), b.drop_first(), c.drop_first());
    }
}

/// Two rows of bytes of which neither comes before the other are the same.
pub proof fn bytes_order_is_strict(a: Seq<u8>, b: Seq<u8>)
    requires
        bytes_no_later(a, b),
        bytes_no_later(b, a),
    ensures
        a == b,
    decreases a.len(),
{
    if a.len() > 0 {
        bytes_order_is_strict(a.drop_first(), b.drop_first());
        assert(a =~= seq![a[0]] + a.drop_first());
        assert(b =~= seq![b[0]] + b.drop_first());
    } else {
        assert(b.len() == 0);
        assert(a =~= b);
    }
}

impl Ordered for Seq<u8> {
    open spec fn no_later(a: Seq<u8>, b: Seq<u8>) -> bool {
        bytes_no_later(a, b)
    }

    proof fn no_later_total(a: Seq<u8>, b: Seq<u8>) {
        lemma_bytes_total(a, b);
    }

    proof fn no_later_transitive(a: Seq<u8>, b: Seq<u8>, c: Seq<u8>) {
        lemma_bytes_transitive(a, b, c);
    }
}

impl Ordered for Vec<u8> {
    open spec fn no_later(a: Vec<u8>, b: Vec<u8>) -> bool {
        bytes_no_later(a@, b@)
    }

    proof fn no_later_total(a: Vec<u8>, b: Vec<u8>) {
        lemma_bytes_total(a@, b@);
    }

    proof fn no_later_transitive(a: Vec<u8>, b: Vec<u8>, c: Vec<u8>) {
        lemma_bytes_transitive(a@, b@, c@);
    }
}

impl Ranked for Vec<u8> {
    fn is_no_later(&self, other: &Vec<u8>) -> (r: bool) {
        let mut i: usize = 0;
        let n: usize = self.len();
        let m: usize = other.len();
        assert(self@.skip(0) =~= self@);
        assert(other@.skip(0) =~= other@);
        while i < n
            invariant
                0 <= i <= n,
                i <= m,
                n == self@.len(),
                m == other@.len(),
                bytes_no_later(self@, other@) == bytes_no_later(
                    self@.skip(i as int),
                    other@.skip(i as int),
                ),
            decreases n - i,
        {
            if i == m {
                return false;
            }
            if self[i] != other[i] {
                return self[i] < other[i];
            }
            proof {
                assert(self@.skip(i as int).drop_first() =~= self@.skip(i + 1));
                assert(other@.skip(i as int).drop_first() =~= other@.skip(i + 1));
            }
            i += 1;
        }
        true
    }
}

/// Where `a` stands in the order of strings with respect to `b`: before it (`-1`), at the
/// same place (`0`), or after it (`1`).
pub fn byte_order(a: &Vec<u8>, b: &Vec<u8>) -> (r: i64)
    ensures
        r == if !bytes_no_later(b@, a@) {
            -1int
        } else if a@ == b@ {
            0
        } else {
            1
        },
{
    if !b.is_no_later(a) {
        -1
    } else if a.is_no_later(b) {
        proof {
            bytes_order_is_strict(a@, b@);
        }
        0
    } else {
        proof {
            lemma_bytes_total(a@, a@);
        }
        1
    }
}

/// Whether the element at index `a` stands before that at index `b` once `xs` is sorted.
/// Elements of which neither comes first keep their order.
pub open spec fn sorts_before<T: Ordered>(xs: Seq<T>, a: int, b: int) -> bool {
    if a < b {
        T::no_later(xs[a], xs[b])
    } else {
        a != b && !T::no_later(xs[b], xs[a])
    }
}

/// `order` names each of the elements from `lo` to `hi` once, in ascending order.
pub open spec fn is_order<T: Ordered>(xs: Seq<T>, lo: int, hi: int, order: Seq<usize>) -> bool {
    &&& order.len() == hi - lo
    &&& forall|i: int| 0 <= i < order.len() ==> lo <= #[trigger] order[i] < hi
    &&& forall|i: int, j: int|
        0 <= i < j < order.len() ==> #[trigger] sorts_before(
            xs,
            order[i] as int,
            order[j] as int,
        )
}

proof fn lemma_sorts_transitive<T: Ordered>(xs: Seq<T>, a: int, b: int, c: int)
    requires
        sorts_before(xs, a, b),
        sorts_before(xs, b, c),
    ensures
        sorts_before(xs, a, c),
{
    T::no_later_total(xs[a], xs[b]);
    T::no_later_total(xs[b], xs[c]);
    T::no_later_total(xs[a], xs[c]);
    if T::no_later(xs[a], xs[b]) && T::no_later(xs[b], xs[c]) {
        T::no_later_transitive(xs[a], xs[b], xs[c]);
    }
    if T::no_later(xs[c], xs[a]) {
        if T::no_later(xs[a], xs[b]) {
            T::no_later_transitive(xs[c], xs[a], xs[b]);
        }
        if T::no_later(xs[b], xs[c]) {
            T::no_later_transitive(xs[b], xs[c], xs[a]);
        }
    }
}

/// The order in which the elements of `xs` stand once they are sorted, as their indices.
pub fn sort_order<T: Ranked>(xs: &Vec<T>) -> (r: Vec<usize>)
    ensures
        is_order(xs@, 0, xs@.len() as int, r@),
{
    sort_range(xs, 0, xs.len())
}

fn sort_range<T: Ranked>(xs: &Vec<T>, lo: usize, hi: usize) -> (r: Vec<usize>)
    requires
        lo <= hi <= xs@.len(),
    ensures
        is_order(xs@, lo as int, hi as int, r@),
    decreases hi - lo,
{
    let mut r: Vec<usize> = Vec::new();
    if hi - lo == 0 {
        return r;
    }
    if hi - lo == 1 {
        r.push(lo);
        return r;
    }
    let mid: usize = lo + (hi - lo) / 2;
    let left = sort_range(xs, lo, mid);
    let right = sort_range(xs, mid, hi);
    let mut i: usize = 0;
    let mut j: usize = 0;
    let n: usize = left.len();
    let m: usize = right.len();
    while i < n || j < m
        invariant
            lo < mid < hi <= xs@.len(),
            n == left@.len(),
            m == right@.len(),
            i <= n,
            j <= m,
            is_order(xs@, lo as int, mid as int, left@),
            is_order(xs@, mid as int, hi as int, right@),
            r@.len() == i + j,
            forall|k: int| 0 <= k < r@.len() ==> lo <= #[trigger] r@[k] < hi,
            forall|k: int, l: int|
                0 <= k < l < r@.len() ==> #[trigger] sorts_before(
                    xs@,
                    r@[k] as int,
                    r@[l] as int,
                ),
            forall|k: int, l: int|
                #![trigger r@[k], left@[l]]
                0 <= k < r@.len() && i <= l < n ==> sorts_before(
                    xs@,
                    r@[k] as int,
                    left@[l] as int,
                ),
            forall|k: int, l: int|
                #![trigger r@[k], right@[l]]
                0 <= k < r@.len() && j <= l < m ==> sorts_before(
                    xs@,
                    r@[k] as int,
                    right@[l] as int,
                ),
        decreases n - i + m - j,
    {
        let ghost before = r@;
        let take_left = if i == n {
            false
        } else if j == m {
            true
        } else {
            xs[left[i]].is_no_later(&xs[right[j]])
        };
        if take_left {
            proof {
                let x = left@[i as int] as int;
                assert forall|l: int| j <= l < m implies sorts_before(
                    xs@,
                    x,
                    #[trigger] right@[l] as int,
                ) by {
                    if j < l {
                        assert(sorts_before(xs@, right@[j as int] as int, right@[l] as int));
                        lemma_sorts_transitive(xs@, x, right@[j as int] as int, right@[l] as int);
                    }
                }
                assert forall|l: int| i < l < n implies sorts_before(
                    xs@,
                    x,
                    #[trigger] left@[l] as int,
                ) by {
                    assert(sorts_before(xs@, left@[i as int] as int, left@[l] as int));
                }
                assert(forall|k: int|
                    0 <= k < before.len() ==> sorts_before(xs@, #[trigger] before[k] as int, x));
            }
            r.push(left[i]);
            i += 1;
        } else {
            proof {
                let x = right@[j as int] as int;
                assert forall|l: int| i <= l < n implies sorts_before(
                    xs@,
                    x,
                    #[trigger] left@[l] as int,
                ) by {
                    if i < l {
                        assert(sorts_before(xs@, left@[i as int] as int, left@[l] as int));
                        lemma_sorts_transitive(xs@, x, left@[i as int] as int, left@[l] as int);
                    }
                }
                assert forall|l: int| j < l < m implies sorts_before(
                    xs@,
                    x,
                    #[trigger] right@[l] as int,
                ) by {
                    assert(sorts_before(xs@, right@[j as int] as int, right@[l] as int));
                }
                assert(forall|k: int|
                    0 <= k < before.len() ==> sorts_before(xs@, #[trigger] before[k] as int, x));
            }
            r.push(right[j]);
            j += 1;
        }
    }
    r
}

/// The elements that `order` names, one after the other.
pub open spec fn picked<T>(xs: Seq<T>, order: Seq<usize>) -> Seq<T> {
    Seq::new(order.len(), |i: int| xs[order[i] as int])
}

/// The elements that `order` names, one after the other.
pub fn pick(xs: &Vec<i64>, order: &Vec<usize>) -> (r: Vec<i64>)
    requires
        forall|i: int| 0 <= i < order@.len() ==> #[trigger] order@[i] < xs@.len(),
    ensures
        r@ == picked(xs@, order@),
{
    let mut r: Vec<i64> = Vec::new();
    let mut i: usize = 0;
    while i < order.len()
        invariant
            0 <= i <= order@.len(),
            forall|i: int| 0 <= i < order@.len() ==> #[trigger] order@[i] < xs@.len(),
            r@ == picked(xs@, order@).take(i as int),
        decreases order@.len() - i,
    {
        r.push(xs[order[i]]);
        i += 1;
        assert(r@ =~= picked(xs@, order@).take(i as int));
    }
    assert(picked(xs@, order@).take(i as int) =~= picked(xs@, order@));
    r
}

/// The elements from `lo` to `hi`, as an array of its own.
pub fn slice(xs: &Vec<i64>, lo: usize, hi: usize) -> (r: Vec<i64>)
    requires
        lo <= hi <= xs@.len(),
    ensures
        r@ == xs@.subrange(lo as int, hi as int),
{
    let mut r: Vec<i64> = Vec::new();
    let mut i: usize = lo;
    while i < hi
        invariant
            lo <= i <= hi <= xs@.len(),
            r@ == xs@.subrange(lo as int, i as int),
        decreases hi - i,
    {
        r.push(xs[i]);
        i += 1;
        assert(r@ =~= xs@.subrange(lo as int, i as int));
    }
    r
}

/// The elements from the last to the first, as an array of its own.
pub fn reversed(xs: &Vec<i64>) -> (r: Vec<i64>)
    ensures
        r@ == xs@.reverse(),
{
    let mut r: Vec<i64> = Vec::new();
    let mut i: usize = xs.len();
    while i > 0
        invariant
            0 <= i <= xs@.len(),
            r@ == xs@.reverse().take(xs@.len() - i),
        decreases i,
    {
        i -= 1;
        r.push(xs[i]);
        assert(r@ =~= xs@.reverse().take(xs@.len() - i));
    }
    assert(xs@.reverse().take(xs@.len() as int) =~= xs@.reverse());
    r
}

/// A number whose order among such numbers is that of the fraction with these bits, where
/// those are the bits of a number: the sign, then the size.
pub fn float_rank(bits: u64) -> (r: i64)
    ensures
        r == if bits < 0x8000_0000_0000_0000 {
            bits as int
        } else {
            0x8000_0000_0000_0000 - bits - 1
        },
{
    if bits < 0x8000_0000_0000_0000 {
        bits as i64
    } else {
        -((bits - 0x8000_0000_0000_0000) as i64) - 1
    }
}

// Laws.

/// Reversing twice gives the array back.
pub proof fn reverse_is_its_own_inverse(xs: Seq<i64>)
    ensures
        xs.reverse().reverse() == xs,
{
    assert(xs.reverse().reverse() =~= xs);
}

/// A sort names no element twice.
pub proof fn order_names_each_once<T: Ordered>(
    xs: Seq<T>,
    lo: int,
    hi: int,
    order: Seq<usize>,
    i: int,
    j: int,
)
    requires
        is_order(xs, lo, hi, order),
        0 <= i < j < order.len(),
    ensures
        order[i] != order[j],
{
    assert(sorts_before(xs, order[i] as int, order[j] as int));
}

/// A sort leaves no element out.
pub proof fn order_names_all<T: Ordered>(xs: Seq<T>, order: Seq<usize>, k: usize)
    requires
        xs.len() <= usize::MAX,
        is_order(xs, 0, xs.len() as int, order),
        k < xs.len(),
    ensures
        order.contains(k),
{
    assert(order.no_duplicates()) by {
        assert forall|i: int, j: int|
            0 <= i < order.len() && 0 <= j < order.len() && i != j implies order[i] != order[j] by {
            if i < j {
                order_names_each_once(xs, 0, xs.len() as int, order, i, j);
            } else {
                order_names_each_once(xs, 0, xs.len() as int, order, j, i);
            }
        }
    }
    let named = order.to_set();
    let all = Set::new(|u: usize| u < xs.len());
    order.unique_seq_to_set();
    lemma_all_below(xs.len());
    assert(named.subset_of(all)) by {
        assert forall|u: usize| named.contains(u) implies all.contains(u) by {
            let i = choose|i: int| 0 <= i < order.len() && order[i] == u;
            assert(order[i] < xs.len());
        }
    }
    vstd::set_lib::lemma_subset_equality(named, all);
    assert(named.contains(k));
}

proof fn lemma_all_below(n: nat)
    requires
        n <= usize::MAX + 1,
    ensures
        Set::new(|u: usize| u < n).finite(),
        Set::new(|u: usize| u < n).len() == n,
    decreases n,
{
    let all = Set::new(|u: usize| u < n);
    if n == 0 {
        assert(all =~= Set::empty());
    } else {
        lemma_all_below((n - 1) as nat);
        let less = Set::new(|u: usize| u < n - 1);
        let last = (n - 1) as usize;
        assert(all =~= less.insert(last));
    }
}

/// The order of `xs`, with the index `k` of one more element at its place.
proof fn lemma_one_more<T: Ordered>(xs: Seq<T>, k: int, order: Seq<usize>, p: int) -> (r: Seq<usize>)
    requires
        0 <= k < xs.len(),
        k <= usize::MAX,
        is_order(xs, 0, k, order),
        0 <= p <= order.len(),
        forall|i: int|
            p <= i < order.len() ==> !T::no_later(xs[#[trigger] order[i] as int], xs[k]),
    ensures
        is_order(xs, 0, k + 1, r),
    decreases p,
{
    if p > 0 && !T::no_later(xs[order[p - 1] as int], xs[k]) {
        lemma_one_more(xs, k, order, p - 1)
    } else {
        let r = order.insert(p, k as usize);
        assert forall|i: int, j: int| 0 <= i < j < r.len() implies #[trigger] sorts_before(
            xs,
            r[i] as int,
            r[j] as int,
        ) by {
            let a = if i < p {
                i
            } else {
                i - 1
            };
            let b = if j < p {
                j
            } else {
                j - 1
            };
            if i != p && j != p {
                assert(r[i] == order[a] && r[j] == order[b]);
                assert(sorts_before(xs, order[a] as int, order[b] as int));
            } else if i == p {
                assert(r[j] == order[b]);
                assert(order[b] < k);
            } else {
                assert(r[i] == order[i]);
                assert(order[i] < k);
                assert(order[p - 1] < k);
                if i < p - 1 {
                    assert(sorts_before(xs, order[i] as int, order[p - 1] as int));
                    lemma_sorts_transitive(xs, order[i] as int, order[p - 1] as int, k);
                }
            }
        }
        assert forall|i: int| 0 <= i < r.len() implies 0 <= #[trigger] r[i] < k + 1 by {
            if i < p {
                assert(r[i] == order[i]);
            } else if i > p {
                assert(r[i] == order[i - 1]);
            }
        }
        r
    }
}

/// Every array has a sort.
pub proof fn orders_are_there<T: Ordered>(xs: Seq<T>, k: int) -> (r: Seq<usize>)
    requires
        xs.len() <= usize::MAX,
        0 <= k <= xs.len(),
    ensures
        is_order(xs, 0, k, r),
    decreases k,
{
    if k == 0 {
        Seq::empty()
    } else {
        let order = orders_are_there(xs, k - 1);
        lemma_one_more(xs, k - 1, order, order.len() as int)
    }
}

/// An array has one sort only.
pub proof fn orders_are_one<T: Ordered>(xs: Seq<T>, a: Seq<usize>, b: Seq<usize>)
    requires
        xs.len() <= usize::MAX,
        is_order(xs, 0, xs.len() as int, a),
        is_order(xs, 0, xs.len() as int, b),
    ensures
        a == b,
{
    lemma_same_to(xs, a, b, xs.len() as int);
    assert(a =~= b);
}

proof fn lemma_same_to<T: Ordered>(xs: Seq<T>, a: Seq<usize>, b: Seq<usize>, n: int)
    requires
        xs.len() <= usize::MAX,
        is_order(xs, 0, xs.len() as int, a),
        is_order(xs, 0, xs.len() as int, b),
        0 <= n <= xs.len(),
    ensures
        forall|i: int| 0 <= i < n ==> a[i] == b[i],
    decreases n,
{
    if n > 0 {
        lemma_same_to(xs, a, b, n - 1);
        let i = n - 1;
        assert(a[i] < xs.len() && b[i] < xs.len());
        order_names_all(xs, a, b[i]);
        order_names_all(xs, b, a[i]);
        let j = choose|j: int| 0 <= j < a.len() && a[j] == b[i];
        let k = choose|k: int| 0 <= k < b.len() && b[k] == a[i];
        if j < i {
            order_names_each_once(xs, 0, xs.len() as int, b, j, i);
        }
        if k < i {
            order_names_each_once(xs, 0, xs.len() as int, a, k, i);
        }
        if i < j && i < k {
            assert(sorts_before(xs, a[i] as int, a[j] as int));
            assert(sorts_before(xs, b[i] as int, b[k] as int));
        }
    }
}

/// The elements of a sorted array ascend.
pub proof fn sorted_ascends<T: Ordered>(xs: Seq<T>, order: Seq<usize>, i: int, j: int)
    requires
        is_order(xs, 0, xs.len() as int, order),
        0 <= i <= j < order.len(),
    ensures
        T::no_later(picked(xs, order)[i], picked(xs, order)[j]),
{
    if i < j {
        let (a, b) = (order[i] as int, order[j] as int);
        assert(sorts_before(xs, a, b));
        T::no_later_total(xs[a], xs[b]);
    } else {
        T::no_later_total(xs[order[i] as int], xs[order[i] as int]);
    }
}

} // verus!
