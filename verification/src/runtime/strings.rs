//! Strings: rows of bytes that are never changed in place.
use vstd::prelude::*;

verus! {

/// `sub` stands at index `i` of `s`.
pub open spec fn occurs_at(s: Seq<u8>, sub: Seq<u8>, i: int) -> bool {
    0 <= i && i + sub.len() <= s.len() && s.subrange(i, i + sub.len()) == sub
}

/// The first index from `i` on at which `sub` stands in `s`.
pub open spec fn first_from(s: Seq<u8>, sub: Seq<u8>, i: int) -> Option<int>
    decreases s.len() + 1 - i,
{
    if !(0 <= i <= s.len()) {
        None
    } else if occurs_at(s, sub, i) {
        Some(i)
    } else {
        first_from(s, sub, i + 1)
    }
}

/// The pieces of `s` from `start` on that occurrences of `sep`, which is not empty, part
/// from one another. Occurrences are taken from the left and do not overlap.
pub open spec fn pieces(s: Seq<u8>, sep: Seq<u8>, start: int) -> Seq<Seq<u8>>
    decreases s.len() - start,
{
    if !(0 <= start <= s.len()) || sep.len() == 0 {
        Seq::empty()
    } else {
        match first_from(s, sep, start) {
            Some(i) => if start <= i && i + sep.len() <= s.len() {
                seq![s.subrange(start, i)] + pieces(s, sep, i + sep.len())
            } else {
                Seq::empty()
            },
            None => seq![s.subrange(start, s.len() as int)],
        }
    }
}

/// What `split` answers. An empty separator parts nothing.
pub open spec fn split_of(s: Seq<u8>, sep: Seq<u8>) -> Seq<Seq<u8>> {
    if sep.len() == 0 {
        seq![s]
    } else {
        pieces(s, sep, 0)
    }
}

/// The parts one after the other, with `sep` between them.
pub open spec fn join_of(parts: Seq<Seq<u8>>, sep: Seq<u8>) -> Seq<u8>
    decreases parts.len(),
{
    if parts.len() == 0 {
        Seq::empty()
    } else if parts.len() == 1 {
        parts[0]
    } else {
        parts[0] + sep + join_of(parts.drop_first(), sep)
    }
}

/// `s`, `n` times.
pub open spec fn repeat_of(s: Seq<u8>, n: int) -> Seq<u8>
    decreases n,
{
    if n <= 0 {
        Seq::empty()
    } else {
        repeat_of(s, n - 1) + s
    }
}

/// A byte with its case changed, where it is an ASCII letter.
pub open spec fn case_of(b: u8, upper: bool) -> u8 {
    if upper && 97 <= b <= 122 {
        (b - 32) as u8
    } else if !upper && 65 <= b <= 90 {
        (b + 32) as u8
    } else {
        b
    }
}

/// A space, a tab, a line feed or a carriage return.
pub open spec fn is_space(b: u8) -> bool {
    b == 32 || b == 9 || b == 10 || b == 13
}

/// The first index from `i` on at which `s` holds no space.
pub open spec fn spaces_end(s: Seq<u8>, i: int) -> int
    decreases s.len() - i,
{
    if 0 <= i < s.len() && is_space(s[i]) {
        spaces_end(s, i + 1)
    } else {
        i
    }
}

/// The index after the last byte before `i` that is no space, but not before `start`.
pub open spec fn spaces_start(s: Seq<u8>, start: int, i: int) -> int
    decreases i - start,
{
    if start < i <= s.len() && is_space(s[i - 1]) {
        spaces_start(s, start, i - 1)
    } else {
        i
    }
}

/// `s` without the spaces at both of its ends.
pub open spec fn trim_of(s: Seq<u8>) -> Seq<u8> {
    let start = spaces_end(s, 0);
    s.subrange(start, spaces_start(s, start, s.len() as int))
}

/// What a row of byte strings stands for.
pub open spec fn texts_view(v: Seq<Vec<u8>>) -> Seq<Seq<u8>> {
    Seq::new(v.len(), |i: int| v[i]@)
}

/// The `count` bytes of `s` from index `start` on.
pub fn substr(s: &Vec<u8>, start: usize, count: usize) -> (r: Vec<u8>)
    requires
        start + count <= s@.len(),
    ensures
        r@ == s@.subrange(start as int, start + count),
{
    let mut r: Vec<u8> = Vec::new();
    let mut i: usize = 0;
    let n: usize = s.len();
    while i < count
        invariant
            0 <= i <= count,
            start + count <= n,
            n == s@.len(),
            r@ == s@.subrange(start as int, start + i),
        decreases count - i,
    {
        r.push(s[start + i]);
        i += 1;
        assert(r@ =~= s@.subrange(start as int, start + i));
    }
    r
}

/// Whether `sub` stands at index `i` of `s`.
pub fn eq_at(s: &Vec<u8>, i: usize, sub: &Vec<u8>) -> (r: bool)
    ensures
        r == occurs_at(s@, sub@, i as int),
{
    let n: usize = s.len();
    let m: usize = sub.len();
    if i > n || n - i < m {
        return false;
    }
    let mut j: usize = 0;
    while j < m
        invariant
            0 <= j <= m,
            m == sub@.len(),
            i + m <= n,
            n == s@.len(),
            forall|k: int| 0 <= k < j ==> s@[i + k] == sub@[k],
        decreases m - j,
    {
        if s[i + j] != sub[j] {
            proof {
                assert(s@.subrange(i as int, i + m)[j as int] != sub@[j as int]);
            }
            return false;
        }
        j += 1;
    }
    assert(s@.subrange(i as int, i + m) =~= sub@);
    true
}

/// The first index from `start` on at which `sub` stands in `s`.
fn find_from(s: &Vec<u8>, sub: &Vec<u8>, start: usize) -> (r: Option<usize>)
    requires
        start <= s@.len(),
    ensures
        match r {
            Some(i) => first_from(s@, sub@, start as int) == Some(i as int) && start <= i && i
                + sub@.len() <= s@.len(),
            None => first_from(s@, sub@, start as int) is None,
        },
{
    let n: usize = s.len();
    let m: usize = sub.len();
    let mut i: usize = start;
    while i <= n && m <= n - i
        invariant
            start <= i <= n + 1,
            n == s@.len(),
            m == sub@.len(),
            n < usize::MAX || i <= n,
            first_from(s@, sub@, start as int) == first_from(s@, sub@, i as int),
        decreases n + 1 - i,
    {
        if eq_at(s, i, sub) {
            return Some(i);
        }
        if i == n {
            proof {
                assert(first_from(s@, sub@, n + 1) is None);
            }
            return None;
        }
        i += 1;
    }
    proof {
        lemma_too_short(s@, sub@, i as int);
    }
    None
}

proof fn lemma_too_short(s: Seq<u8>, sub: Seq<u8>, i: int)
    requires
        0 <= i,
        i + sub.len() > s.len(),
    ensures
        first_from(s, sub, i) is None,
    decreases s.len() + 1 - i,
{
    if i <= s.len() {
        lemma_too_short(s, sub, i + 1);
    }
}

/// The index of the first occurrence of `sub` in `s`, or `-1`.
pub fn find(s: &Vec<u8>, sub: &Vec<u8>) -> (r: i64)
    requires
        s@.len() <= i64::MAX,
    ensures
        r == match first_from(s@, sub@, 0) {
            Some(i) => i,
            None => -1,
        },
{
    match find_from(s, sub, 0) {
        Some(i) => i as i64,
        None => -1,
    }
}

/// Whether `sub` occurs in `s`.
pub fn contains(s: &Vec<u8>, sub: &Vec<u8>) -> (r: bool)
    ensures
        r == exists|i: int| occurs_at(s@, sub@, i),
{
    match find_from(s, sub, 0) {
        Some(i) => {
            proof {
                lemma_first_occurs(s@, sub@, 0);
            }
            true
        },
        None => {
            proof {
                lemma_first_occurs(s@, sub@, 0);
            }
            false
        },
    }
}

/// What is first: an occurrence, with none before it; or there is none at all.
pub proof fn lemma_first_occurs(s: Seq<u8>, sub: Seq<u8>, i: int)
    requires
        0 <= i,
    ensures
        match first_from(s, sub, i) {
            Some(k) => i <= k && occurs_at(s, sub, k) && forall|j: int|
                i <= j < k ==> !occurs_at(s, sub, j),
            None => forall|j: int| i <= j ==> !occurs_at(s, sub, j),
        },
    decreases s.len() + 1 - i,
{
    if i <= s.len() && !occurs_at(s, sub, i) {
        lemma_first_occurs(s, sub, i + 1);
    }
}

/// The pieces of `s` that occurrences of `sep` part from one another.
pub fn split(s: &Vec<u8>, sep: &Vec<u8>) -> (r: Vec<Vec<u8>>)
    ensures
        texts_view(r@) == split_of(s@, sep@),
{
    let mut r: Vec<Vec<u8>> = Vec::new();
    let n: usize = s.len();
    let m: usize = sep.len();
    assert(texts_view(r@) =~= Seq::empty());
    if m == 0 {
        let whole = substr(s, 0, n);
        assert(whole@ =~= s@);
        r.push(whole);
        assert(texts_view(r@) =~= seq![s@]);
        return r;
    }
    let mut start: usize = 0;
    assert(Seq::<Seq<u8>>::empty() + pieces(s@, sep@, 0) =~= pieces(s@, sep@, 0));
    loop
        invariant
            n == s@.len(),
            m == sep@.len(),
            m > 0,
            start <= n,
            split_of(s@, sep@) == texts_view(r@) + pieces(s@, sep@, start as int),
        decreases n - start,
    {
        let ghost before = texts_view(r@);
        match find_from(s, sep, start) {
            Some(i) => {
                let piece = substr(s, start, i - start);
                let ghost rest = pieces(s@, sep@, i + m);
                r.push(piece);
                proof {
                    assert(texts_view(r@) =~= before.push(s@.subrange(start as int, i as int)));
                    assert(before + (seq![s@.subrange(start as int, i as int)] + rest)
                        =~= texts_view(r@) + rest);
                }
                start = i + m;
            },
            None => {
                let piece = substr(s, start, n - start);
                r.push(piece);
                proof {
                    assert(texts_view(r@) =~= before + seq![s@.subrange(start as int, n as int)]);
                }
                return r;
            },
        }
    }
}

/// The parts one after the other, with `sep` between them.
pub fn join(parts: &Vec<Vec<u8>>, sep: &Vec<u8>) -> (r: Vec<u8>)
    ensures
        r@ == join_of(texts_view(parts@), sep@),
{
    let ghost all = texts_view(parts@);
    let mut r: Vec<u8> = Vec::new();
    let mut i: usize = 0;
    assert(all.take(0) =~= Seq::empty());
    while i < parts.len()
        invariant
            0 <= i <= parts@.len(),
            all == texts_view(parts@),
            r@ == join_of(all.take(i as int), sep@),
        decreases parts@.len() - i,
    {
        let ghost before = r@;
        if i > 0 {
            append_bytes(&mut r, sep);
        }
        append_bytes(&mut r, &parts[i]);
        proof {
            lemma_join_push(all.take(i as int), all[i as int], sep@);
            assert(all.take(i + 1) =~= all.take(i as int).push(all[i as int]));
            assert(before + sep@ + all[i as int] =~= before + sep@ + parts@[i as int]@);
            if i == 0 {
                assert(r@ =~= all[0]);
            }
        }
        i += 1;
    }
    assert(all.take(i as int) =~= all);
    r
}

/// One more part at the end.
pub proof fn lemma_join_push(parts: Seq<Seq<u8>>, last: Seq<u8>, sep: Seq<u8>)
    ensures
        join_of(parts.push(last), sep) == if parts.len() == 0 {
            last
        } else {
            join_of(parts, sep) + sep + last
        },
    decreases parts.len(),
{
    let more = parts.push(last);
    if parts.len() > 0 {
        assert(more.drop_first() =~= parts.drop_first().push(last));
        lemma_join_push(parts.drop_first(), last, sep);
        if parts.len() == 1 {
            assert(parts.drop_first().len() == 0);
            assert(join_of(more, sep) == more[0] + sep + last);
        } else {
            let rest = join_of(parts.drop_first(), sep);
            assert(parts[0] + sep + (rest + sep + last) =~= parts[0] + sep + rest + sep + last);
        }
    }
}

fn append_bytes(out: &mut Vec<u8>, s: &Vec<u8>)
    ensures
        final(out)@ == old(out)@ + s@,
{
    let ghost before = out@;
    let mut i: usize = 0;
    while i < s.len()
        invariant
            0 <= i <= s@.len(),
            out@ == before + s@.take(i as int),
        decreases s@.len() - i,
    {
        out.push(s[i]);
        i += 1;
        assert(out@ =~= before + s@.take(i as int));
    }
    assert(s@.take(i as int) =~= s@);
}

/// `s` with its ASCII letters in upper or lower case.
pub fn to_case(s: &Vec<u8>, upper: bool) -> (r: Vec<u8>)
    ensures
        r@ == Seq::new(s@.len(), |i: int| case_of(s@[i], upper)),
{
    let mut r: Vec<u8> = Vec::new();
    let mut i: usize = 0;
    while i < s.len()
        invariant
            0 <= i <= s@.len(),
            r@.len() == i,
            forall|k: int| 0 <= k < i ==> r@[k] == case_of(s@[k], upper),
        decreases s@.len() - i,
    {
        let b = s[i];
        if upper && 97 <= b && b <= 122 {
            r.push(b - 32);
        } else if !upper && 65 <= b && b <= 90 {
            r.push(b + 32);
        } else {
            r.push(b);
        }
        i += 1;
    }
    assert(r@ =~= Seq::new(s@.len(), |i: int| case_of(s@[i], upper)));
    r
}

/// Whether `s` starts with `affix`, or ends with it where `at_end` says so.
pub open spec fn affix_of(s: Seq<u8>, affix: Seq<u8>, at_end: bool) -> bool {
    affix.len() <= s.len() && if at_end {
        s.subrange(s.len() - affix.len(), s.len() as int) == affix
    } else {
        s.subrange(0, affix.len() as int) == affix
    }
}

/// Whether the byte is a space, a tab, a line feed or a carriage return.
pub fn byte_is_ws(b: u8) -> (r: bool)
    ensures
        r == is_space(b),
{
    b == 32 || b == 9 || b == 10 || b == 13
}

/// `s` without the spaces at both of its ends.
pub fn trim(s: &Vec<u8>) -> (r: Vec<u8>)
    ensures
        r@ == trim_of(s@),
{
    let n: usize = s.len();
    let mut start: usize = 0;
    while start < n && byte_is_ws(s[start])
        invariant
            0 <= start <= n,
            n == s@.len(),
            spaces_end(s@, 0) == spaces_end(s@, start as int),
        decreases n - start,
    {
        start += 1;
    }
    let mut end: usize = n;
    while end > start && byte_is_ws(s[end - 1])
        invariant
            start <= end <= n,
            n == s@.len(),
            spaces_start(s@, start as int, n as int) == spaces_start(
                s@,
                start as int,
                end as int,
            ),
        decreases end - start,
    {
        end -= 1;
    }
    substr(s, start, end - start)
}

/// `s`, `n` times; nothing where `n` is not positive.
pub fn repeat(s: &Vec<u8>, n: i64) -> (r: Vec<u8>)
    ensures
        r@ == repeat_of(s@, n as int),
{
    let mut r: Vec<u8> = Vec::new();
    let mut i: i64 = 0;
    assert(r@ =~= repeat_of(s@, 0));
    while i < n
        invariant
            0 <= i,
            n > 0 ==> i <= n,
            n <= 0 ==> i == 0,
            r@ == repeat_of(s@, i as int),
        decreases n - i,
    {
        append_bytes(&mut r, s);
        i += 1;
    }
    r
}

/// Whether `s` starts with `affix`, or ends with it where `at_end` says so.
pub fn has_affix(s: &Vec<u8>, affix: &Vec<u8>, at_end: bool) -> (r: bool)
    ensures
        r == affix_of(s@, affix@, at_end),
{
    let n: usize = s.len();
    let m: usize = affix.len();
    if m > n {
        return false;
    }
    let at: usize = if at_end {
        n - m
    } else {
        0
    };
    eq_at(s, at, affix)
}

/// The length of the first line of `s`, without the line feed.
pub fn line_len(s: &Vec<u8>) -> (n: usize)
    ensures
        n == match first_from(s@, seq![10u8], 0) {
            Some(i) => i,
            None => s@.len() as int,
        },
{
    let mut feed: Vec<u8> = Vec::new();
    feed.push(10);
    assert(feed@ =~= seq![10u8]);
    match find_from(s, &feed, 0) {
        Some(i) => i,
        None => s.len(),
    }
}

/// `s` with every occurrence of `from` replaced by `to`; an empty `from` replaces nothing.
pub fn replace(s: &Vec<u8>, from: &Vec<u8>, to: &Vec<u8>) -> (r: Vec<u8>)
    ensures
        r@ == join_of(split_of(s@, from@), to@),
{
    join(&split(s, from), to)
}

// Laws.

proof fn lemma_join_pieces(s: Seq<u8>, sep: Seq<u8>, start: int)
    requires
        0 <= start <= s.len(),
        sep.len() > 0,
    ensures
        pieces(s, sep, start).len() > 0,
        join_of(pieces(s, sep, start), sep) == s.subrange(start, s.len() as int),
    decreases s.len() - start,
{
    lemma_first_occurs(s, sep, start);
    match first_from(s, sep, start) {
        Some(i) => {
            let next = i + sep.len();
            lemma_join_pieces(s, sep, next);
            let all = pieces(s, sep, start);
            let rest = pieces(s, sep, next);
            assert(all.drop_first() =~= rest);
            assert(all.len() == rest.len() + 1);
            assert(s.subrange(start, i) + sep + s.subrange(next, s.len() as int) =~= s.subrange(
                start,
                s.len() as int,
            )) by {
                assert(s.subrange(i, next) == sep);
                assert(s.subrange(start, s.len() as int) =~= s.subrange(start, i) + s.subrange(
                    i,
                    next,
                ) + s.subrange(next, s.len() as int));
            }
        },
        None => {},
    }
}

/// Joining the pieces of a split with the separator gives the string back.
pub proof fn join_undoes_split(s: Seq<u8>, sep: Seq<u8>)
    ensures
        join_of(split_of(s, sep), sep) == s,
{
    if sep.len() > 0 {
        lemma_join_pieces(s, sep, 0);
        assert(s.subrange(0, s.len() as int) =~= s);
    }
}

/// A string has an occurrence of another exactly where a search from its start finds one.
pub proof fn contains_is_found(s: Seq<u8>, sub: Seq<u8>)
    ensures
        first_from(s, sub, 0) is Some <==> exists|i: int| occurs_at(s, sub, i),
{
    lemma_first_occurs(s, sub, 0);
}

/// The empty string is found at the start of every string.
pub proof fn empty_is_found_first(s: Seq<u8>)
    ensures
        first_from(s, Seq::empty(), 0) == Some(0int),
{
    assert(s.subrange(0, 0) =~= Seq::<u8>::empty());
}

/// A piece of a split holds no occurrence of the separator.
pub proof fn pieces_are_free_of_separators(s: Seq<u8>, sep: Seq<u8>, start: int, k: int, i: int)
    requires
        0 <= start <= s.len(),
        sep.len() > 0,
        0 <= k < pieces(s, sep, start).len(),
    ensures
        !occurs_at(pieces(s, sep, start)[k], sep, i),
    decreases s.len() - start,
{
    lemma_first_occurs(s, sep, start);
    match first_from(s, sep, start) {
        Some(at) => {
            let all = pieces(s, sep, start);
            let rest = pieces(s, sep, at + sep.len());
            if k == 0 {
                let p = s.subrange(start, at);
                if occurs_at(p, sep, i) {
                    assert(s.subrange(start + i, start + i + sep.len()) =~= p.subrange(
                        i,
                        i + sep.len(),
                    ));
                    assert(occurs_at(s, sep, start + i));
                }
            } else {
                assert(all[k] == rest[k - 1]);
                pieces_are_free_of_separators(s, sep, at + sep.len(), k - 1, i);
            }
        },
        None => {
            let p = s.subrange(start, s.len() as int);
            if occurs_at(p, sep, i) {
                assert(s.subrange(start + i, start + i + sep.len()) =~= p.subrange(
                    i,
                    i + sep.len(),
                ));
                assert(occurs_at(s, sep, start + i));
            }
        },
    }
}

/// Trimming a string that was trimmed changes nothing.
pub proof fn trim_is_idempotent(s: Seq<u8>)
    ensures
        trim_of(trim_of(s)) == trim_of(s),
{
    let start = spaces_end(s, 0);
    let n = s.len() as int;
    lemma_spaces_end(s, 0);
    lemma_spaces_start(s, start, n);
    let end = spaces_start(s, start, n);
    let t = s.subrange(start, end);
    lemma_spaces_end(t, 0);
    if t.len() > 0 {
        assert(t[0] == s[start]);
        assert(spaces_end(t, 0) == 0);
        assert(t[t.len() - 1] == s[end - 1]);
        assert(spaces_start(t, 0, t.len() as int) == t.len());
        assert(t.subrange(0, t.len() as int) =~= t);
    } else {
        assert(spaces_end(t, 0) == 0);
        assert(spaces_start(t, 0, 0) == 0);
        assert(t.subrange(0, 0) =~= t);
    }
}

pub proof fn lemma_spaces_end(s: Seq<u8>, i: int)
    requires
        0 <= i <= s.len(),
    ensures
        i <= spaces_end(s, i) <= s.len(),
        spaces_end(s, i) < s.len() ==> !is_space(s[spaces_end(s, i)]),
    decreases s.len() - i,
{
    if i < s.len() && is_space(s[i]) {
        lemma_spaces_end(s, i + 1);
    }
}

pub proof fn lemma_spaces_start(s: Seq<u8>, start: int, i: int)
    requires
        0 <= start <= i <= s.len(),
    ensures
        start <= spaces_start(s, start, i) <= i,
        spaces_start(s, start, i) > start ==> !is_space(s[spaces_start(s, start, i) - 1]),
    decreases i - start,
{
    if start < i && is_space(s[i - 1]) {
        lemma_spaces_start(s, start, i - 1);
    }
}

/// Changing the case leaves the length, and doing it twice is doing it once.
pub proof fn case_is_idempotent(b: u8, upper: bool)
    ensures
        case_of(case_of(b, upper), upper) == case_of(b, upper),
{
}

} // verus!
