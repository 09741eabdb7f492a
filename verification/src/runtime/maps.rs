//! Maps from strings to slots: a hash table with chains.
use super::strings::texts_view;
use vstd::prelude::*;

verus! {

/// A hash table starts with this many buckets.
pub const FIRST_BUCKETS: usize = 64;

/// An entry of a map.
pub ghost struct EntryV<V> {
    pub key: Seq<u8>,
    pub value: V,
}

/// The buckets of a map. The last entry of a bucket is the head of its chain.
pub type Buckets<V> = Seq<Seq<EntryV<V>>>;

/// One step of the hash: a byte is mixed in, and the whole multiplied by a prime.
pub open spec fn mixed(h: u64, b: u8) -> u64 {
    (h ^ (b as u64)).wrapping_mul(1099511628211)
}

/// The FNV-1a hash of a string.
pub open spec fn hash_of(s: Seq<u8>) -> u64
    decreases s.len(),
{
    if s.len() == 0 {
        14695981039346656037
    } else {
        mixed(hash_of(s.drop_last()), s.last())
    }
}

/// The bucket of a key.
pub open spec fn home<V>(t: Buckets<V>, key: Seq<u8>) -> int {
    hash_of(key) as int % t.len() as int
}

/// Where a key stands in a chain, looked for from its head on.
pub open spec fn place<V>(chain: Seq<EntryV<V>>, key: Seq<u8>) -> Option<int>
    decreases chain.len(),
{
    if chain.len() == 0 {
        None
    } else if chain.last().key == key {
        Some(chain.len() - 1)
    } else {
        place(chain.drop_last(), key)
    }
}

/// The value of a key.
pub open spec fn lookup<V>(t: Buckets<V>, key: Seq<u8>) -> Option<V> {
    match place(t[home(t, key)], key) {
        Some(i) => Some(t[home(t, key)][i].value),
        None => None,
    }
}

/// The number of entries in the first `n` buckets.
pub open spec fn entries_in<V>(t: Buckets<V>, n: int) -> nat
    decreases n,
{
    if n <= 0 {
        0
    } else {
        entries_in(t, n - 1) + t[n - 1].len()
    }
}

/// The number of entries.
pub open spec fn entries<V>(t: Buckets<V>) -> nat {
    entries_in(t, t.len() as int)
}

/// There are buckets; every key is in its own, and no key is there twice.
pub open spec fn is_table<V>(t: Buckets<V>) -> bool {
    &&& t.len() > 0
    &&& forall|b: int, i: int|
        #![trigger t[b][i]]
        0 <= b < t.len() && 0 <= i < t[b].len() ==> home(t, t[b][i].key) == b
    &&& forall|b: int, i: int, j: int|
        #![trigger t[b][i], t[b][j]]
        0 <= b < t.len() && 0 <= i < j < t[b].len() ==> t[b][i].key != t[b][j].key
}

/// The table with this entry at the head of the chain of its key.
pub open spec fn linked<V>(t: Buckets<V>, e: EntryV<V>) -> Buckets<V> {
    t.update(home(t, e.key), t[home(t, e.key)].push(e))
}

/// Links the first `i` entries of bucket `b` of `t`, from the head of the chain on, and
/// those of the buckets after it, into `into`.
pub open spec fn relinked<V>(t: Buckets<V>, b: int, i: int, into: Buckets<V>) -> Buckets<V>
    decreases t.len() - b, i,
{
    if !(0 <= b < t.len()) {
        into
    } else if 0 < i <= t[b].len() {
        relinked(t, b, i - 1, linked(into, t[b][i - 1]))
    } else {
        relinked(
            t,
            b + 1,
            if b + 1 < t.len() {
                t[b + 1].len() as int
            } else {
                0
            },
            into,
        )
    }
}

/// As many buckets as asked for, with nothing in them.
pub open spec fn empty_buckets<V>(n: nat) -> Buckets<V> {
    Seq::new(n, |b: int| Seq::empty())
}

/// The table with twice as many buckets.
pub open spec fn grown<V>(t: Buckets<V>) -> Buckets<V> {
    relinked(t, 0, t[0].len() as int, empty_buckets(t.len() * 2))
}

/// More than three entries to four buckets, and room for twice as many buckets.
pub open spec fn is_crowded<V>(t: Buckets<V>) -> bool {
    entries(t) * 4 > t.len() * 3 && t.len() * 2 <= usize::MAX
}

/// The table with a value for a key: its entry changed, or a new one at the head of the
/// chain, after which a crowded table grows.
pub open spec fn put_of<V>(t: Buckets<V>, key: Seq<u8>, value: V) -> Buckets<V> {
    let b = home(t, key);
    match place(t[b], key) {
        Some(i) => t.update(b, t[b].update(i, EntryV { key, value })),
        None => {
            let more = linked(t, EntryV { key, value });
            if is_crowded(more) {
                grown(more)
            } else {
                more
            }
        },
    }
}

/// The table without a key.
pub open spec fn del_of<V>(t: Buckets<V>, key: Seq<u8>) -> Buckets<V> {
    let b = home(t, key);
    match place(t[b], key) {
        Some(i) => t.update(b, t[b].remove(i)),
        None => t,
    }
}

/// The keys of a chain from its head on.
pub open spec fn chain_keys<V>(chain: Seq<EntryV<V>>) -> Seq<Seq<u8>> {
    Seq::new(chain.len(), |i: int| chain[chain.len() - 1 - i].key)
}

/// The keys of the first `n` buckets.
pub open spec fn keys_in<V>(t: Buckets<V>, n: int) -> Seq<Seq<u8>>
    decreases n,
{
    if n <= 0 {
        Seq::empty()
    } else {
        keys_in(t, n - 1) + chain_keys(t[n - 1])
    }
}

/// The keys, bucket by bucket.
pub open spec fn keys_of<V>(t: Buckets<V>) -> Seq<Seq<u8>> {
    keys_in(t, t.len() as int)
}

/// An entry of a map, with the hash of its key.
#[derive(Debug)]
pub struct Entry {
    pub key: Vec<u8>,
    pub hash: u64,
    pub value: i64,
}

/// A map.
#[derive(Debug)]
pub struct Table {
    count: usize,
    buckets: Vec<Vec<Entry>>,
}

pub open spec fn chain_view(chain: Seq<Entry>) -> Seq<EntryV<i64>> {
    Seq::new(chain.len(), |i: int| EntryV { key: chain[i].key@, value: chain[i].value })
}

pub open spec fn buckets_view(buckets: Seq<Vec<Entry>>) -> Buckets<i64> {
    Seq::new(buckets.len(), |b: int| chain_view(buckets[b]@))
}

/// Every entry knows the hash of its key.
pub open spec fn hashes_known(buckets: Seq<Vec<Entry>>) -> bool {
    forall|b: int, i: int|
        #![trigger buckets[b]@[i]]
        0 <= b < buckets.len() && 0 <= i < buckets[b]@.len() ==> buckets[b]@[i].hash == hash_of(
            buckets[b]@[i].key@,
        )
}

impl View for Table {
    type V = Buckets<i64>;

    closed spec fn view(&self) -> Buckets<i64> {
        buckets_view(self.buckets@)
    }
}

/// The FNV-1a hash of a string.
pub fn str_hash(s: &Vec<u8>) -> (h: u64)
    ensures
        h == hash_of(s@),
{
    let mut h: u64 = 14695981039346656037;
    let mut i: usize = 0;
    assert(s@.take(0) =~= Seq::empty());
    while i < s.len()
        invariant
            0 <= i <= s@.len(),
            h == hash_of(s@.take(i as int)),
        decreases s@.len() - i,
    {
        h = (h ^ (s[i] as u64)).wrapping_mul(1099511628211);
        i += 1;
        assert(s@.take(i as int).drop_last() =~= s@.take(i - 1));
    }
    assert(s@.take(i as int) =~= s@);
    h
}

fn bytes_eq(a: &Vec<u8>, b: &Vec<u8>) -> (r: bool)
    ensures
        r == (a@ == b@),
{
    if a.len() != b.len() {
        return false;
    }
    let mut i: usize = 0;
    while i < a.len()
        invariant
            0 <= i <= a@.len(),
            a@.len() == b@.len(),
            forall|k: int| 0 <= k < i ==> a@[k] == b@[k],
        decreases a@.len() - i,
    {
        if a[i] != b[i] {
            return false;
        }
        i += 1;
    }
    assert(a@ =~= b@);
    true
}

fn bytes_copy(a: &Vec<u8>) -> (r: Vec<u8>)
    ensures
        r@ == a@,
{
    let mut r: Vec<u8> = Vec::new();
    let mut i: usize = 0;
    while i < a.len()
        invariant
            0 <= i <= a@.len(),
            r@ == a@.take(i as int),
        decreases a@.len() - i,
    {
        r.push(a[i]);
        i += 1;
        assert(r@ =~= a@.take(i as int));
    }
    assert(a@.take(i as int) =~= a@);
    r
}

proof fn lemma_place<V>(chain: Seq<EntryV<V>>, key: Seq<u8>)
    ensures
        match place(chain, key) {
            Some(i) => 0 <= i < chain.len() && chain[i].key == key && forall|j: int|
                i < j < chain.len() ==> chain[j].key != key,
            None => forall|j: int| 0 <= j < chain.len() ==> chain[j].key != key,
        },
    decreases chain.len(),
{
    if chain.len() > 0 && chain.last().key != key {
        lemma_place(chain.drop_last(), key);
        let less = chain.drop_last();
        match place(less, key) {
            Some(i) => {
                assert(chain[i] == less[i]);
                assert forall|j: int| i < j < chain.len() implies chain[j].key != key by {
                    if j < chain.len() - 1 {
                        assert(chain[j] == less[j]);
                    }
                }
            },
            None => {
                assert forall|j: int| 0 <= j < chain.len() implies chain[j].key != key by {
                    if j < chain.len() - 1 {
                        assert(chain[j] == less[j]);
                    }
                }
            },
        }
    }
}

proof fn lemma_home<V>(t: Buckets<V>, key: Seq<u8>)
    requires
        t.len() > 0,
    ensures
        0 <= home(t, key) < t.len(),
{
    assert(0 <= hash_of(key) as int % t.len() as int && (hash_of(key) as int) % (t.len() as int)
        < t.len()) by (nonlinear_arith)
        requires
            t.len() > 0,
    ;
}

proof fn lemma_entries_update<V>(t: Buckets<V>, b: int, chain: Seq<EntryV<V>>, n: int)
    requires
        0 <= b < t.len(),
        0 <= n <= t.len(),
    ensures
        entries_in(t.update(b, chain), n) == if b < n {
            entries_in(t, n) - t[b].len() + chain.len()
        } else {
            entries_in(t, n) as int
        },
    decreases n,
{
    if n > 0 {
        lemma_entries_update(t, b, chain, n - 1);
    }
}

proof fn lemma_entries_empty<V>(m: nat, n: int)
    requires
        n <= m,
    ensures
        entries_in(empty_buckets::<V>(m), n) == 0,
    decreases n,
{
    if n > 0 {
        lemma_entries_empty::<V>(m, n - 1);
    }
}

proof fn lemma_chain_below<V>(t: Buckets<V>, b: int, n: int)
    requires
        0 <= b < n <= t.len(),
    ensures
        t[b].len() <= entries_in(t, n),
    decreases n,
{
    if b < n - 1 {
        lemma_chain_below(t, b, n - 1);
    }
}

impl Table {
    /// What holds of every map.
    pub closed spec fn is_well_formed(&self) -> bool {
        &&& is_table(self@)
        &&& hashes_known(self.buckets@)
        &&& self.count == entries(self@)
    }

    /// What holds of every map, spelled out.
    pub proof fn well_formed(&self)
        requires
            self.is_well_formed(),
        ensures
            is_table(self@),
    {
    }

    /// A map without entries.
    pub fn new() -> (r: Table)
        ensures
            r.is_well_formed(),
            r@ == empty_buckets::<i64>(FIRST_BUCKETS as nat),
    {
        let buckets = fresh_buckets(FIRST_BUCKETS);
        let r = Table { count: 0, buckets };
        proof {
            lemma_entries_empty::<i64>(FIRST_BUCKETS as nat, FIRST_BUCKETS as int);
        }
        r
    }

    /// Where the key stands: its bucket, and its index there.
    fn find(&self, key: &Vec<u8>) -> (r: (usize, Option<usize>))
        requires
            self.is_well_formed(),
        ensures
            r.0 == home(self@, key@),
            r.0 < self.buckets@.len(),
            match r.1 {
                Some(i) => place(self@[r.0 as int], key@) == Some(i as int) && i
                    < self.buckets@[r.0 as int]@.len(),
                None => place(self@[r.0 as int], key@) is None,
            },
    {
        let hash = str_hash(key);
        proof {
            lemma_home(self@, key@);
        }
        let b: usize = (hash % (self.buckets.len() as u64)) as usize;
        let chain = &self.buckets[b];
        let ghost all = self@[b as int];
        let mut i: usize = chain.len();
        assert(all.take(all.len() as int) =~= all);
        while i > 0
            invariant
                b < self.buckets@.len(),
                chain == self.buckets@[b as int],
                all == chain_view(chain@),
                all == self@[b as int],
                b == home(self@, key@),
                0 <= i <= chain@.len(),
                hash == hash_of(key@),
                hashes_known(self.buckets@),
                place(all, key@) == place(all.take(i as int), key@),
            decreases i,
        {
            let ghost head = all.take(i as int);
            i -= 1;
            proof {
                assert(head.drop_last() =~= all.take(i as int));
                assert(self.buckets@[b as int]@[i as int].hash == hash_of(
                    self.buckets@[b as int]@[i as int].key@,
                ));
            }
            if chain[i].hash == hash && bytes_eq(&chain[i].key, key) {
                return (b, Some(i));
            }
        }
        (b, None)
    }

    /// The value of a key, or what the program ends with where the key has none.
    pub fn fetch(&self, key: &Vec<u8>) -> (r: Result<i64, &'static str>)
        requires
            self.is_well_formed(),
        ensures
            match r {
                Ok(v) => lookup(self@, key@) == Some(v),
                Err(m) => lookup(self@, key@) is None && m@ == "lumo: key not found\n"@,
            },
    {
        match self.get(key) {
            Some(v) => Ok(v),
            None => Err("lumo: key not found\n"),
        }
    }

    /// The value of a key.
    pub fn get(&self, key: &Vec<u8>) -> (r: Option<i64>)
        requires
            self.is_well_formed(),
        ensures
            r == lookup(self@, key@),
    {
        let (b, at) = self.find(key);
        match at {
            Some(i) => Some(self.buckets[b][i].value),
            None => None,
        }
    }

    /// Whether there is a value for a key.
    pub fn has(&self, key: &Vec<u8>) -> (r: bool)
        requires
            self.is_well_formed(),
        ensures
            r == (lookup(self@, key@) is Some),
    {
        self.get(key).is_some()
    }

    /// The number of entries.
    pub fn len(&self) -> (r: usize)
        requires
            self.is_well_formed(),
        ensures
            r == entries(self@),
    {
        self.count
    }

    /// Gives a key a value.
    pub fn put(&mut self, key: &Vec<u8>, value: i64)
        requires
            old(self).is_well_formed(),
            entries(old(self)@) < usize::MAX,
        ensures
            final(self).is_well_formed(),
            final(self)@ == put_of(old(self)@, key@, value),
    {
        let (b, at) = self.find(key);
        let ghost t = self@;
        proof {
            lemma_home(t, key@);
            lemma_place(t[b as int], key@);
        }
        match at {
            Some(i) => {
                let hash = self.buckets[b][i].hash;
                let ghost was = self.buckets@;
                self.buckets[b][i] = Entry { key: bytes_copy(key), hash, value };
                proof {
                    let e = EntryV { key: key@, value };
                    assert(chain_view(self.buckets@[b as int]@) =~= t[b as int].update(
                        i as int,
                        e,
                    ));
                    assert(self@ =~= t.update(b as int, t[b as int].update(i as int, e)));
                    lemma_entries_update(
                        t,
                        b as int,
                        t[b as int].update(i as int, e),
                        t.len() as int,
                    );
                    assert(was[b as int]@[i as int].hash == hash_of(was[b as int]@[i as int].key@));
                    assert(t[b as int][i as int].key == key@);
                    lemma_update_is_table(t, b as int, i as int, e);
                }
            },
            None => {
                let entry = Entry { key: bytes_copy(key), hash: str_hash(key), value };
                let ghost e = EntryV { key: key@, value };
                proof {
                    lemma_linked(t, e);
                    lemma_chain_below(t, b as int, t.len() as int);
                }
                self.buckets[b].push(entry);
                self.count += 1;
                let ghost more = linked(t, e);
                proof {
                    assert(chain_view(self.buckets@[b as int]@) =~= t[b as int].push(e));
                    assert(self@ =~= more);
                }
                let n: usize = self.buckets.len();
                if (self.count as u128) * 4 > (n as u128) * 3 && n <= usize::MAX / 2 {
                    self.grow();
                }
            },
        }
    }

    /// Doubles the number of buckets.
    fn grow(&mut self)
        requires
            old(self).is_well_formed(),
            old(self)@.len() * 2 <= usize::MAX,
        ensures
            final(self).is_well_formed(),
            final(self)@ == grown(old(self)@),
    {
        let ghost t = self@;
        let ghost all = entries(t);
        let n: usize = self.buckets.len();
        let mut fresh = fresh_buckets(n * 2);
        let mut b: usize = 0;
        proof {
            lemma_entries_empty::<i64>((n * 2) as nat, n * 2);
            assert(buckets_view(fresh@) =~= empty_buckets::<i64>((n * 2) as nat));
            lemma_empty_fits(t, (n * 2) as nat);
        }
        while b < n
            invariant
                0 <= b <= n,
                n > 0,
                n == self.buckets@.len(),
                n == t.len(),
                n * 2 == fresh@.len(),
                n * 2 <= usize::MAX,
                self.buckets@.len() == t.len(),
                is_table(t),
                hashes_known(self.buckets@),
                forall|c: int|
                    b <= c < n ==> chain_view(#[trigger] self.buckets@[c]@) == t[c],
                hashes_known(fresh@),
                b < n ==> fits(t, b as int, t[b as int].len() as int, buckets_view(fresh@)),
                b == n ==> is_table(buckets_view(fresh@)),
                b < n ==> grown(t) == relinked(
                    t,
                    b as int,
                    t[b as int].len() as int,
                    buckets_view(fresh@),
                ),
                b == n ==> grown(t) == buckets_view(fresh@),
                entries(buckets_view(fresh@)) == entries_in(t, b as int),
                all == entries(t),
                self.count == all,
            decreases n - b,
        {
            let mut chain: Vec<Entry> = Vec::new();
            std::mem::swap(&mut chain, &mut self.buckets[b]);
            let ghost was = chain@;
            assert(chain_view(was) == t[b as int]);
            assert(forall|i: int| 0 <= i < was.len() ==> (#[trigger] was[i]).hash == hash_of(was[i].key@));
            while chain.len() > 0
                invariant
                    0 <= b < n,
                    n == t.len(),
                    n * 2 == fresh@.len(),
                    is_table(t),
                    hashes_known(fresh@),
                    chain_view(was) == t[b as int],
                    forall|i: int|
                        0 <= i < was.len() ==> (#[trigger] was[i]).hash == hash_of(was[i].key@),
                    chain@.len() <= was.len(),
                    chain@ == was.take(chain@.len() as int),
                    fits(t, b as int, chain@.len() as int, buckets_view(fresh@)),
                    grown(t) == relinked(t, b as int, chain@.len() as int, buckets_view(fresh@)),
                    entries(buckets_view(fresh@)) == entries_in(t, b as int) + was.len()
                        - chain@.len(),
                decreases chain@.len(),
            {
                let ghost i = chain@.len() as int;
                let ghost into = buckets_view(fresh@);
                let entry = chain.pop().unwrap();
                let ghost e = t[b as int][i - 1];
                proof {
                    assert(entry == was[i - 1]);
                    assert(chain_view(was)[i - 1] == e);
                    lemma_fits_step(t, b as int, i, into);
                    lemma_home(into, e.key);
                }
                let to: usize = (entry.hash % (fresh.len() as u64)) as usize;
                let ghost before = fresh@;
                fresh[to].push(entry);
                proof {
                    assert(chain@ =~= was.take(i - 1));
                    assert(chain_view(fresh@[to as int]@) =~= into[to as int].push(e));
                    assert(buckets_view(fresh@) =~= linked(into, e));
                    lemma_entries_update(into, to as int, into[to as int].push(e), into.len() as int);
                    assert(hashes_known(fresh@)) by {
                        assert forall|c: int, k: int|
                            #![trigger fresh@[c]@[k]]
                            0 <= c < fresh@.len() && 0 <= k < fresh@[c]@.len() implies fresh@[c]@[k].hash
                            == hash_of(fresh@[c]@[k].key@) by {
                            if c != to {
                                assert(fresh@[c]@[k] == before[c]@[k]);
                            } else if k < before[c]@.len() {
                                assert(fresh@[c]@[k] == before[c]@[k]);
                            }
                        }
                    }
                }
            }
            proof {
                lemma_fits_next(t, b as int, buckets_view(fresh@));
            }
            b += 1;
        }
        self.buckets = fresh;
    }

    /// Takes a key out.
    pub fn del(&mut self, key: &Vec<u8>)
        requires
            old(self).is_well_formed(),
        ensures
            final(self).is_well_formed(),
            final(self)@ == del_of(old(self)@, key@),
    {
        let (b, at) = self.find(key);
        let ghost t = self@;
        let ghost was = self.buckets@;
        match at {
            Some(i) => {
                proof {
                    lemma_chain_below(t, b as int, t.len() as int);
                    lemma_remove_is_table(t, b as int, i as int);
                    lemma_entries_update(t, b as int, t[b as int].remove(i as int), t.len() as int);
                }
                self.buckets[b].remove(i);
                self.count -= 1;
                proof {
                    assert(chain_view(self.buckets@[b as int]@) =~= t[b as int].remove(i as int));
                    assert(self@ =~= t.update(b as int, t[b as int].remove(i as int)));
                    assert(hashes_known(self.buckets@)) by {
                        assert forall|c: int, k: int|
                            #![trigger self.buckets@[c]@[k]]
                            0 <= c < self.buckets@.len() && 0 <= k
                                < self.buckets@[c]@.len() implies self.buckets@[c]@[k].hash
                            == hash_of(self.buckets@[c]@[k].key@) by {
                            if c != b {
                                assert(self.buckets@[c]@[k] == was[c]@[k]);
                            } else if k < i {
                                assert(self.buckets@[c]@[k] == was[c]@[k]);
                            } else {
                                assert(self.buckets@[c]@[k] == was[c]@[k + 1]);
                            }
                        }
                    }
                }
            },
            None => {},
        }
    }

    /// The keys, bucket by bucket, each chain from its head on.
    pub fn keys(&self) -> (r: Vec<Vec<u8>>)
        requires
            self.is_well_formed(),
        ensures
            texts_view(r@) == keys_of(self@),
    {
        let mut r: Vec<Vec<u8>> = Vec::new();
        let mut b: usize = 0;
        assert(texts_view(r@) =~= Seq::empty());
        while b < self.buckets.len()
            invariant
                0 <= b <= self.buckets@.len(),
                texts_view(r@) == keys_in(self@, b as int),
            decreases self.buckets@.len() - b,
        {
            let chain = &self.buckets[b];
            let ghost all = chain_keys(self@[b as int]);
            let ghost before = texts_view(r@);
            let mut i: usize = chain.len();
            assert(all.take(0) =~= Seq::empty());
            assert(before + all.take(0) =~= before);
            while i > 0
                invariant
                    b < self.buckets@.len(),
                    chain == self.buckets@[b as int],
                    all == chain_keys(self@[b as int]),
                    0 <= i <= chain@.len(),
                    texts_view(r@) == before + all.take(chain@.len() - i),
                decreases i,
            {
                i -= 1;
                let ghost so_far = texts_view(r@);
                r.push(bytes_copy(&chain[i].key));
                proof {
                    assert(all[chain@.len() - 1 - i] == chain@[i as int].key@);
                    assert(texts_view(r@) =~= so_far.push(chain@[i as int].key@));
                    assert(all.take(chain@.len() - i) =~= all.take(chain@.len() - 1 - i).push(
                        chain@[i as int].key@,
                    ));
                    assert(texts_view(r@) =~= before + all.take(chain@.len() - i));
                }
            }
            assert(all.take(chain@.len() as int) =~= all);
            b += 1;
        }
        r
    }
}

fn fresh_buckets(n: usize) -> (r: Vec<Vec<Entry>>)
    ensures
        buckets_view(r@) == empty_buckets::<i64>(n as nat),
        hashes_known(r@),
{
    let mut r: Vec<Vec<Entry>> = Vec::new();
    while r.len() < n
        invariant
            r@.len() <= n,
            forall|b: int| 0 <= b < r@.len() ==> (#[trigger] r@[b])@.len() == 0,
        decreases n - r@.len(),
    {
        r.push(Vec::new());
    }
    proof {
        assert forall|b: int| 0 <= b < n implies #[trigger] chain_view(r@[b]@) == Seq::<
            EntryV<i64>,
        >::empty() by {
            assert(chain_view(r@[b]@) =~= Seq::empty());
        }
        assert(buckets_view(r@) =~= empty_buckets::<i64>(n as nat));
    }
    r
}

proof fn lemma_linked<V>(t: Buckets<V>, e: EntryV<V>)
    requires
        is_table(t),
        place(t[home(t, e.key)], e.key) is None,
    ensures
        is_table(linked(t, e)),
        entries(linked(t, e)) == entries(t) + 1,
{
    let b = home(t, e.key);
    let more = linked(t, e);
    lemma_home(t, e.key);
    lemma_place(t[b], e.key);
    lemma_entries_update(t, b, t[b].push(e), t.len() as int);
    assert forall|c: int, i: int|
        #![trigger more[c][i]]
        0 <= c < more.len() && 0 <= i < more[c].len() implies home(more, more[c][i].key) == c by {
        if c != b || i < t[b].len() {
            assert(more[c][i] == t[c][i]);
        }
    }
    assert forall|c: int, i: int, j: int|
        #![trigger more[c][i], more[c][j]]
        0 <= c < more.len() && 0 <= i < j < more[c].len() implies more[c][i].key
        != more[c][j].key by {
        assert(more[c][i] == t[c][i]);
        if c != b || j < t[b].len() {
            assert(more[c][j] == t[c][j]);
        }
    }
}

proof fn lemma_update_is_table<V>(t: Buckets<V>, b: int, i: int, e: EntryV<V>)
    requires
        is_table(t),
        0 <= b < t.len(),
        0 <= i < t[b].len(),
        t[b][i].key == e.key,
    ensures
        is_table(t.update(b, t[b].update(i, e))),
{
    let more = t.update(b, t[b].update(i, e));
    assert forall|c: int, k: int|
        #![trigger more[c][k]]
        0 <= c < more.len() && 0 <= k < more[c].len() implies home(more, more[c][k].key) == c by {
        assert(more[c][k].key == t[c][k].key);
    }
    assert forall|c: int, k: int, l: int|
        #![trigger more[c][k], more[c][l]]
        0 <= c < more.len() && 0 <= k < l < more[c].len() implies more[c][k].key
        != more[c][l].key by {
        assert(more[c][k].key == t[c][k].key);
        assert(more[c][l].key == t[c][l].key);
    }
}

proof fn lemma_remove_is_table<V>(t: Buckets<V>, b: int, i: int)
    requires
        is_table(t),
        0 <= b < t.len(),
        0 <= i < t[b].len(),
    ensures
        is_table(t.update(b, t[b].remove(i))),
{
    let less = t.update(b, t[b].remove(i));
    assert forall|c: int, k: int|
        #![trigger less[c][k]]
        0 <= c < less.len() && 0 <= k < less[c].len() implies home(less, less[c][k].key) == c by {
        if c != b || k < i {
            assert(less[c][k] == t[c][k]);
        } else {
            assert(less[c][k] == t[c][k + 1]);
        }
    }
    assert forall|c: int, k: int, l: int|
        #![trigger less[c][k], less[c][l]]
        0 <= c < less.len() && 0 <= k < l < less[c].len() implies less[c][k].key
        != less[c][l].key by {
        let k2 = if c != b || k < i { k } else { k + 1 };
        let l2 = if c != b || l < i { l } else { l + 1 };
        assert(less[c][k] == t[c][k2]);
        assert(less[c][l] == t[c][l2]);
    }
}

/// What holds while entries are linked anew: `into` is a table, and none of the keys that
/// are still to come is in it.
pub open spec fn fits<V>(t: Buckets<V>, b: int, i: int, into: Buckets<V>) -> bool {
    &&& is_table(into)
    &&& 0 <= b < t.len()
    &&& 0 <= i <= t[b].len()
    &&& forall|c: int, k: int|
        #![trigger t[c][k]]
        0 <= c < t.len() && 0 <= k < t[c].len() && (c > b || (c == b && k < i)) ==> place(
            into[home(into, t[c][k].key)],
            t[c][k].key,
        ) is None
}

proof fn lemma_empty_fits<V>(t: Buckets<V>, n: nat)
    requires
        t.len() > 0,
        n > 0,
    ensures
        fits(t, 0, t[0].len() as int, empty_buckets::<V>(n)),
{
    let into = empty_buckets::<V>(n);
    assert forall|c: int, k: int|
        #![trigger t[c][k]]
        0 <= c < t.len() && 0 <= k < t[c].len() implies place(
        into[home(into, t[c][k].key)],
        t[c][k].key,
    ) is None by {
        lemma_home(into, t[c][k].key);
    }
}

proof fn lemma_fits_step<V>(t: Buckets<V>, b: int, i: int, into: Buckets<V>)
    requires
        is_table(t),
        fits(t, b, i, into),
        i > 0,
    ensures
        fits(t, b, i - 1, linked(into, t[b][i - 1])),
{
    let e = t[b][i - 1];
    let more = linked(into, e);
    lemma_linked(into, e);
    assert forall|c: int, k: int|
        #![trigger t[c][k]]
        0 <= c < t.len() && 0 <= k < t[c].len() && (c > b || (c == b && k < i - 1)) implies place(
        more[home(more, t[c][k].key)],
        t[c][k].key,
    ) is None by {
        let key = t[c][k].key;
        let h = home(into, key);
        lemma_home(into, key);
        if c == b {
            assert(t[b][k].key != t[b][i - 1].key);
        } else {
            assert(home(t, t[c][k].key) == c);
            assert(home(t, t[b][i - 1].key) == b);
        }
        assert(key != e.key);
        if h == home(into, e.key) {
            assert(more[h].drop_last() =~= into[h]);
        }
    }
}

proof fn lemma_fits_next<V>(t: Buckets<V>, b: int, into: Buckets<V>)
    requires
        fits(t, b, 0, into),
    ensures
        b + 1 < t.len() ==> fits(t, b + 1, t[b + 1].len() as int, into),
        relinked(t, b, 0, into) == if b + 1 < t.len() {
            relinked(t, b + 1, t[b + 1].len() as int, into)
        } else {
            into
        },
{
    reveal_with_fuel(relinked, 2);
}

// Laws.

proof fn lemma_lookup_is_entry<V>(t: Buckets<V>, b: int, i: int)
    requires
        is_table(t),
        0 <= b < t.len(),
        0 <= i < t[b].len(),
    ensures
        lookup(t, t[b][i].key) == Some(t[b][i].value),
{
    let key = t[b][i].key;
    assert(home(t, key) == b);
    lemma_place(t[b], key);
    let j = place(t[b], key);
    match j {
        Some(j) => {
            if i < j {
                assert(t[b][i].key != t[b][j].key);
            }
        },
        None => {},
    }
}

proof fn lemma_linked_lookup<V>(t: Buckets<V>, e: EntryV<V>, key: Seq<u8>)
    requires
        t.len() > 0,
    ensures
        lookup(linked(t, e), key) == if key == e.key {
            Some(e.value)
        } else {
            lookup(t, key)
        },
{
    let more = linked(t, e);
    lemma_home(t, key);
    lemma_home(t, e.key);
    let h = home(t, key);
    assert(home(more, key) == h);
    if h == home(t, e.key) {
        assert(more[h].drop_last() =~= t[h]);
        lemma_place(t[h], key);
        if key != e.key {
            assert(place(more[h], key) == place(t[h], key));
        }
    }
}

proof fn lemma_relinked_lookup<V>(t: Buckets<V>, b: int, i: int, into: Buckets<V>, key: Seq<u8>)
    requires
        is_table(t),
        fits(t, b, i, into),
    ensures
        is_table(relinked(t, b, i, into)),
        lookup(relinked(t, b, i, into), key) == if key_comes(t, b, i, key) {
            lookup(t, key)
        } else {
            lookup(into, key)
        },
    decreases t.len() - b, i,
{
    if i > 0 {
        let e = t[b][i - 1];
        let more = linked(into, e);
        lemma_fits_step(t, b, i, into);
        lemma_relinked_lookup(t, b, i - 1, more, key);
        lemma_linked_lookup(into, e, key);
        lemma_lookup_is_entry(t, b, i - 1);
        if key == e.key {
            assert(is_to_come(t, b, i, b, i - 1));
        } else {
            if key_comes(t, b, i - 1, key) {
                let (c, k) = choose|c: int, k: int|
                    is_to_come(t, b, i - 1, c, k) && #[trigger] t[c][k].key == key;
                assert(is_to_come(t, b, i, c, k));
            }
            if key_comes(t, b, i, key) {
                let (c, k) = choose|c: int, k: int|
                    is_to_come(t, b, i, c, k) && #[trigger] t[c][k].key == key;
                assert(is_to_come(t, b, i - 1, c, k));
            }
        }
    } else {
        lemma_fits_next(t, b, into);
        if key_comes(t, b, i, key) {
            let (c, k) = choose|c: int, k: int|
                is_to_come(t, b, i, c, k) && #[trigger] t[c][k].key == key;
            assert(is_to_come(t, b + 1, t[b + 1].len() as int, c, k));
        }
        if b + 1 < t.len() {
            let n = t[b + 1].len() as int;
            lemma_relinked_lookup(t, b + 1, n, into, key);
            if key_comes(t, b + 1, n, key) {
                let (c, k) = choose|c: int, k: int|
                    is_to_come(t, b + 1, n, c, k) && #[trigger] t[c][k].key == key;
                assert(is_to_come(t, b, i, c, k));
            }
        }
    }
}

/// The key of an entry that is still to be linked anew.
pub open spec fn key_comes<V>(t: Buckets<V>, b: int, i: int, key: Seq<u8>) -> bool {
    exists|c: int, k: int| is_to_come(t, b, i, c, k) && #[trigger] t[c][k].key == key
}

/// An entry that is still to be linked anew.
pub open spec fn is_to_come<V>(t: Buckets<V>, b: int, i: int, c: int, k: int) -> bool {
    0 <= c < t.len() && 0 <= k < t[c].len() && (c > b || (c == b && k < i))
}

proof fn lemma_grown_lookup<V>(t: Buckets<V>, key: Seq<u8>)
    requires
        is_table(t),
    ensures
        is_table(grown(t)),
        lookup(grown(t), key) == lookup(t, key),
{
    let n = t[0].len() as int;
    let into = empty_buckets::<V>(t.len() * 2);
    lemma_empty_fits(t, t.len() * 2);
    lemma_relinked_lookup(t, 0, n, into, key);
    lemma_home(t, key);
    lemma_home(into, key);
    let h = home(t, key);
    lemma_place(t[h], key);
    match place(t[h], key) {
        Some(k) => {
            assert(is_to_come(t, 0, n, h, k));
        },
        None => {
            assert forall|c: int, k: int| is_to_come(t, 0, n, c, k) implies t[c][k].key != key by {
                if t[c][k].key == key {
                    assert(home(t, t[c][k].key) == c);
                }
            }
        },
    }
}

/// A map that was given a value for a key has it, and keeps what it has for other keys.
pub proof fn put_gives_one_key_its_value<V>(t: Buckets<V>, key: Seq<u8>, value: V, other: Seq<u8>)
    requires
        is_table(t),
    ensures
        is_table(put_of(t, key, value)),
        lookup(put_of(t, key, value), other) == if other == key {
            Some(value)
        } else {
            lookup(t, other)
        },
{
    let b = home(t, key);
    let e = EntryV { key, value };
    lemma_home(t, key);
    lemma_home(t, other);
    lemma_place(t[b], key);
    match place(t[b], key) {
        Some(i) => {
            let more = t.update(b, t[b].update(i, e));
            lemma_update_is_table(t, b, i, e);
            lemma_place(t[home(t, other)], other);
            lemma_place(more[home(t, other)], other);
            assert(home(more, other) == home(t, other));
            if other == key {
                assert(more[b][i] == e);
                lemma_lookup_is_entry(more, b, i);
            } else if home(t, other) == b {
                match place(t[b], other) {
                    Some(k) => {
                        assert(more[b][k] == t[b][k]);
                        lemma_lookup_is_entry(more, b, k);
                        lemma_lookup_is_entry(t, b, k);
                    },
                    None => {
                        assert forall|k: int| 0 <= k < more[b].len() implies more[b][k].key
                            != other by {
                            assert(more[b][k].key == t[b][k].key);
                        }
                    },
                }
            }
        },
        None => {
            let more = linked(t, e);
            lemma_linked(t, e);
            lemma_linked_lookup(t, e, other);
            if is_crowded(more) {
                lemma_grown_lookup(more, other);
            }
        },
    }
}

/// A map that a key was taken out of has no value for it, and keeps what it has for others.
pub proof fn del_takes_one_key_out<V>(t: Buckets<V>, key: Seq<u8>, other: Seq<u8>)
    requires
        is_table(t),
    ensures
        is_table(del_of(t, key)),
        lookup(del_of(t, key), other) == if other == key {
            None
        } else {
            lookup(t, other)
        },
{
    let b = home(t, key);
    lemma_home(t, key);
    lemma_home(t, other);
    lemma_place(t[b], key);
    match place(t[b], key) {
        Some(i) => {
            let less = t.update(b, t[b].remove(i));
            lemma_remove_is_table(t, b, i);
            let h = home(t, other);
            assert(home(less, other) == h);
            lemma_place(t[h], other);
            lemma_place(less[h], other);
            if h == b {
                match place(t[b], other) {
                    Some(k) => {
                        if other != key {
                            let k2 = if k < i { k } else { k - 1 };
                            assert(less[b][k2] == t[b][k]);
                            lemma_lookup_is_entry(less, b, k2);
                        } else {
                            assert forall|l: int| 0 <= l < less[b].len() implies less[b][l].key
                                != key by {
                                let l2 = if l < i { l } else { l + 1 };
                                assert(less[b][l] == t[b][l2]);
                                if l2 < i {
                                    assert(t[b][l2].key != t[b][i].key);
                                } else {
                                    assert(t[b][i].key != t[b][l2].key);
                                }
                            }
                        }
                    },
                    None => {
                        assert forall|l: int| 0 <= l < less[b].len() implies less[b][l].key
                            != other by {
                            let l2 = if l < i { l } else { l + 1 };
                            assert(less[b][l] == t[b][l2]);
                        }
                    },
                }
            }
        },
        None => {},
    }
}

/// A map without entries has no value for any key.
pub proof fn new_map_is_empty<V>(n: nat, key: Seq<u8>)
    requires
        n > 0,
    ensures
        is_table(empty_buckets::<V>(n)),
        lookup(empty_buckets::<V>(n), key) is None,
        entries(empty_buckets::<V>(n)) == 0,
{
    lemma_home(empty_buckets::<V>(n), key);
    lemma_entries_empty::<V>(n, n as int);
}

proof fn lemma_keys_in<V>(t: Buckets<V>, n: int)
    requires
        0 <= n <= t.len(),
    ensures
        keys_in(t, n).len() == entries_in(t, n),
    decreases n,
{
    if n > 0 {
        lemma_keys_in(t, n - 1);
    }
}

/// There are as many keys as entries.
pub proof fn keys_are_counted<V>(t: Buckets<V>)
    ensures
        keys_of(t).len() == entries(t),
{
    lemma_keys_in(t, t.len() as int);
}

proof fn lemma_key_in<V>(t: Buckets<V>, n: int, key: Seq<u8>)
    requires
        is_table(t),
        0 <= n <= t.len(),
    ensures
        keys_in(t, n).contains(key) <==> home(t, key) < n && lookup(t, key) is Some,
    decreases n,
{
    lemma_home(t, key);
    if n > 0 {
        lemma_key_in(t, n - 1, key);
        let before = keys_in(t, n - 1);
        let chain = t[n - 1];
        let now = keys_in(t, n);
        lemma_place(t[home(t, key)], key);
        if before.contains(key) {
            let i = choose|i: int| 0 <= i < before.len() && before[i] == key;
            assert(now[i] == key);
        }
        if home(t, key) == n - 1 && lookup(t, key) is Some {
            let i = place(chain, key)->0;
            assert(chain_keys(chain)[chain.len() - 1 - i] == key);
            assert(now[before.len() + chain.len() - 1 - i] == key);
        }
        if now.contains(key) {
            let i = choose|i: int| 0 <= i < now.len() && now[i] == key;
            if i < before.len() {
                assert(before[i] == key);
            } else {
                let k = chain.len() - 1 - (i - before.len());
                assert(t[n - 1][k].key == key);
                lemma_lookup_is_entry(t, n - 1, k);
            }
        }
    }
}

/// The keys of a map are those that it has values for.
pub proof fn keys_are_those_with_values<V>(t: Buckets<V>, key: Seq<u8>)
    requires
        is_table(t),
    ensures
        keys_of(t).contains(key) <==> lookup(t, key) is Some,
{
    lemma_home(t, key);
    lemma_key_in(t, t.len() as int, key);
}

proof fn lemma_keys_differ<V>(t: Buckets<V>, n: int)
    requires
        is_table(t),
        0 <= n <= t.len(),
    ensures
        keys_in(t, n).no_duplicates(),
    decreases n,
{
    if n > 0 {
        lemma_keys_differ(t, n - 1);
        let before = keys_in(t, n - 1);
        let chain = t[n - 1];
        let now = keys_in(t, n);
        assert forall|i: int, j: int| 0 <= i < j < now.len() implies now[i] != now[j] by {
            if j >= before.len() {
                let l = chain.len() - 1 - (j - before.len());
                assert(t[n - 1][l].key == now[j]);
                if i >= before.len() {
                    let k = chain.len() - 1 - (i - before.len());
                    assert(t[n - 1][l].key != t[n - 1][k].key);
                } else if now[i] == now[j] {
                    assert(before[i] == now[j]);
                    lemma_key_in(t, n - 1, now[j]);
                    assert(home(t, t[n - 1][l].key) == n - 1);
                }
            } else {
                assert(now[i] == before[i]);
                assert(now[j] == before[j]);
            }
        }
    }
}

/// No key of a map is named twice.
pub proof fn keys_are_named_once<V>(t: Buckets<V>)
    requires
        is_table(t),
    ensures
        keys_of(t).no_duplicates(),
{
    lemma_keys_differ(t, t.len() as int);
}

} // verus!
