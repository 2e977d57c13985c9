//! Cuckoo hashing for shard placement: each key (a listing id) has two
//! candidate shards, `h1(key)` and `h2(key)`. An insert places the key in
//! whichever candidate bucket has room, the first one first. Only when both
//! are full does it evict the first bucket's oldest occupant to that
//! occupant's other candidate, cascading up to `max_loop` times before
//! giving up and rehashing everything into a table with more shards. No
//! central allocator decides placement: it falls out of the two hash
//! functions alone.

use vstd::multiset::Multiset;
use vstd::prelude::*;

use crate::hashing::{concat_bytes, contains_text, lemma_text_view_push, sha256_digest, spec_sha256, text_view};

verus! {

broadcast use {vstd::seq_lib::group_to_multiset_ensures, vstd::multiset::group_multiset_axioms};

/// The unsigned big-endian value of `bytes`.
pub open spec fn be_value(bytes: Seq<u8>) -> nat
    decreases bytes.len(),
{
    if bytes.len() == 0 {
        0
    } else {
        be_value(bytes.drop_last()) * 256 + bytes.last() as nat
    }
}

/// `256` to the power `n`.
pub open spec fn byte_power(n: nat) -> nat
    decreases n,
{
    if n == 0 {
        1
    } else {
        256 * byte_power((n - 1) as nat)
    }
}

/// `n` big-endian bytes hold a value below `256^n`.
pub proof fn lemma_be_value_bound(bytes: Seq<u8>)
    ensures
        be_value(bytes) < byte_power(bytes.len()),
    decreases bytes.len(),
{
    if bytes.len() > 0 {
        let rest = bytes.drop_last();
        lemma_be_value_bound(rest);
        let v = be_value(rest);
        let p = byte_power(rest.len());
        assert(v * 256 + bytes.last() < p * 256) by (nonlinear_arith)
            requires
                v < p,
                bytes.last() < 256,
        ;
    }
}

/// The salted hash of a key: the first eight bytes, big-endian, of the
/// SHA-256 digest of the salt's UTF-8 bytes followed by the key's.
pub open spec fn spec_hash_with_salt(salt: Seq<char>, key: Seq<char>) -> nat {
    be_value(
        spec_sha256(vstd::utf8::encode_utf8(salt) + vstd::utf8::encode_utf8(key)).take(8),
    )
}

/// The first candidate shard of `key` among `n`.
pub open spec fn spec_h1(key: Seq<char>, n: nat) -> nat {
    spec_hash_with_salt("gaskiya-cuckoo-h1"@, key) % n
}

/// The second candidate shard of `key` among `n`.
pub open spec fn spec_h2(key: Seq<char>, n: nat) -> nat {
    spec_hash_with_salt("gaskiya-cuckoo-h2"@, key) % n
}

/// The candidate of `key` that is not `current` (the first one when
/// `current` is not the first).
pub open spec fn spec_other_bucket(key: Seq<char>, current: nat, n: nat) -> nat {
    if current == spec_h1(key, n) {
        spec_h2(key, n)
    } else {
        spec_h1(key, n)
    }
}

/// Shard `b` is one of the two candidates of `key`.
pub open spec fn in_candidate(key: Seq<char>, b: int, n: nat) -> bool {
    b == spec_h1(key, n) || b == spec_h2(key, n)
}

/// The eviction bound for a table of `n` shards.
pub open spec fn spec_max_loop(n: nat) -> nat {
    if n >= 8 {
        n * 4
    } else {
        32
    }
}

/// The most shards a table can grow to: beyond it the eviction bound
/// (four times the shard count) would not fit in a `usize`.
pub open spec fn max_shards() -> nat {
    (usize::MAX / 4) as nat
}

/// The eviction walk: try to put `key` in bucket `pos`; if it is full,
/// push `key` in and walk its oldest occupant to that occupant's other
/// candidate, at most `fuel` steps. Gives the buckets, the bucket where
/// the walk settled and the evictions made, or `None` when it ran out.
pub open spec fn walk(
    buckets: Seq<Seq<Seq<char>>>,
    capacity: nat,
    n: nat,
    key: Seq<char>,
    pos: nat,
    evictions: nat,
    fuel: nat,
) -> Option<(Seq<Seq<Seq<char>>>, nat, nat)>
    decreases fuel,
{
    if fuel == 0 {
        None
    } else if buckets[pos as int].len() < capacity {
        Some((buckets.update(pos as int, buckets[pos as int].push(key)), pos, evictions))
    } else {
        let victim = buckets[pos as int][0];
        let evicted = buckets.update(pos as int, buckets[pos as int].remove(0).push(key));
        walk(
            evicted,
            capacity,
            n,
            victim,
            spec_other_bucket(victim, pos, n),
            evictions + 1,
            (fuel - 1) as nat,
        )
    }
}

/// The candidate of `key` that holds it: the first one if it does, else
/// the second.
pub open spec fn key_shard(buckets: Seq<Seq<Seq<char>>>, key: Seq<char>, n: nat) -> nat {
    if buckets[spec_h1(key, n) as int].contains(key) {
        spec_h1(key, n)
    } else {
        spec_h2(key, n)
    }
}

/// Placing one key: into its first candidate if that has room, else into
/// its second if that has room, else by the eviction walk from the first
/// candidate (at most `fuel` steps). Gives the buckets, the shard that
/// holds the key afterwards, and the evictions made; `None` when the walk
/// ran out.
pub open spec fn place(
    buckets: Seq<Seq<Seq<char>>>,
    capacity: nat,
    n: nat,
    key: Seq<char>,
    fuel: nat,
) -> Option<(Seq<Seq<Seq<char>>>, nat, nat)> {
    let a = spec_h1(key, n);
    let b = spec_h2(key, n);
    if buckets[a as int].len() >= capacity && buckets[b as int].len() < capacity {
        Some((buckets.update(b as int, buckets[b as int].push(key)), b, 0))
    } else {
        match walk(buckets, capacity, n, key, a, 0, fuel) {
            Some(r) => Some((r.0, key_shard(r.0, key, n), r.2)),
            None => None,
        }
    }
}

/// `n` empty buckets.
pub open spec fn empty_buckets(n: nat) -> Seq<Seq<Seq<char>>> {
    Seq::new(n, |i: int| Seq::<Seq<char>>::empty())
}

/// Inserting `keys` one after the other, in order, each with its own
/// eviction walk; `None` as soon as one walk runs out.
pub open spec fn place_all(
    buckets: Seq<Seq<Seq<char>>>,
    capacity: nat,
    n: nat,
    keys: Seq<Seq<char>>,
) -> Option<Seq<Seq<Seq<char>>>>
    decreases keys.len(),
{
    if keys.len() == 0 {
        Some(buckets)
    } else {
        match place_all(buckets, capacity, n, keys.drop_last()) {
            None => None,
            Some(b) => match place(b, capacity, n, keys.last(), spec_max_loop(n)) {
                None => None,
                Some(r) => Some(r.0),
            },
        }
    }
}

/// Growth: the first shard count above `n` (up to [`max_shards`]) into
/// whose empty buckets all of `keys` can be placed, with the buckets that
/// gives.
pub open spec fn grow(keys: Seq<Seq<char>>, capacity: nat, n: nat) -> Option<(nat, Seq<Seq<Seq<char>>>)>
    decreases max_shards() - n,
{
    if n >= max_shards() {
        None
    } else {
        let m = (n + 1) as nat;
        match place_all(empty_buckets(m), capacity, m, keys) {
            Some(b) => Some((m, b)),
            None => grow(keys, capacity, m),
        }
    }
}

/// The first bucket from `from` on that holds `key` (`buckets.len()` if none does).
pub open spec fn first_bucket_with(buckets: Seq<Seq<Seq<char>>>, key: Seq<char>, from: int) -> int
    decreases buckets.len() - from,
{
    if from >= buckets.len() || from < 0 {
        buckets.len() as int
    } else if buckets[from].contains(key) {
        from
    } else {
        first_bucket_with(buckets, key, from + 1)
    }
}

/// The number of keys held, bucket by bucket.
pub open spec fn sum_sizes(buckets: Seq<Seq<Seq<char>>>) -> int
    decreases buckets.len(),
{
    if buckets.len() == 0 {
        0
    } else {
        buckets[0].len() + sum_sizes(buckets.drop_first())
    }
}

/// The sum of a sequence of counts.
pub open spec fn sum_counts(counts: Seq<usize>) -> int
    decreases counts.len(),
{
    if counts.len() == 0 {
        0
    } else {
        counts[0] + sum_counts(counts.drop_first())
    }
}

/// Every key held, counted with multiplicity.
pub open spec fn contents(buckets: Seq<Seq<Seq<char>>>) -> Multiset<Seq<char>>
    decreases buckets.len(),
{
    if buckets.len() == 0 {
        Multiset::empty()
    } else {
        buckets[0].to_multiset().add(contents(buckets.drop_first()))
    }
}

/// The buckets of a table with `n` shards and the given capacity: one per
/// shard, none over capacity, and every key in one of its two candidates.
pub open spec fn buckets_wf(buckets: Seq<Seq<Seq<char>>>, capacity: nat, n: nat) -> bool {
    &&& buckets.len() == n
    &&& forall|b: int| 0 <= b < n ==> #[trigger] buckets[b].len() <= capacity
    &&& forall|b: int, j: int|
        0 <= b < n && 0 <= j < buckets[b].len() ==> in_candidate(#[trigger] buckets[b][j], b, n)
}

/// The state of a shard table.
pub struct TableView {
    pub num_shards: nat,
    pub bucket_capacity: nat,
    pub max_loop: nat,
    pub buckets: Seq<Seq<Seq<char>>>,
}

impl TableView {
    /// What every table satisfies.
    pub open spec fn well_formed(self) -> bool {
        &&& 0 < self.num_shards <= max_shards()
        &&& self.max_loop == spec_max_loop(self.num_shards)
        &&& buckets_wf(self.buckets, self.bucket_capacity, self.num_shards)
    }

    /// Every key in the table, bucket by bucket, oldest first in each bucket.
    pub open spec fn all_keys(self) -> Seq<Seq<char>> {
        self.buckets.flatten()
    }
}

/// Where an insert put its key.
#[derive(Debug, Clone, Copy, PartialEq, Eq, Structural)]
pub struct ShardAssignment {
    /// The shard that holds the inserted key once the insert is done: one
    /// of its two candidates in the table as it then stands (after a
    /// rehash, the lowest-numbered shard that holds it).
    pub shard_id: usize,
    /// Number of evictions this insert triggered before settling (0 = placed
    /// directly in a candidate bucket with room).
    pub evictions: usize,
    /// Whether the table had to grow and rehash everything to fit this key.
    pub rehashed: bool,
}

/// The empty table that [`CuckooShardTable::new`] makes.
pub open spec fn spec_new(num_shards: nat, bucket_capacity: nat) -> TableView {
    TableView {
        num_shards,
        bucket_capacity,
        max_loop: spec_max_loop(num_shards),
        buckets: empty_buckets(num_shards),
    }
}

/// What inserting `key` into table `t` gives: the table after and the
/// shard that holds the key, or `None` when even growing to [`max_shards`]
/// cannot fit every key.
pub open spec fn spec_insert(t: TableView, key: Seq<char>) -> Option<(TableView, ShardAssignment)> {
    match place(t.buckets, t.bucket_capacity, t.num_shards, key, t.max_loop) {
        Some(r) => Some(
            (
                TableView { buckets: r.0, ..t },
                ShardAssignment { shard_id: r.1 as usize, evictions: r.2 as usize, rehashed: false },
            ),
        ),
        None => match grow(t.all_keys().push(key), t.bucket_capacity, t.num_shards) {
            None => None,
            Some(g) => Some(
                (
                    TableView {
                        num_shards: g.0,
                        bucket_capacity: t.bucket_capacity,
                        max_loop: spec_max_loop(g.0),
                        buckets: g.1,
                    },
                    ShardAssignment {
                        shard_id: first_bucket_with(g.1, key, 0) as usize,
                        evictions: 0,
                        rehashed: true,
                    },
                ),
            ),
        },
    }
}

/// The table after inserting `keys` one after the other into `t`, or
/// `None` as soon as one insert fails.
pub open spec fn spec_insert_all(t: TableView, keys: Seq<Seq<char>>) -> Option<TableView>
    decreases keys.len(),
{
    if keys.len() == 0 {
        Some(t)
    } else {
        match spec_insert_all(t, keys.drop_last()) {
            None => None,
            Some(u) => match spec_insert(u, keys.last()) {
                None => None,
                Some(r) => Some(r.0),
            },
        }
    }
}

/// Once an insert of a sequence fails, inserting any longer sequence with
/// that prefix fails too.
proof fn lemma_insert_all_prefix_fails(t: TableView, keys: Seq<Seq<char>>, i: int)
    requires
        0 <= i <= keys.len(),
        spec_insert_all(t, keys.take(i)) is None,
    ensures
        spec_insert_all(t, keys) is None,
    decreases keys.len() - i,
{
    if i < keys.len() {
        assert(keys.take(i + 1).drop_last() == keys.take(i));
        lemma_insert_all_prefix_fails(t, keys, i + 1);
    } else {
        assert(keys.take(i) == keys);
    }
}

/// Replaying keys into a table keeps it well formed and adds exactly those
/// keys: the table then holds its old keys plus every replayed key, once
/// per occurrence, each in one of its two candidate shards.
pub proof fn lemma_insert_all(t: TableView, keys: Seq<Seq<char>>)
    requires
        t.well_formed(),
        t.bucket_capacity > 0,
    ensures
        spec_insert_all(t, keys) matches Some(u) ==> {
            &&& u.well_formed()
            &&& u.bucket_capacity == t.bucket_capacity
            &&& contents(u.buckets) == contents(t.buckets).add(keys.to_multiset())
        },
    decreases keys.len(),
{
    if keys.len() > 0 {
        let prefix = keys.drop_last();
        lemma_insert_all(t, prefix);
        if let Some(u) = spec_insert_all(t, prefix) {
            lemma_insert(u, keys.last());
            prefix.to_multiset_ensures();
            assert(prefix.push(keys.last()) == keys);
            assert(contents(t.buckets).add(prefix.to_multiset()).insert(keys.last())
                =~= contents(t.buckets).add(keys.to_multiset()));
        }
    } else {
        assert(keys.to_multiset() =~= Multiset::<Seq<char>>::empty());
        assert(contents(t.buckets).add(Multiset::empty()) =~= contents(t.buckets));
    }
}

/// The contents hold as many keys as the buckets do together.
pub proof fn lemma_contents_len(buckets: Seq<Seq<Seq<char>>>)
    ensures
        contents(buckets).len() == sum_sizes(buckets),
    decreases buckets.len(),
{
    if buckets.len() > 0 {
        lemma_contents_len(buckets.drop_first());
        buckets[0].to_multiset_ensures();
    }
}

/// Counts that are the bucket sizes, one by one, sum to the keys held.
proof fn lemma_sum_counts(counts: Seq<usize>, buckets: Seq<Seq<Seq<char>>>)
    requires
        counts.len() == buckets.len(),
        forall|i: int| 0 <= i < counts.len() ==> #[trigger] counts[i] == buckets[i].len(),
    ensures
        sum_counts(counts) == sum_sizes(buckets),
    decreases counts.len(),
{
    if counts.len() > 0 {
        assert forall|i: int| 0 <= i < counts.drop_first().len() implies #[trigger] counts.drop_first()[i]
            == buckets.drop_first()[i].len() by {
            assert(counts.drop_first()[i] == counts[i + 1]);
            assert(buckets.drop_first()[i] == buckets[i + 1]);
        }
        lemma_sum_counts(counts.drop_first(), buckets.drop_first());
    }
}

/// Each insert adds exactly one key to the shard counts.
pub proof fn lemma_insert_adds_one(t: TableView, key: Seq<char>)
    requires
        t.well_formed(),
        t.bucket_capacity > 0,
    ensures
        spec_insert(t, key) matches Some(r) ==> sum_sizes(r.0.buckets) == sum_sizes(t.buckets) + 1,
{
    lemma_insert(t, key);
    lemma_contents_len(t.buckets);
    if let Some(r) = spec_insert(t, key) {
        lemma_contents_len(r.0.buckets);
    }
}

/// A fresh table into which `keys` were replayed holds exactly as many
/// keys as were replayed: the shard counts sum to the number of inserts,
/// duplicates included.
pub proof fn lemma_replay_counts(num_shards: nat, bucket_capacity: nat, keys: Seq<Seq<char>>)
    requires
        0 < num_shards <= max_shards(),
        bucket_capacity > 0,
    ensures
        spec_insert_all(spec_new(num_shards, bucket_capacity), keys) matches Some(u) ==> sum_sizes(u.buckets)
            == keys.len(),
{
    lemma_contents_empty(num_shards);
    let t = spec_new(num_shards, bucket_capacity);
    assert(buckets_wf(t.buckets, bucket_capacity, num_shards)) by {
        assert forall|b: int| 0 <= b < num_shards implies #[trigger] t.buckets[b].len() <= bucket_capacity by {}
    }
    lemma_insert_all(t, keys);
    if let Some(u) = spec_insert_all(t, keys) {
        lemma_contents_len(u.buckets);
        keys.to_multiset_ensures();
    }
}

/// Replaying the same keys in the same order into tables in the same state
/// gives the same table: placement depends on nothing else, so a table
/// kept in memory is rebuilt exactly from the stored order of its keys.
pub proof fn lemma_replay_deterministic(t1: TableView, t2: TableView, keys: Seq<Seq<char>>)
    requires
        t1 == t2,
    ensures
        spec_insert_all(t1, keys) == spec_insert_all(t2, keys),
{
}

/// Replacing one bucket changes the contents by exactly that bucket.
pub proof fn lemma_contents_update(buckets: Seq<Seq<Seq<char>>>, i: int, x: Seq<Seq<char>>)
    requires
        0 <= i < buckets.len(),
    ensures
        contents(buckets.update(i, x)).add(buckets[i].to_multiset()) == contents(buckets).add(
            x.to_multiset(),
        ),
    decreases buckets.len(),
{
    let u = buckets.update(i, x);
    assert(contents(u) == u[0].to_multiset().add(contents(u.drop_first())));
    assert(contents(buckets) == buckets[0].to_multiset().add(contents(buckets.drop_first())));
    if i == 0 {
        assert(u.drop_first() == buckets.drop_first());
        assert(u[0] == x);
        assert forall|k: Seq<char>| #[trigger] contents(u).add(buckets[i].to_multiset()).count(k)
            == contents(buckets).add(x.to_multiset()).count(k) by {}
    } else {
        assert(u.drop_first() == buckets.drop_first().update(i - 1, x));
        assert(u[0] == buckets[0]);
        assert(buckets.drop_first()[i - 1] == buckets[i]);
        lemma_contents_update(buckets.drop_first(), i - 1, x);
        assert forall|k: Seq<char>| #[trigger] contents(u).add(buckets[i].to_multiset()).count(k)
            == contents(buckets).add(x.to_multiset()).count(k) by {
            assert(contents(u.drop_first()).add(buckets[i].to_multiset()).count(k) == contents(
                buckets.drop_first(),
            ).add(x.to_multiset()).count(k));
        }
    }
    assert(contents(u).add(buckets[i].to_multiset()) =~= contents(buckets).add(x.to_multiset()));
}

/// The contents are the keys of the flattened buckets.
pub proof fn lemma_contents_flatten(buckets: Seq<Seq<Seq<char>>>)
    ensures
        contents(buckets) == buckets.flatten().to_multiset(),
    decreases buckets.len(),
{
    if buckets.len() > 0 {
        lemma_contents_flatten(buckets.drop_first());
        vstd::seq_lib::lemma_multiset_commutative(buckets[0], buckets.drop_first().flatten());
        assert(buckets.flatten() == buckets[0] + buckets.drop_first().flatten());
    }
}

/// Empty buckets hold nothing.
pub proof fn lemma_contents_empty(n: nat)
    ensures
        contents(empty_buckets(n)) == Multiset::<Seq<char>>::empty(),
        buckets_wf(empty_buckets(n), 0, n),
    decreases n,
{
    if n > 0 {
        lemma_contents_empty((n - 1) as nat);
        assert(empty_buckets(n).drop_first() == empty_buckets((n - 1) as nat));
        assert(contents(empty_buckets(n)) =~= Multiset::<Seq<char>>::empty());
    }
}

/// A key held somewhere is found by [`first_bucket_with`].
pub proof fn lemma_first_bucket_with(buckets: Seq<Seq<Seq<char>>>, key: Seq<char>, from: int)
    requires
        0 <= from <= buckets.len(),
        contents(buckets.skip(from)).count(key) > 0,
    ensures
        from <= first_bucket_with(buckets, key, from) < buckets.len(),
        buckets[first_bucket_with(buckets, key, from)].contains(key),
    decreases buckets.len() - from,
{
    let rest = buckets.skip(from);
    if from == buckets.len() {
        assert(rest.len() == 0);
    } else {
        assert(rest[0] == buckets[from]);
        assert(rest.drop_first() == buckets.skip(from + 1));
        if !buckets[from].contains(key) {
            assert(buckets[from].to_multiset().count(key) == 0);
            lemma_first_bucket_with(buckets, key, from + 1);
        }
    }
}

/// One eviction walk keeps the buckets well formed and adds exactly `key`.
/// When nothing is evicted the walk settles at `pos`, which then holds `key`.
pub proof fn lemma_walk(
    buckets: Seq<Seq<Seq<char>>>,
    capacity: nat,
    n: nat,
    key: Seq<char>,
    pos: nat,
    evictions: nat,
    fuel: nat,
)
    requires
        buckets_wf(buckets, capacity, n),
        capacity > 0,
        pos < n,
        in_candidate(key, pos as int, n),
    ensures
        walk(buckets, capacity, n, key, pos, evictions, fuel) matches Some(r) ==> {
            &&& buckets_wf(r.0, capacity, n)
            &&& contents(r.0) == contents(buckets).insert(key)
            &&& r.1 < n
            &&& evictions <= r.2 < evictions + fuel
            &&& r.2 == evictions ==> r.1 == pos && r.0[pos as int].contains(key) && r.0 == buckets.update(
                pos as int,
                buckets[pos as int].push(key),
            )
        },
    decreases fuel,
{
    if fuel > 0 {
        let bucket = buckets[pos as int];
        if bucket.len() < capacity {
            let nb = bucket.push(key);
            let r0 = buckets.update(pos as int, nb);
            assert(nb[bucket.len() as int] == key);
            assert forall|b: int, j: int| 0 <= b < n && 0 <= j < r0[b].len() implies in_candidate(
                #[trigger] r0[b][j],
                b,
                n,
            ) by {
                if b == pos && j < bucket.len() {
                    assert(r0[b][j] == buckets[b][j]);
                }
            }
            lemma_contents_update(buckets, pos as int, nb);
            assert(nb.to_multiset() == bucket.to_multiset().insert(key));
            assert forall|k: Seq<char>| #[trigger] contents(r0).count(k) == contents(buckets).insert(
                key,
            ).count(k) by {
                assert(contents(r0).add(bucket.to_multiset()).count(k) == contents(buckets).add(
                    nb.to_multiset(),
                ).count(k));
            }
            assert(contents(r0) =~= contents(buckets).insert(key));
        } else {
            let victim = bucket[0];
            let nb = bucket.remove(0).push(key);
            let evicted = buckets.update(pos as int, nb);
            assert(in_candidate(victim, pos as int, n));
            assert forall|b: int, j: int|
                0 <= b < n && 0 <= j < evicted[b].len() implies in_candidate(
                #[trigger] evicted[b][j],
                b,
                n,
            ) by {
                if b == pos && j < bucket.len() - 1 {
                    assert(evicted[b][j] == bucket[j + 1]);
                }
            }
            let next = spec_other_bucket(victim, pos, n);
            lemma_walk(evicted, capacity, n, victim, next, evictions + 1, (fuel - 1) as nat);
            lemma_contents_update(buckets, pos as int, nb);
            assert(bucket.remove(0).to_multiset() == bucket.to_multiset().remove(victim));
            assert(nb.to_multiset() == bucket.remove(0).to_multiset().insert(key));
            assert(bucket.to_multiset().count(victim) > 0);
            assert forall|k: Seq<char>| #[trigger] contents(evicted).insert(victim).count(k)
                == contents(buckets).insert(key).count(k) by {
                assert(contents(evicted).add(bucket.to_multiset()).count(k) == contents(
                    buckets,
                ).add(nb.to_multiset()).count(k));
            }
            assert(contents(evicted).insert(victim) =~= contents(buckets).insert(key));
        }
    }
}

/// A key held somewhere is held by the candidate [`key_shard`] names.
pub proof fn lemma_key_shard(buckets: Seq<Seq<Seq<char>>>, capacity: nat, n: nat, key: Seq<char>)
    requires
        buckets_wf(buckets, capacity, n),
        n > 0,
        contents(buckets).count(key) > 0,
    ensures
        key_shard(buckets, key, n) < n,
        buckets[key_shard(buckets, key, n) as int].contains(key),
        key_shard(buckets, key, n) == spec_h1(key, n) || key_shard(buckets, key, n) == spec_h2(key, n),
        first_bucket_with(buckets, key, 0) < n,
        buckets[first_bucket_with(buckets, key, 0)].contains(key),
        first_bucket_with(buckets, key, 0) == spec_h1(key, n) || first_bucket_with(buckets, key, 0)
            == spec_h2(key, n),
{
    assert(buckets.skip(0) == buckets);
    lemma_first_bucket_with(buckets, key, 0);
    let b = first_bucket_with(buckets, key, 0);
    let j = choose|j: int| 0 <= j < buckets[b].len() && buckets[b][j] == key;
    assert(in_candidate(buckets[b][j], b, n));
}

/// Placing one key keeps the buckets well formed and adds exactly that key,
/// which the reported shard (one of its candidates) then holds. Without
/// evictions the only change is that shard gaining the key; evictions
/// happen only when both candidates were full.
pub proof fn lemma_place(buckets: Seq<Seq<Seq<char>>>, capacity: nat, n: nat, key: Seq<char>, fuel: nat)
    requires
        buckets_wf(buckets, capacity, n),
        capacity > 0,
        n > 0,
    ensures
        place(buckets, capacity, n, key, fuel) matches Some(r) ==> {
            &&& buckets_wf(r.0, capacity, n)
            &&& contents(r.0) == contents(buckets).insert(key)
            &&& r.1 < n
            &&& r.0[r.1 as int].contains(key)
            &&& (r.1 == spec_h1(key, n) || r.1 == spec_h2(key, n))
            &&& fuel > 0 ==> r.2 < fuel
            &&& r.2 == 0 ==> r.0 == buckets.update(r.1 as int, buckets[r.1 as int].push(key))
            &&& r.2 > 0 ==> buckets[spec_h1(key, n) as int].len() >= capacity
                && buckets[spec_h2(key, n) as int].len() >= capacity
        },
        fuel > 0 && (buckets[spec_h1(key, n) as int].len() < capacity
            || buckets[spec_h2(key, n) as int].len() < capacity) ==> (place(
            buckets,
            capacity,
            n,
            key,
            fuel,
        ) matches Some(r) && r.2 == 0),
{
    let a = spec_h1(key, n);
    let b = spec_h2(key, n);
    if buckets[a as int].len() >= capacity && buckets[b as int].len() < capacity {
        lemma_walk(buckets, capacity, n, key, b, 0, 1);
        assert(walk(buckets, capacity, n, key, b, 0, 1) == Some(
            (buckets.update(b as int, buckets[b as int].push(key)), b, 0nat),
        ));
    } else {
        lemma_walk(buckets, capacity, n, key, a, 0, fuel);
        if let Some(r) = walk(buckets, capacity, n, key, a, 0, fuel) {
            lemma_key_shard(r.0, capacity, n, key);
            if r.2 == 0 {
                assert(r.0[a as int].contains(key));
            }
            if fuel > 0 && buckets[a as int].len() < capacity {
                assert(r.2 == 0);
            }
        }
    }
}

/// Placing keys one by one keeps the buckets well formed and adds exactly those keys.
pub proof fn lemma_place_all(buckets: Seq<Seq<Seq<char>>>, capacity: nat, n: nat, keys: Seq<Seq<char>>)
    requires
        buckets_wf(buckets, capacity, n),
        capacity > 0,
        n > 0,
    ensures
        place_all(buckets, capacity, n, keys) matches Some(b) ==> buckets_wf(b, capacity, n)
            && contents(b) == contents(buckets).add(keys.to_multiset()),
    decreases keys.len(),
{
    if keys.len() > 0 {
        lemma_place_all(buckets, capacity, n, keys.drop_last());
        if let Some(b) = place_all(buckets, capacity, n, keys.drop_last()) {
            let k = keys.last();
            lemma_place(b, capacity, n, k, spec_max_loop(n));
            assert(keys == keys.drop_last().push(k));
            assert(keys.to_multiset() == keys.drop_last().to_multiset().insert(k));
            if let Some(r) = place(b, capacity, n, k, spec_max_loop(n)) {
                assert(contents(r.0) =~= contents(buckets).add(keys.to_multiset()));
            }
        }
    } else {
        assert(keys.to_multiset() =~= Multiset::<Seq<char>>::empty());
        assert(contents(buckets).add(keys.to_multiset()) =~= contents(buckets));
    }
}

/// Growth finds a larger, well-formed table holding exactly `keys`.
pub proof fn lemma_grow(keys: Seq<Seq<char>>, capacity: nat, n: nat)
    requires
        capacity > 0,
    ensures
        grow(keys, capacity, n) matches Some(g) ==> {
            &&& n < g.0 <= max_shards()
            &&& buckets_wf(g.1, capacity, g.0)
            &&& contents(g.1) == keys.to_multiset()
        },
    decreases max_shards() - n,
{
    if n < max_shards() {
        let m = (n + 1) as nat;
        lemma_contents_empty(m);
        assert(buckets_wf(empty_buckets(m), capacity, m));
        lemma_place_all(empty_buckets(m), capacity, m, keys);
        assert(Multiset::<Seq<char>>::empty().add(keys.to_multiset()) =~= keys.to_multiset());
        lemma_grow(keys, capacity, m);
    }
}

/// Every insert keeps the table well formed and adds exactly the inserted
/// key, and the shard it reports holds the key and is one of the key's two
/// candidates in the table that results. A key whose first candidate has
/// room goes there; otherwise one whose second candidate has room goes
/// there; in both cases nothing is evicted and the only change is that
/// shard gaining the key. Evictions and growth happen only when both
/// candidates are full.
pub proof fn lemma_insert(t: TableView, key: Seq<char>)
    requires
        t.well_formed(),
        t.bucket_capacity > 0,
    ensures
        spec_insert(t, key) matches Some(r) ==> {
            &&& r.0.well_formed()
            &&& r.0.bucket_capacity == t.bucket_capacity
            &&& contents(r.0.buckets) == contents(t.buckets).insert(key)
            &&& r.1.shard_id < r.0.num_shards
            &&& r.0.buckets[r.1.shard_id as int].contains(key)
            &&& (r.1.shard_id == spec_h1(key, r.0.num_shards) || r.1.shard_id == spec_h2(
                key,
                r.0.num_shards,
            ))
            &&& !r.1.rehashed ==> r.0.num_shards == t.num_shards && r.1.evictions < t.max_loop
            &&& !r.1.rehashed && r.1.evictions == 0 ==> r.0.buckets == t.buckets.update(
                r.1.shard_id as int,
                t.buckets[r.1.shard_id as int].push(key),
            )
            &&& r.1.rehashed ==> r.0.num_shards > t.num_shards && r.1.evictions == 0
            &&& r.1.rehashed || r.1.evictions > 0 ==> t.buckets[spec_h1(key, t.num_shards) as int].len()
                >= t.bucket_capacity && t.buckets[spec_h2(key, t.num_shards) as int].len()
                >= t.bucket_capacity
        },
        t.buckets[spec_h1(key, t.num_shards) as int].len() < t.bucket_capacity ==> spec_insert(t, key)
            == Some(
            (
                TableView {
                    buckets: t.buckets.update(
                        spec_h1(key, t.num_shards) as int,
                        t.buckets[spec_h1(key, t.num_shards) as int].push(key),
                    ),
                    ..t
                },
                ShardAssignment {
                    shard_id: spec_h1(key, t.num_shards) as usize,
                    evictions: 0,
                    rehashed: false,
                },
            ),
        ),
        t.buckets[spec_h1(key, t.num_shards) as int].len() >= t.bucket_capacity && t.buckets[spec_h2(
            key,
            t.num_shards,
        ) as int].len() < t.bucket_capacity ==> spec_insert(t, key) == Some(
            (
                TableView {
                    buckets: t.buckets.update(
                        spec_h2(key, t.num_shards) as int,
                        t.buckets[spec_h2(key, t.num_shards) as int].push(key),
                    ),
                    ..t
                },
                ShardAssignment {
                    shard_id: spec_h2(key, t.num_shards) as usize,
                    evictions: 0,
                    rehashed: false,
                },
            ),
        ),
{
    let n = t.num_shards;
    lemma_place(t.buckets, t.bucket_capacity, n, key, t.max_loop);
    match place(t.buckets, t.bucket_capacity, n, key, t.max_loop) {
        Some(r) => {
            if t.buckets[spec_h1(key, n) as int].len() < t.bucket_capacity {
                assert(walk(t.buckets, t.bucket_capacity, n, key, spec_h1(key, n), 0, t.max_loop) == Some(
                    (
                        t.buckets.update(spec_h1(key, n) as int, t.buckets[spec_h1(key, n) as int].push(key)),
                        spec_h1(key, n),
                        0nat,
                    ),
                ));
            }
        },
        None => {
            let keys = t.all_keys().push(key);
            lemma_grow(keys, t.bucket_capacity, n);
            if let Some(g) = grow(keys, t.bucket_capacity, n) {
                lemma_contents_flatten(t.buckets);
                assert(contents(g.1) == contents(t.buckets).insert(key));
                lemma_key_shard(g.1, t.bucket_capacity, g.0, key);
            }
        },
    }
}

/// A walk that settles with some fuel settles the same way with more.
proof fn lemma_walk_more_fuel(
    buckets: Seq<Seq<Seq<char>>>,
    capacity: nat,
    n: nat,
    key: Seq<char>,
    pos: nat,
    evictions: nat,
    fuel: nat,
    more: nat,
)
    requires
        fuel <= more,
        walk(buckets, capacity, n, key, pos, evictions, fuel) is Some,
    ensures
        walk(buckets, capacity, n, key, pos, evictions, more) == walk(
            buckets,
            capacity,
            n,
            key,
            pos,
            evictions,
            fuel,
        ),
    decreases fuel,
{
    if fuel > 0 && buckets[pos as int].len() >= capacity {
        let victim = buckets[pos as int][0];
        let evicted = buckets.update(pos as int, buckets[pos as int].remove(0).push(key));
        lemma_walk_more_fuel(
            evicted,
            capacity,
            n,
            victim,
            spec_other_bucket(victim, pos, n),
            evictions + 1,
            (fuel - 1) as nat,
            (more - 1) as nat,
        );
    }
}

/// The eviction bound is `max(n, 8) * 4` for a table of `n` shards: a new
/// table, and every table an insert leaves behind, lets an eviction walk
/// run at least 32 steps, and four per shard once there are eight or more.
pub proof fn lemma_eviction_bound(t: TableView, key: Seq<char>, num_shards: nat, bucket_capacity: nat)
    ensures
        spec_new(num_shards, bucket_capacity).max_loop == (if num_shards >= 8 {
            4 * num_shards
        } else {
            32
        }),
        t.well_formed() ==> t.max_loop == (if t.num_shards >= 8 {
            4 * t.num_shards
        } else {
            32
        }),
        t.well_formed() && t.bucket_capacity > 0 ==> (spec_insert(t, key) matches Some(r) ==> r.0.max_loop
            == (if r.0.num_shards >= 8 {
            4 * r.0.num_shards
        } else {
            32
        }) && r.0.max_loop >= 32),
{
    if t.well_formed() && t.bucket_capacity > 0 {
        lemma_insert(t, key);
    }
}

/// An insert whose eviction walk from the first candidate settles within
/// 32 steps never rehashes: the key is placed and the shard count stays.
pub proof fn lemma_short_walk_never_rehashes(t: TableView, key: Seq<char>)
    requires
        t.well_formed(),
        t.bucket_capacity > 0,
        walk(t.buckets, t.bucket_capacity, t.num_shards, key, spec_h1(key, t.num_shards), 0, 32) is Some,
    ensures
        spec_insert(t, key) matches Some(r) && !r.1.rehashed && r.0.num_shards == t.num_shards,
{
    let n = t.num_shards;
    let a = spec_h1(key, n);
    let b = spec_h2(key, n);
    if !(t.buckets[a as int].len() >= t.bucket_capacity && t.buckets[b as int].len() < t.bucket_capacity) {
        lemma_walk_more_fuel(t.buckets, t.bucket_capacity, n, key, a, 0, 32, t.max_loop);
    }
}

/// Placement depends on nothing but the table's state and the key: two
/// tables in the same state that receive the same key end in the same
/// state and report the same assignment, so replaying the same keys in the
/// same order rebuilds the same table.
pub proof fn lemma_insert_deterministic(t1: TableView, t2: TableView, key: Seq<char>)
    requires
        t1 == t2,
    ensures
        spec_insert(t1, key) == spec_insert(t2, key),
{
}


/// `256^n` grows with `n`.
proof fn lemma_byte_power_mono(a: nat, b: nat)
    requires
        a <= b,
    ensures
        byte_power(a) <= byte_power(b),
    decreases b,
{
    if a < b {
        lemma_byte_power_mono(a, (b - 1) as nat);
    }
}

/// The first eight bytes of a digest read as a big-endian number.
pub fn leading_u64(digest: &[u8]) -> (value: u64)
    requires
        digest@.len() >= 8,
    ensures
        value == be_value(digest@.take(8)),
{
    let mut value: u64 = 0;
    proof {
        reveal_with_fuel(byte_power, 8);
        assert(byte_power(7) == 0x100_0000_0000_0000);
    }
    for i in 0..8
        invariant
            digest@.len() >= 8,
            value == be_value(digest@.take(i as int)),
            byte_power(7) == 0x100_0000_0000_0000,
    {
        proof {
            lemma_be_value_bound(digest@.take(i as int));
            lemma_byte_power_mono(i as nat, 7);
            assert(digest@.take(i + 1).drop_last() == digest@.take(i as int));
        }
        value = value * 256 + digest[i] as u64;
    }
    value
}

/// The salted hash of `key`.
fn hash_with_salt(salt: &str, key: &str) -> (h: u64)
    ensures
        h == spec_hash_with_salt(salt@, key@),
{
    let data = concat_bytes(salt.as_bytes(), key.as_bytes());
    let digest = sha256_digest(data.as_slice());
    leading_u64(digest.as_slice())
}

/// The first candidate shard of `key`.
fn h1(key: &str, num_shards: usize) -> (shard: usize)
    requires
        num_shards > 0,
    ensures
        shard == spec_h1(key@, num_shards as nat),
        shard < num_shards,
{
    (hash_with_salt("gaskiya-cuckoo-h1", key) % (num_shards as u64)) as usize
}

/// The second candidate shard of `key`.
fn h2(key: &str, num_shards: usize) -> (shard: usize)
    requires
        num_shards > 0,
    ensures
        shard == spec_h2(key@, num_shards as nat),
        shard < num_shards,
{
    (hash_with_salt("gaskiya-cuckoo-h2", key) % (num_shards as u64)) as usize
}

/// The candidate of `key` other than `current`.
fn other_bucket(key: &str, current: usize, num_shards: usize) -> (shard: usize)
    requires
        num_shards > 0,
    ensures
        shard == spec_other_bucket(key@, current as nat, num_shards as nat),
        shard < num_shards,
{
    let a = h1(key, num_shards);
    let b = h2(key, num_shards);
    if current == a {
        b
    } else {
        a
    }
}

/// The buckets as text.
pub open spec fn buckets_view(buckets: Seq<Vec<String>>) -> Seq<Seq<Seq<char>>> {
    buckets.map_values(|b: Vec<String>| text_view(b@))
}

/// Pushing a bucket pushes its text.
proof fn lemma_buckets_view_push(buckets: Seq<Vec<String>>, b: Vec<String>)
    ensures
        buckets_view(buckets.push(b)) == buckets_view(buckets).push(text_view(b@)),
{
    assert(buckets_view(buckets.push(b)) =~= buckets_view(buckets).push(text_view(b@)));
}

/// `n` new empty buckets.
fn new_buckets(n: usize) -> (buckets: Vec<Vec<String>>)
    ensures
        buckets_view(buckets@) == empty_buckets(n as nat),
{
    let mut buckets: Vec<Vec<String>> = Vec::new();
    for i in 0..n
        invariant
            buckets_view(buckets@) == empty_buckets(n as nat).take(i as int),
    {
        let ghost prev = buckets@;
        let fresh: Vec<String> = Vec::new();
        buckets.push(fresh);
        proof {
            lemma_buckets_view_push(prev, fresh);
            assert(text_view(fresh@) =~= Seq::<Seq<char>>::empty());
            assert(empty_buckets(n as nat).take(i + 1) =~= empty_buckets(n as nat).take(i as int).push(
                Seq::<Seq<char>>::empty(),
            ));
        }
    }
    assert(empty_buckets(n as nat).take(n as int) == empty_buckets(n as nat));
    buckets
}

/// A copy of every bucket.
fn clone_buckets(buckets: &Vec<Vec<String>>) -> (copy: Vec<Vec<String>>)
    ensures
        buckets_view(copy@) == buckets_view(buckets@),
{
    let mut out: Vec<Vec<String>> = Vec::new();
    for i in 0..buckets.len()
        invariant
            buckets_view(out@) == buckets_view(buckets@).take(i as int),
    {
        let src = &buckets[i];
        let mut copy: Vec<String> = Vec::new();
        for j in 0..src.len()
            invariant
                text_view(copy@) == text_view(src@).take(j as int),
        {
            let ghost prev = copy@;
            let c = src[j].clone();
            copy.push(c);
            proof {
                lemma_text_view_push(prev, c);
                assert(text_view(src@)[j as int] == src@[j as int]@);
                assert(text_view(src@).take(j + 1) =~= text_view(src@).take(j as int).push(c@));
            }
        }
        assert(text_view(src@).take(src@.len() as int) == text_view(src@));
        let ghost prev_out = out@;
        proof {
            lemma_buckets_view_push(prev_out, copy);
            assert(buckets_view(buckets@)[i as int] == text_view(src@));
            assert(buckets_view(buckets@).take(i + 1) =~= buckets_view(buckets@).take(i as int).push(
                text_view(copy@),
            ));
        }
        out.push(copy);
    }
    assert(buckets_view(buckets@).take(buckets@.len() as int) == buckets_view(buckets@));
    out
}

/// The eviction walk of `key` through `buckets`, from its first candidate,
/// for at most `max_loop` steps. On `None` the buckets are left part-way
/// through the walk, and the caller drops them.
fn walk_chain(
    buckets: &mut Vec<Vec<String>>,
    num_shards: usize,
    capacity: usize,
    max_loop: usize,
    key: &str,
) -> (placed: Option<(usize, usize)>)
    requires
        old(buckets)@.len() == num_shards,
        num_shards > 0,
        capacity > 0,
    ensures
        final(buckets)@.len() == num_shards,
        match placed {
            Some(p) => walk(
                buckets_view(old(buckets)@),
                capacity as nat,
                num_shards as nat,
                key@,
                spec_h1(key@, num_shards as nat),
                0,
                max_loop as nat,
            ) == Some((buckets_view(final(buckets)@), p.0 as nat, p.1 as nat)),
            None => walk(
                buckets_view(old(buckets)@),
                capacity as nat,
                num_shards as nat,
                key@,
                spec_h1(key@, num_shards as nat),
                0,
                max_loop as nat,
            ) is None,
        },
{
    let ghost start = buckets_view(buckets@);
    let mut current: String = key.to_owned();
    let mut pos = h1(key, num_shards);
    let mut evictions: usize = 0;
    let mut step: usize = 0;
    while step < max_loop
        invariant
            start == buckets_view(old(buckets)@),
            buckets@.len() == num_shards,
            num_shards > 0,
            capacity > 0,
            pos < num_shards,
            evictions == step,
            step <= max_loop,
            walk(start, capacity as nat, num_shards as nat, key@, spec_h1(key@, num_shards as nat), 0, max_loop as nat)
                == walk(
                buckets_view(buckets@),
                capacity as nat,
                num_shards as nat,
                current@,
                pos as nat,
                evictions as nat,
                (max_loop - step) as nat,
            ),
        decreases max_loop - step,
    {
        let ghost before = buckets@;
        let len = buckets[pos].len();
        assert(buckets_view(before)[pos as int] == text_view(before[pos as int]@));
        if len < capacity {
            let ghost cur = current@;
            assert(walk(buckets_view(before), capacity as nat, num_shards as nat, cur, pos as nat, evictions as nat, (max_loop - step) as nat)
                == Some((buckets_view(before).update(pos as int, buckets_view(before)[pos as int].push(cur)), pos as nat, evictions as nat)));
            buckets[pos].push(current);
            assert(buckets_view(buckets@) =~= buckets_view(before).update(
                pos as int,
                buckets_view(before)[pos as int].push(cur),
            )) by {
                assert(text_view(buckets@[pos as int]@) =~= text_view(before[pos as int]@).push(cur));
            }
            assert(walk(start, capacity as nat, num_shards as nat, key@, spec_h1(key@, num_shards as nat), 0, max_loop as nat)
                == Some((buckets_view(buckets@), pos as nat, evictions as nat)));
            return Some((pos, evictions));
        }
        let ghost cur = current@;
        let victim = buckets[pos].remove(0);
        assert(victim@ == buckets_view(before)[pos as int][0]);
        buckets[pos].push(current);
        assert(buckets_view(buckets@) =~= buckets_view(before).update(
            pos as int,
            buckets_view(before)[pos as int].remove(0).push(cur),
        )) by {
            assert(text_view(buckets@[pos as int]@) =~= text_view(before[pos as int]@).remove(0).push(
                cur,
            ));
        }
        evictions = evictions + 1;
        let next = other_bucket(victim.as_str(), pos, num_shards);
        current = victim;
        pos = next;
        step = step + 1;
    }
    None
}

/// The first bucket that holds `key`, or the number of buckets if none does.
fn find_first_bucket(buckets: &Vec<Vec<String>>, key: &String) -> (b: usize)
    ensures
        b == first_bucket_with(buckets_view(buckets@), key@, 0),
{
    let ghost bv = buckets_view(buckets@);
    let mut b: usize = 0;
    while b < buckets.len()
        invariant
            b <= buckets@.len(),
            bv == buckets_view(buckets@),
            first_bucket_with(bv, key@, 0) == first_bucket_with(bv, key@, b as int),
        decreases buckets@.len() - b,
    {
        assert(bv[b as int] == text_view(buckets@[b as int]@));
        if contains_text(&buckets[b], key) {
            return b;
        }
        b = b + 1;
    }
    b
}

/// The candidate of `key` that holds it (see [`key_shard`]).
fn holding_candidate(buckets: &Vec<Vec<String>>, num_shards: usize, key: &str) -> (shard: usize)
    requires
        buckets@.len() == num_shards,
        num_shards > 0,
    ensures
        shard == key_shard(buckets_view(buckets@), key@, num_shards as nat),
{
    let a = h1(key, num_shards);
    let owned = key.to_owned();
    assert(buckets_view(buckets@)[a as int] == text_view(buckets@[a as int]@));
    if contains_text(&buckets[a], &owned) {
        a
    } else {
        h2(key, num_shards)
    }
}

/// Places one key (see [`place`]): into its first candidate if that has
/// room, else its second if that has room, else by the eviction walk. On
/// `None` the buckets are left part-way through the walk, and the caller
/// drops them.
fn place_key(
    buckets: &mut Vec<Vec<String>>,
    num_shards: usize,
    capacity: usize,
    max_loop: usize,
    key: &str,
) -> (placed: Option<(usize, usize)>)
    requires
        old(buckets)@.len() == num_shards,
        num_shards > 0,
        capacity > 0,
    ensures
        match placed {
            Some(p) => place(buckets_view(old(buckets)@), capacity as nat, num_shards as nat, key@, max_loop as nat)
                == Some((buckets_view(final(buckets)@), p.0 as nat, p.1 as nat)),
            None => place(buckets_view(old(buckets)@), capacity as nat, num_shards as nat, key@, max_loop as nat)
                is None,
        },
{
    let ghost before = buckets@;
    let a = h1(key, num_shards);
    let b = h2(key, num_shards);
    assert(buckets_view(before)[a as int] == text_view(before[a as int]@));
    assert(buckets_view(before)[b as int] == text_view(before[b as int]@));
    if buckets[a].len() >= capacity && buckets[b].len() < capacity {
        let owned = key.to_owned();
        buckets[b].push(owned);
        assert(buckets_view(buckets@) =~= buckets_view(before).update(
            b as int,
            buckets_view(before)[b as int].push(key@),
        )) by {
            assert(text_view(buckets@[b as int]@) =~= text_view(before[b as int]@).push(key@));
        }
        return Some((b, 0));
    }
    match walk_chain(buckets, num_shards, capacity, max_loop, key) {
        Some((_, evictions)) => {
            let shard = holding_candidate(buckets, num_shards, key);
            Some((shard, evictions))
        },
        None => None,
    }
}

/// Placing a prefix that already fails means placing the whole sequence fails.
proof fn lemma_place_all_prefix_fails(
    buckets: Seq<Seq<Seq<char>>>,
    capacity: nat,
    n: nat,
    keys: Seq<Seq<char>>,
    i: int,
)
    requires
        0 <= i <= keys.len(),
        place_all(buckets, capacity, n, keys.take(i)) is None,
    ensures
        place_all(buckets, capacity, n, keys) is None,
    decreases keys.len(),
{
    if i < keys.len() {
        assert(keys.drop_last().take(i) == keys.take(i));
        lemma_place_all_prefix_fails(buckets, capacity, n, keys.drop_last(), i);
    } else {
        assert(keys.take(i) == keys);
    }
}

/// Places `keys` one after the other; `false` as soon as one walk fails.
fn place_keys(
    buckets: &mut Vec<Vec<String>>,
    num_shards: usize,
    capacity: usize,
    max_loop: usize,
    keys: &Vec<String>,
) -> (ok: bool)
    requires
        buckets_wf(buckets_view(old(buckets)@), capacity as nat, num_shards as nat),
        num_shards > 0,
        capacity > 0,
        max_loop == spec_max_loop(num_shards as nat),
    ensures
        ok == place_all(buckets_view(old(buckets)@), capacity as nat, num_shards as nat, text_view(keys@)) is Some,
        ok ==> place_all(buckets_view(old(buckets)@), capacity as nat, num_shards as nat, text_view(keys@))
            == Some(buckets_view(final(buckets)@)),
{
    let ghost start = buckets_view(buckets@);
    let ghost kv = text_view(keys@);
    assert(kv.take(0) == Seq::<Seq<char>>::empty());
    for i in 0..keys.len()
        invariant
            start == buckets_view(old(buckets)@),
            kv == text_view(keys@),
            num_shards > 0,
            capacity > 0,
            max_loop == spec_max_loop(num_shards as nat),
            buckets_wf(buckets_view(buckets@), capacity as nat, num_shards as nat),
            place_all(start, capacity as nat, num_shards as nat, kv.take(i as int)) == Some(
                buckets_view(buckets@),
            ),
    {
        let ghost before = buckets_view(buckets@);
        assert(kv.take(i + 1).drop_last() == kv.take(i as int));
        assert(kv.take(i + 1).last() == kv[i as int]);
        assert(kv[i as int] == keys@[i as int]@);
        proof {
            lemma_place(before, capacity as nat, num_shards as nat, kv[i as int], max_loop as nat);
        }
        match place_key(buckets, num_shards, capacity, max_loop, keys[i].as_str()) {
            Some(_) => {},
            None => {
                assert(place(before, capacity as nat, num_shards as nat, kv[i as int], max_loop as nat) is None);
                assert(place_all(start, capacity as nat, num_shards as nat, kv.take(i + 1)) is None);
                proof {
                    lemma_place_all_prefix_fails(start, capacity as nat, num_shards as nat, kv, i + 1);
                }
                return false;
            },
        }
    }
    assert(kv.take(keys@.len() as int) == kv);
    true
}

/// A shard table whose keys are listing ids.
pub struct CuckooShardTable {
    num_shards: usize,
    bucket_capacity: usize,
    max_loop: usize,
    buckets: Vec<Vec<String>>,
}

impl View for CuckooShardTable {
    type V = TableView;

    closed spec fn view(&self) -> TableView {
        TableView {
            num_shards: self.num_shards as nat,
            bucket_capacity: self.bucket_capacity as nat,
            max_loop: self.max_loop as nat,
            buckets: buckets_view(self.buckets@),
        }
    }
}

impl CuckooShardTable {
    #[verifier::type_invariant]
    closed spec fn inv(&self) -> bool {
        self@.well_formed()
    }

    /// A table of `num_shards` empty shards, each holding up to
    /// `bucket_capacity` keys.
    pub fn new(num_shards: usize, bucket_capacity: usize) -> (table: Self)
        requires
            0 < num_shards <= usize::MAX / 4,
        ensures
            table@ == spec_new(num_shards as nat, bucket_capacity as nat),
            table@.well_formed(),
            sum_sizes(table@.buckets) == 0,
    {
        proof {
            lemma_contents_empty(num_shards as nat);
            lemma_contents_len(empty_buckets(num_shards as nat));
        }
        let max_loop = if num_shards >= 8 {
            num_shards * 4
        } else {
            32
        };
        let buckets = new_buckets(num_shards);
        proof {
            lemma_contents_empty(num_shards as nat);
        }
        CuckooShardTable { num_shards, bucket_capacity, max_loop, buckets }
    }

    /// The current number of shards.
    pub fn num_shards(&self) -> (n: usize)
        ensures
            n == self@.num_shards,
    {
        self.num_shards
    }

    /// The two candidate shards of `key` in the table as it stands.
    pub fn candidates(&self, key: &str) -> (c: (usize, usize))
        ensures
            c.0 == spec_h1(key@, self@.num_shards),
            c.1 == spec_h2(key@, self@.num_shards),
    {
        proof {
            use_type_invariant(self);
        }
        (h1(key, self.num_shards), h2(key, self.num_shards))
    }

    /// Occupancy of each shard, for the transparency dashboard's bar chart.
    pub fn distribution(&self) -> (counts: Vec<usize>)
        ensures
            counts@.len() == self@.num_shards,
            forall|i: int| 0 <= i < counts@.len() ==> #[trigger] counts@[i] == self@.buckets[i].len(),
            sum_counts(counts@) == sum_sizes(self@.buckets),
    {
        proof {
            use_type_invariant(self);
        }
        let mut counts: Vec<usize> = Vec::new();
        for i in 0..self.buckets.len()
            invariant
                counts@.len() == i,
                self@.buckets == buckets_view(self.buckets@),
                forall|k: int| 0 <= k < i ==> #[trigger] counts@[k] == self@.buckets[k].len(),
        {
            assert(self@.buckets[i as int] == text_view(self.buckets@[i as int]@));
            counts.push(self.buckets[i].len());
        }
        proof {
            lemma_sum_counts(counts@, self@.buckets);
        }
        counts
    }

    /// Every key held, bucket by bucket.
    fn all_keys(&self) -> (keys: Vec<String>)
        ensures
            text_view(keys@) == self@.all_keys(),
    {
        let ghost bv = self@.buckets;
        let mut keys: Vec<String> = Vec::new();
        assert(bv.take(0).flatten_alt() == Seq::<Seq<char>>::empty());
        for i in 0..self.buckets.len()
            invariant
                bv == buckets_view(self.buckets@),
                bv.len() == self.buckets@.len(),
                text_view(keys@) == bv.take(i as int).flatten_alt(),
        {
            let bucket = &self.buckets[i];
            assert(bv[i as int] == text_view(bucket@));
            for j in 0..bucket.len()
                invariant
                    i < bv.len(),
                    bv[i as int] == text_view(bucket@),
                    text_view(keys@) == bv.take(i as int).flatten_alt() + bv[i as int].take(j as int),
            {
                let ghost prev = keys@;
                let c = bucket[j].clone();
                keys.push(c);
                proof {
                    lemma_text_view_push(prev, c);
                    assert(bv[i as int][j as int] == c@);
                    assert(bv[i as int].take(j + 1) =~= bv[i as int].take(j as int).push(c@));
                    assert(text_view(keys@) =~= bv.take(i as int).flatten_alt() + bv[i as int].take(j + 1));
                }
            }
            assert(bv[i as int].take(bucket@.len() as int) == bv[i as int]);
            assert(bv.take(i + 1).drop_last() == bv.take(i as int));
        }
        assert(bv.take(bv.len() as int) == bv);
        proof {
            bv.lemma_flatten_and_flatten_alt_are_equivalent();
        }
        keys
    }

    /// Places `key` (see [`place`]) on a copy of the buckets, and keeps the
    /// copy only if the placement succeeded within `max_loop` steps.
    fn try_insert(&mut self, key: &str) -> (placed: Option<ShardAssignment>)
        requires
            old(self)@.bucket_capacity > 0,
        ensures
            match placed {
                Some(a) => place(
                    old(self)@.buckets,
                    old(self)@.bucket_capacity,
                    old(self)@.num_shards,
                    key@,
                    old(self)@.max_loop,
                ) == Some((final(self)@.buckets, a.shard_id as nat, a.evictions as nat)) && !a.rehashed
                    && final(self)@ == (TableView { buckets: final(self)@.buckets, ..old(self)@ }),
                None => place(
                    old(self)@.buckets,
                    old(self)@.bucket_capacity,
                    old(self)@.num_shards,
                    key@,
                    old(self)@.max_loop,
                ) is None && final(self)@ == old(self)@,
            },
    {
        proof {
            use_type_invariant(&*self);
        }
        let mut work = clone_buckets(&self.buckets);
        match place_key(&mut work, self.num_shards, self.bucket_capacity, self.max_loop, key) {
            Some((shard_id, evictions)) => {
                proof {
                    lemma_place(
                        self@.buckets,
                        self@.bucket_capacity,
                        self@.num_shards,
                        key@,
                        self@.max_loop,
                    );
                }
                self.buckets = work;
                Some(ShardAssignment { shard_id, evictions, rehashed: false })
            },
            None => None,
        }
    }

    /// Grows the table one shard at a time and replays every key it holds
    /// (plus `pending_key`) until a full reinsertion succeeds; `None`, with
    /// the table unchanged, if no shard count up to [`max_shards`] fits them.
    fn rehash_and_reinsert(&mut self, pending_key: String) -> (placed: Option<ShardAssignment>)
        requires
            old(self)@.bucket_capacity > 0,
        ensures
            match grow(old(self)@.all_keys().push(pending_key@), old(self)@.bucket_capacity, old(self)@.num_shards) {
                Some(g) => placed == Some(
                    ShardAssignment {
                        shard_id: first_bucket_with(g.1, pending_key@, 0) as usize,
                        evictions: 0,
                        rehashed: true,
                    },
                ) && final(self)@ == (TableView {
                    num_shards: g.0,
                    bucket_capacity: old(self)@.bucket_capacity,
                    max_loop: spec_max_loop(g.0),
                    buckets: g.1,
                }),
                None => placed is None && final(self)@ == old(self)@,
            },
    {
        proof {
            use_type_invariant(&*self);
        }
        let mut all_keys = self.all_keys();
        all_keys.push(pending_key.clone());
        let ghost keys = text_view(all_keys@);
        assert(keys == self@.all_keys().push(pending_key@));
        let capacity = self.bucket_capacity;
        let start = self.num_shards;
        let limit = usize::MAX / 4;
        let mut n = self.num_shards;
        let ghost old_view = self@;
        while n < limit
            invariant
                n <= limit,
                limit == max_shards(),
                capacity > 0,
                text_view(all_keys@) == keys,
                self@ == old_view,
                old_view == old(self)@,
                start == old_view.num_shards,
                capacity == old_view.bucket_capacity,
                keys == old_view.all_keys().push(pending_key@),
                grow(keys, capacity as nat, start as nat) == grow(keys, capacity as nat, n as nat),
            decreases limit - n,
        {
            n = n + 1;
            let max_loop = if n >= 8 {
                n * 4
            } else {
                32
            };
            let mut buckets = new_buckets(n);
            proof {
                lemma_contents_empty(n as nat);
                lemma_place_all(empty_buckets(n as nat), capacity as nat, n as nat, keys);
                assert(grow(keys, capacity as nat, (n - 1) as nat) == match place_all(
                    empty_buckets(n as nat),
                    capacity as nat,
                    n as nat,
                    keys,
                ) {
                    Some(b) => Some((n as nat, b)),
                    None => grow(keys, capacity as nat, n as nat),
                });
            }
            if place_keys(&mut buckets, n, capacity, max_loop, &all_keys) {
                let shard_id = find_first_bucket(&buckets, &pending_key);
                assert(grow(keys, capacity as nat, start as nat) == Some((n as nat, buckets_view(buckets@))));
                *self = CuckooShardTable { num_shards: n, bucket_capacity: capacity, max_loop, buckets };
                return Some(ShardAssignment { shard_id, evictions: 0, rehashed: true });
            }
        }
        None
    }

    /// Rebuilds a table of `num_shards` shards by inserting `keys` in order:
    /// `None` when one of the inserts fails.
    pub fn replay(num_shards: usize, bucket_capacity: usize, keys: &[String]) -> (table: Option<Self>)
        requires
            0 < num_shards <= usize::MAX / 4,
            bucket_capacity > 0,
        ensures
            match table {
                Some(t) => spec_insert_all(spec_new(num_shards as nat, bucket_capacity as nat), text_view(keys@))
                    == Some(t@),
                None => spec_insert_all(spec_new(num_shards as nat, bucket_capacity as nat), text_view(keys@))
                    is None,
            },
            table matches Some(t) ==> sum_sizes(t@.buckets) == keys@.len(),
    {
        let ghost start = spec_new(num_shards as nat, bucket_capacity as nat);
        let ghost all = text_view(keys@);
        proof {
            lemma_replay_counts(num_shards as nat, bucket_capacity as nat, all);
        }
        let mut table = CuckooShardTable::new(num_shards, bucket_capacity);
        assert(all.take(0) =~= Seq::<Seq<char>>::empty());
        for i in 0..keys.len()
            invariant
                table@.bucket_capacity == bucket_capacity,
                bucket_capacity > 0,
                start == spec_new(num_shards as nat, bucket_capacity as nat),
                all == text_view(keys@),
                spec_insert_all(start, all.take(i as int)) == Some(table@),
        {
            let key = keys[i].as_str();
            assert(all.take(i + 1).drop_last() == all.take(i as int));
            assert(all.take(i + 1).last() == key@);
            let ghost before = table@;
            match table.insert(key) {
                Some(_) => {
                    proof {
                        let r = spec_insert(before, key@);
                        assert(r matches Some(x) && x.0 == table@);
                    }
                },
                None => {
                    proof {
                        lemma_insert_all_prefix_fails(start, all, i + 1);
                    }
                    return None;
                },
            }
        }
        assert(all.take(keys@.len() as int) == all);
        Some(table)
    }

    /// Places `key`: in its first candidate shard if that has room, else in
    /// its second if that has room, else by evicting occupants to their
    /// other candidates, else by growing the table and replaying every key.
    /// The reported shard is the one that holds the key afterwards. `None`, with the table unchanged,
    /// when even growing to [`max_shards`] shards cannot fit every key.
    pub fn insert(&mut self, key: &str) -> (placed: Option<ShardAssignment>)
        requires
            old(self)@.bucket_capacity > 0,
        ensures
            match placed {
                Some(a) => spec_insert(old(self)@, key@) == Some((final(self)@, a)),
                None => spec_insert(old(self)@, key@) is None && final(self)@ == old(self)@,
            },
            final(self)@.well_formed(),
            placed matches Some(a) ==> {
                &&& a.shard_id < final(self)@.num_shards
                &&& final(self)@.buckets[a.shard_id as int].contains(key@)
                &&& (a.shard_id == spec_h1(key@, final(self)@.num_shards) || a.shard_id == spec_h2(
                    key@,
                    final(self)@.num_shards,
                ))
                &&& sum_sizes(final(self)@.buckets) == sum_sizes(old(self)@.buckets) + 1
            },
    {
        proof {
            use_type_invariant(&*self);
            lemma_insert(self@, key@);
            lemma_insert_adds_one(self@, key@);
        }
        proof {
            use_type_invariant(&*self);
        }
        match self.try_insert(key) {
            Some(a) => {
                proof {
                    use_type_invariant(&*self);
                }
                Some(a)
            },
            None => {
                let r = self.rehash_and_reinsert(key.to_owned());
                proof {
                    use_type_invariant(&*self);
                }
                r
            },
        }
    }
}

} // verus!
