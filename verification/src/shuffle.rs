//! The balanced shuffle: a random order in which the tracks of one artist are
//! spread out.

use crate::sort::{
    arranged, is_arrangement, is_stable_sort, lemma_arrangement_holds, stable_sort, SortOrder,
};
use crate::track::{Id, MusicCollection};
use rand::seq::SliceRandom;
use vstd::prelude::*;

verus! {

/// What the tracks of one bucket have in common.
#[derive(Clone, Copy, Debug, PartialEq, Eq, Structural, Hash)]
pub enum ClusterKey {
    Artist(Id),
    Album(Id),
    Track(Id),
}

/// The cluster of a song: its first artist, failing that its album, failing
/// that the song alone.
pub open spec fn cluster_of(song_id: Id, collection: MusicCollection) -> ClusterKey {
    match collection.song(song_id) {
        None => ClusterKey::Track(song_id),
        Some(song) => if song.artists.len() > 0 {
            ClusterKey::Artist(song.artists[0])
        } else {
            match song.album {
                Some(album_id) => ClusterKey::Album(album_id),
                None => ClusterKey::Track(song_id),
            }
        },
    }
}

/// The cluster of a song.
pub fn cluster_key(song_id: Id, collection: &MusicCollection) -> (key: ClusterKey)
    ensures
        key == cluster_of(song_id, *collection),
{
    match collection.get_song(&song_id) {
        None => ClusterKey::Track(song_id),
        Some(song) => {
            if song.artists.len() > 0 {
                ClusterKey::Artist(song.artists[0])
            } else {
                match song.album {
                    Some(album_id) => ClusterKey::Album(album_id),
                    None => ClusterKey::Track(song_id),
                }
            }
        },
    }
}

// ---------------------------------------------------------------------------
// Rounds
// ---------------------------------------------------------------------------

/// No bucket is longer than one before it.
pub open spec fn descending(buckets: Seq<Seq<usize>>) -> bool {
    forall|i: int, j: int|
        #![trigger buckets[i], buckets[j]]
        0 <= i <= j < buckets.len() ==> buckets[i].len() >= buckets[j].len()
}

pub open spec fn none_empty(buckets: Seq<Seq<usize>>) -> bool {
    forall|i: int| 0 <= i < buckets.len() ==> (#[trigger] buckets[i]).len() > 0
}

/// How many buckets at the front hold two items or more.
pub open spec fn long_buckets(buckets: Seq<Seq<usize>>) -> nat
    decreases buckets.len(),
{
    if buckets.len() == 0 || buckets[0].len() < 2 {
        0
    } else {
        1 + long_buckets(buckets.drop_first())
    }
}

/// The bucket that gives the `i`-th item of a round, of `n` buckets of which
/// the first `k` hold more than one item. Those go in order; of the others the
/// first goes first and the rest from the back.
pub open spec fn giver(n: int, k: int, i: int) -> int {
    if i <= k {
        i
    } else {
        n - (i - k)
    }
}

/// The items of one round: the last item of every bucket.
pub open spec fn round_items(buckets: Seq<Seq<usize>>) -> Seq<usize> {
    Seq::new(
        buckets.len(),
        |i: int| buckets[giver(buckets.len() as int, long_buckets(buckets) as int, i)].last(),
    )
}

/// The buckets after one round.
pub open spec fn round_rest(buckets: Seq<Seq<usize>>) -> Seq<Seq<usize>> {
    Seq::new(long_buckets(buckets), |i: int| buckets[i].drop_last())
}

/// Round after round until every bucket is used up.
pub open spec fn rounds(buckets: Seq<Seq<usize>>) -> Seq<usize>
    decreases
            if buckets.len() == 0 {
                0
            } else {
                buckets[0].len() + 1
            },
{
    if buckets.len() == 0 {
        Seq::empty()
    } else {
        round_items(buckets) + rounds(round_rest(buckets))
    }
}

proof fn lemma_long_buckets(buckets: Seq<Seq<usize>>)
    requires
        descending(buckets),
    ensures
        long_buckets(buckets) <= buckets.len(),
        forall|i: int|
            0 <= i < buckets.len() ==> ((#[trigger] buckets[i]).len() >= 2 <==> i < long_buckets(
                buckets,
            )),
    decreases buckets.len(),
{
    if buckets.len() > 0 {
        let rest = buckets.drop_first();
        assert(descending(rest)) by {
            assert forall|i: int, j: int|
                #![trigger rest[i], rest[j]]
                0 <= i <= j < rest.len() implies rest[i].len() >= rest[j].len() by {
                assert(buckets[i + 1].len() >= buckets[j + 1].len());
            }
        }
        lemma_long_buckets(rest);
        assert forall|i: int| 0 <= i < buckets.len() implies ((#[trigger] buckets[i]).len() >= 2
            <==> i < long_buckets(buckets)) by {
            assert(buckets[0].len() >= buckets[i].len());
            if i > 0 && buckets[0].len() >= 2 {
                assert(rest[i - 1] == buckets[i]);
            }
        }
    }
}

/// After a round the buckets are still the longest first and none is empty.
proof fn lemma_round_rest(buckets: Seq<Seq<usize>>)
    requires
        descending(buckets),
    ensures
        descending(round_rest(buckets)),
        none_empty(round_rest(buckets)),
{
    lemma_long_buckets(buckets);
    let rest = round_rest(buckets);
    assert forall|i: int, j: int|
        #![trigger rest[i], rest[j]]
        0 <= i <= j < rest.len() implies rest[i].len() >= rest[j].len() by {
        assert(buckets[i].len() >= buckets[j].len());
        assert(buckets[i].len() >= 2);
        assert(buckets[j].len() >= 2);
    }
    assert forall|i: int| 0 <= i < rest.len() implies (#[trigger] rest[i]).len() > 0 by {
        assert(buckets[i].len() >= 2);
    }
}

/// The longest buckets first.
pub struct LongestFirst;

impl SortOrder<Vec<usize>> for LongestFirst {
    open spec fn le(&self, a: Vec<usize>, b: Vec<usize>) -> bool {
        a@.len() >= b@.len()
    }

    proof fn total(&self, a: Vec<usize>, b: Vec<usize>) {
    }

    proof fn transitive(&self, a: Vec<usize>, b: Vec<usize>, c: Vec<usize>) {
    }

    fn ranks_before(&self, a: &Vec<usize>, b: &Vec<usize>) -> (before: bool) {
        a.len() >= b.len()
    }
}

/// The contents of a list of buckets.
pub open spec fn contents(buckets: Seq<Vec<usize>>) -> Seq<Seq<usize>> {
    buckets.map_values(|b: Vec<usize>| b@)
}

/// Takes one item from every bucket, over and over, the longest buckets first.
pub fn interleave(buckets: &Vec<Vec<usize>>) -> (result: Vec<usize>)
    requires
        none_empty(contents(buckets@)),
    ensures
        exists|p: Seq<usize>| #[trigger]
            is_stable_sort(buckets@, LongestFirst, p) && result@ == rounds(
                arranged(contents(buckets@), p),
            ),
{
    let positions = stable_sort(buckets, &LongestFirst);
    let ghost sorted: Seq<Seq<usize>> = arranged(contents(buckets@), positions@);
    let mut list: Vec<Vec<usize>> = Vec::new();
    let mut next: usize = 0;
    while next < positions.len()
        invariant
            next <= positions@.len(),
            is_stable_sort(buckets@, LongestFirst, positions@),
            sorted == arranged(contents(buckets@), positions@),
            contents(list@) == sorted.take(next as int),
        decreases positions@.len() - next,
    {
        let bucket = buckets[positions[next]].clone();
        let ghost before = list@;
        list.push(bucket);
        assert(contents(list@) =~= contents(before).push(bucket@));
        assert(bucket@ =~= sorted[next as int]);
        assert(sorted.take(next + 1) =~= sorted.take(next as int).push(sorted[next as int]));
        next = next + 1;
    }
    assert(contents(list@) =~= sorted);
    assert(descending(sorted)) by {
        assert forall|i: int, j: int|
            #![trigger sorted[i], sorted[j]]
            0 <= i <= j < sorted.len() implies sorted[i].len() >= sorted[j].len() by {
            if i < j {
                assert(LongestFirst.le(
                    buckets@[positions@[i] as int],
                    buckets@[positions@[j] as int],
                ));
            }
        }
    }
    assert(none_empty(sorted)) by {
        assert forall|i: int| 0 <= i < sorted.len() implies (#[trigger] sorted[i]).len() > 0 by {
            assert(positions@[i] < buckets@.len());
            assert(contents(buckets@)[positions@[i] as int].len() > 0);
        }
    }
    let mut result: Vec<usize> = Vec::new();
    assert(result@ + rounds(sorted) =~= rounds(sorted));
    while !list.is_empty()
        invariant
            descending(contents(list@)),
            none_empty(contents(list@)),
            result@ + rounds(contents(list@)) == rounds(sorted),
        decreases
                if list@.len() == 0 {
                    0
                } else {
                    list@[0]@.len() + 1
                },
    {
        let ghost start: Seq<Seq<usize>> = contents(list@);
        let ghost head: Seq<usize> = result@;
        take_round(&mut list, &mut result);
        proof {
            lemma_round_rest(start);
            lemma_long_buckets(start);
            assert(contents(list@) == round_rest(start));
            assert(head + (round_items(start) + rounds(round_rest(start))) =~= (head + round_items(
                start,
            )) + rounds(round_rest(start)));
            if list@.len() > 0 {
                assert(list@[0]@ == contents(list@)[0]);
                assert(start[0].len() >= 2);
            }
        }
    }
    assert(contents(list@) =~= Seq::empty());
    assert(result@ + Seq::<usize>::empty() =~= result@);
    result
}

/// One round: the last item of every bucket moves to the end of `result`, and
/// the buckets that are then empty go.
fn take_round(list: &mut Vec<Vec<usize>>, result: &mut Vec<usize>)
    requires
        descending(contents(old(list)@)),
        none_empty(contents(old(list)@)),
    ensures
        contents(final(list)@) == round_rest(contents(old(list)@)),
        final(result)@ == old(result)@ + round_items(contents(old(list)@)),
{
    let ghost start: Seq<Seq<usize>> = contents(list@);
    let ghost n: int = start.len() as int;
    let ghost k: int = long_buckets(start) as int;
    let ghost head: Seq<usize> = result@;
    let ghost mut taken: int = 0;
    proof {
        lemma_long_buckets(start);
    }
    let mut i: usize = 0;
    assert(head + round_items(start).take(0) =~= head);
    while i < list.len()
        invariant
            start == contents(old(list)@),
            n == start.len(),
            k == long_buckets(start),
            0 <= k <= n,
            forall|j: int| 0 <= j < n ==> ((#[trigger] start[j]).len() >= 2 <==> j < k),
            none_empty(start),
            0 <= taken <= n,
            i == if taken < k {
                taken
            } else {
                k
            },
            list@.len() == if taken <= k {
                n
            } else {
                n - (taken - k)
            },
            result@ == head + round_items(start).take(taken),
            forall|j: int| 0 <= j < i ==> (#[trigger] list@[j])@ == start[j].drop_last(),
            taken < n ==> list@[i as int]@ == start[giver(n, k, taken)],
            forall|j: int| i < j < list@.len() ==> (#[trigger] list@[j])@ == start[j],
        decreases n - taken,
    {
        let ghost before: Seq<Vec<usize>> = list@;
        let ghost from: int = giver(n, k, taken);
        assert(taken < n);
        assert(start[from].len() > 0);
        if let Some(item) = list[i].pop() {
            result.push(item);
            assert(item == start[from].last());
            assert(round_items(start)[taken] == item);
            assert(round_items(start).take(taken + 1) =~= round_items(start).take(taken).push(
                item,
            ));
            assert(head + round_items(start).take(taken).push(item) =~= (head + round_items(
                start,
            ).take(taken)).push(item));
        }
        assert(list@[i as int]@ =~= start[from].drop_last());
        if list[i].is_empty() {
            assert(taken >= k);
            let _ = list.swap_remove(i);
        } else {
            assert(taken < k);
            i = i + 1;
        }
        proof {
            taken = taken + 1;
        }
    }
    assert(taken == n);
    assert(round_items(start).take(n) =~= round_items(start));
    assert(contents(list@) =~= round_rest(start));
}

// ---------------------------------------------------------------------------
// Buckets
// ---------------------------------------------------------------------------

/// `buckets` parts the positions of `keys` by key: every position is in one
/// bucket, once, and two positions share a bucket if and only if they share a
/// key.
pub open spec fn is_bucketing(keys: Seq<ClusterKey>, buckets: Seq<Seq<usize>>) -> bool {
    &&& none_empty(buckets)
    &&& forall|b: int, i: int|
        0 <= b < buckets.len() && 0 <= i < buckets[b].len() ==> #[trigger] buckets[b][i]
            < keys.len()
    &&& forall|b: int| 0 <= b < buckets.len() ==> (#[trigger] buckets[b]).no_duplicates()
    &&& forall|b: int, i: int|
        0 <= b < buckets.len() && 0 <= i < buckets[b].len() ==> keys[#[trigger] buckets[b][i] as int]
            == bucket_key(keys, buckets[b])
    &&& forall|b: int, c: int|
        #![trigger buckets[b], buckets[c]]
        0 <= b < c < buckets.len() ==> bucket_key(keys, buckets[b]) != bucket_key(keys, buckets[c])
    &&& forall|x: usize| x < keys.len() ==> #[trigger] in_some_bucket(buckets, x)
}

/// The key of the positions of a bucket.
pub open spec fn bucket_key(keys: Seq<ClusterKey>, bucket: Seq<usize>) -> ClusterKey {
    keys[bucket[0] as int]
}

pub open spec fn in_some_bucket(buckets: Seq<Seq<usize>>, x: usize) -> bool {
    exists|b: int| 0 <= b < buckets.len() && (#[trigger] buckets[b]).contains(x)
}

/// Parts the positions of `keys` into one bucket for each key.
fn bucket_positions(keys: &Vec<ClusterKey>) -> (buckets: Vec<Vec<usize>>)
    ensures
        is_bucketing(keys@, contents(buckets@)),
{
    let mut buckets: Vec<Vec<usize>> = Vec::new();
    let mut x: usize = 0;
    assert(is_bucketing(keys@.take(0), contents(buckets@)));
    while x < keys.len()
        invariant
            x <= keys@.len(),
            is_bucketing(keys@.take(x as int), contents(buckets@)),
        decreases keys@.len() - x,
    {
        let ghost before: Seq<Seq<usize>> = contents(buckets@);
        let ghost seen: Seq<ClusterKey> = keys@.take(x as int);
        let ghost now: Seq<ClusterKey> = keys@.take(x + 1);
        let key: ClusterKey = keys[x];
        assert forall|c: int| 0 <= c < buckets@.len() implies (#[trigger] buckets@[c])@.len() > 0
            && buckets@[c]@[0] < x && before[c] == buckets@[c]@ by {
            assert(before[c].len() > 0);
            assert(before[c][0] < seen.len());
        }
        let mut b: usize = 0;
        while b < buckets.len() && keys[buckets[b][0]] != key
            invariant
                x < keys@.len(),
                b <= buckets@.len(),
                seen == keys@.take(x as int),
                before == contents(buckets@),
                is_bucketing(seen, before),
                forall|c: int|
                    0 <= c < buckets@.len() ==> (#[trigger] buckets@[c])@.len() > 0 && buckets@[c]@[0]
                        < x && before[c] == buckets@[c]@,
                forall|c: int| 0 <= c < b ==> bucket_key(keys@, #[trigger] before[c]) != key,
            decreases buckets@.len() - b,
        {
            b = b + 1;
        }
        if b < buckets.len() {
            assert(before[b as int].len() > 0);
            buckets[b].push(x);
            assert(contents(buckets@) =~= before.update(b as int, before[b as int].push(x)));
        } else {
            let mut bucket: Vec<usize> = Vec::new();
            bucket.push(x);
            buckets.push(bucket);
            assert(bucket@ =~= seq![x]);
            assert(contents(buckets@) =~= before.push(seq![x]));
        }
        proof {
            lemma_bucket_step(seen, now, before, contents(buckets@), key, x, b as int);
        }
        x = x + 1;
    }
    assert(keys@.take(keys@.len() as int) =~= keys@);
    buckets
}

/// One more position goes into the bucket of its key, or into a new one.
proof fn lemma_bucket_step(
    seen: Seq<ClusterKey>,
    now: Seq<ClusterKey>,
    before: Seq<Seq<usize>>,
    after: Seq<Seq<usize>>,
    key: ClusterKey,
    x: usize,
    b: int,
)
    requires
        seen.len() == x,
        now =~= seen.push(key),
        is_bucketing(seen, before),
        0 <= b <= before.len(),
        forall|c: int| 0 <= c < b ==> bucket_key(seen, #[trigger] before[c]) != key,
        b < before.len() ==> bucket_key(seen, before[b]) == key && after == before.update(
            b,
            before[b].push(x),
        ),
        b == before.len() ==> after == before.push(seq![x]),
    ensures
        is_bucketing(now, after),
{
    assert forall|c: int| 0 <= c < before.len() implies bucket_key(now, #[trigger] after[c])
        == bucket_key(seen, before[c]) && after[c].len() > 0 by {
        assert(before[c].len() > 0);
        assert(before[c][0] < seen.len());
        assert(after[c][0] == before[c][0]);
    }
    assert(none_empty(after));
    assert forall|c: int, i: int|
        0 <= c < after.len() && 0 <= i < after[c].len() implies #[trigger] after[c][i] < now.len()
        && now[after[c][i] as int] == bucket_key(now, after[c]) by {
        if c < before.len() && i < before[c].len() {
            assert(after[c][i] == before[c][i]);
            assert(before[c][i] < seen.len());
        }
    }
    assert forall|c: int| 0 <= c < after.len() implies (#[trigger] after[c]).no_duplicates() by {
        if c < before.len() {
            assert(before[c].no_duplicates());
            assert forall|i: int| 0 <= i < before[c].len() implies before[c][i] != x by {
                assert(before[c][i] < seen.len());
            }
        }
    }
    assert forall|c: int, d: int|
        #![trigger after[c], after[d]]
        0 <= c < d < after.len() implies bucket_key(now, after[c]) != bucket_key(now, after[d]) by {
        if d < before.len() {
            assert(bucket_key(seen, before[c]) != bucket_key(seen, before[d]));
        } else {
            assert(bucket_key(seen, before[c]) != key);
        }
    }
    assert forall|y: usize| y < now.len() implies #[trigger] in_some_bucket(after, y) by {
        if y == x {
            let last = after[b].len() - 1;
            assert(after[b][last] == x);
            assert(after[b].contains(x));
        } else {
            assert(in_some_bucket(before, y));
            let c = choose|c: int| 0 <= c < before.len() && (#[trigger] before[c]).contains(y);
            let i = choose|i: int| 0 <= i < before[c].len() && before[c][i] == y;
            assert(after[c][i] == y);
            assert(after[c].contains(y));
        }
    }
}

/// `rand::seq::SliceRandom::shuffle` with `rand::rng`: puts the items in a
/// random order. Nothing is claimed of which order it is; the items stay the
/// same.
#[verifier::external_body]
fn shuffle(items: &mut Vec<usize>)
    ensures
        final(items)@.to_multiset() == old(items)@.to_multiset(),
{
    items.shuffle(&mut rand::rng());
}

/// `rand::random`: thirty-two random bits. Nothing is claimed of them.
#[verifier::external_body]
fn random_bits() -> (bits: u32) {
    rand::random::<u32>()
}

/// What has the same items is without duplicates if the other is, and holds the
/// same.
proof fn lemma_same_items(a: Seq<usize>, b: Seq<usize>)
    requires
        a.to_multiset() == b.to_multiset(),
    ensures
        a.len() == b.len(),
        a.no_duplicates() ==> b.no_duplicates(),
        forall|x: usize| a.contains(x) <==> b.contains(x),
{
    a.to_multiset_ensures();
    b.to_multiset_ensures();
    if a.no_duplicates() {
        a.lemma_multiset_has_no_duplicates();
        b.lemma_multiset_has_no_duplicates_conv();
    }
    assert forall|x: usize| a.contains(x) <==> b.contains(x) by {
        vstd::seq_lib::to_multiset_contains(a, x);
        vstd::seq_lib::to_multiset_contains(b, x);
    }
}

/// Shuffling one bucket leaves a bucketing a bucketing.
proof fn lemma_bucket_shuffled(
    keys: Seq<ClusterKey>,
    before: Seq<Seq<usize>>,
    b: int,
    bucket: Seq<usize>,
)
    requires
        is_bucketing(keys, before),
        0 <= b < before.len(),
        bucket.to_multiset() == before[b].to_multiset(),
    ensures
        is_bucketing(keys, before.update(b, bucket)),
{
    let after = before.update(b, bucket);
    lemma_same_items(before[b], bucket);
    assert(before[b].len() > 0);
    assert forall|i: int| 0 <= i < bucket.len() implies bucket[i] < keys.len()
        && keys[bucket[i] as int] == bucket_key(keys, before[b]) by {
        assert(bucket.contains(bucket[i]));
        let j = choose|j: int| 0 <= j < before[b].len() && before[b][j] == bucket[i];
        assert(before[b][j] < keys.len());
    }
    assert forall|c: int| 0 <= c < after.len() implies (#[trigger] after[c]).len() > 0
        && after[c].no_duplicates() && bucket_key(keys, after[c]) == bucket_key(keys, before[c]) by {
        assert(before[c].len() > 0);
        assert(before[c].no_duplicates());
    }
    assert forall|c: int, i: int|
        0 <= c < after.len() && 0 <= i < after[c].len() implies #[trigger] after[c][i] < keys.len()
        && keys[after[c][i] as int] == bucket_key(keys, after[c]) by {
        if c != b {
            assert(before[c][i] < keys.len());
        }
    }
    assert forall|c: int, d: int|
        #![trigger after[c], after[d]]
        0 <= c < d < after.len() implies bucket_key(keys, after[c]) != bucket_key(
        keys,
        after[d],
    ) by {
        assert(bucket_key(keys, before[c]) != bucket_key(keys, before[d]));
    }
    assert forall|x: usize| x < keys.len() implies #[trigger] in_some_bucket(after, x) by {
        assert(in_some_bucket(before, x));
        let c = choose|c: int| 0 <= c < before.len() && (#[trigger] before[c]).contains(x);
        assert(after[c].contains(x));
    }
}

/// Rearranging the buckets leaves a bucketing a bucketing.
proof fn lemma_buckets_rearranged(
    keys: Seq<ClusterKey>,
    before: Seq<Seq<usize>>,
    positions: Seq<usize>,
)
    requires
        is_bucketing(keys, before),
        is_arrangement(positions, before.len()),
        before.len() <= usize::MAX,
    ensures
        is_bucketing(keys, arranged(before, positions)),
{
    let after = arranged(before, positions);
    assert forall|c: int| 0 <= c < after.len() implies (#[trigger] after[c])
        == before[positions[c] as int] && after[c].len() > 0 && after[c].no_duplicates() by {
        assert(positions[c] < before.len());
        assert(before[positions[c] as int].len() > 0);
    }
    assert forall|c: int, i: int|
        0 <= c < after.len() && 0 <= i < after[c].len() implies #[trigger] after[c][i] < keys.len()
        && keys[after[c][i] as int] == bucket_key(keys, after[c]) by {
        assert(before[positions[c] as int][i] < keys.len());
    }
    assert forall|c: int, d: int|
        #![trigger after[c], after[d]]
        0 <= c < d < after.len() implies bucket_key(keys, after[c]) != bucket_key(
        keys,
        after[d],
    ) by {
        let (p, q) = (positions[c] as int, positions[d] as int);
        assert(p != q);
        if p < q {
            assert(bucket_key(keys, before[p]) != bucket_key(keys, before[q]));
        } else {
            assert(bucket_key(keys, before[q]) != bucket_key(keys, before[p]));
        }
    }
    assert forall|x: usize| x < keys.len() implies #[trigger] in_some_bucket(after, x) by {
        assert(in_some_bucket(before, x));
        let b = choose|b: int| 0 <= b < before.len() && (#[trigger] before[b]).contains(x);
        assert(b < before.len());
        lemma_arrangement_holds(positions, before.len(), b as usize);
        let c = choose|c: int| 0 <= c < positions.len() && positions[c] == b as usize;
        assert(after[c].contains(x));
    }
}

// ---------------------------------------------------------------------------
// Jitter
// ---------------------------------------------------------------------------

/// How many of the 2^24 values of a draw call for a swap: those below 0.35 of
/// the range, 0.35 taken in single precision.
pub const SWAP_DRAWS: u32 = 5872026;

/// Whether a draw calls for a swap; its upper 24 bits decide.
pub open spec fn calls_for_swap(bits: u32) -> bool {
    bits / 256 < SWAP_DRAWS
}

/// `items` with those at `i` and `j` exchanged.
pub open spec fn swapped(items: Seq<usize>, i: int, j: int) -> Seq<usize> {
    items.update(i, items[j]).update(j, items[i])
}

/// `items` after the first `n` draws: the draw at `i` decides whether the
/// items at `i + 1` and `i + 2` change places.
pub open spec fn jittered(items: Seq<usize>, draws: Seq<u32>, n: nat) -> Seq<usize>
    decreases n,
{
    if n == 0 {
        items
    } else {
        let before = jittered(items, draws, (n - 1) as nat);
        if calls_for_swap(draws[n - 1]) {
            swapped(before, n as int, n as int + 1)
        } else {
            before
        }
    }
}

/// Exchanges neighbours, from the second item on, where the draws say so.
pub fn jitter(items: &Vec<usize>, draws: &Vec<u32>) -> (result: Vec<usize>)
    requires
        draws@.len() + 2 == items@.len() || (draws@.len() == 0 && items@.len() < 2),
    ensures
        result@ == jittered(items@, draws@, draws@.len()),
{
    let mut result = items.clone();
    assert(result@ =~= items@);
    let mut i: usize = 0;
    while i < draws.len()
        invariant
            i <= draws@.len(),
            draws@.len() + 2 == items@.len() || (draws@.len() == 0 && items@.len() < 2),
            result@.len() == items@.len(),
            result@ == jittered(items@, draws@, i as nat),
        decreases draws@.len() - i,
    {
        assert(i + 2 < result.len());
        if draws[i] / 256 < SWAP_DRAWS {
            let (first, second): (usize, usize) = (result[i + 1], result[i + 2]);
            result[i + 1] = second;
            result[i + 2] = first;
        }
        i = i + 1;
    }
    result
}

// ---------------------------------------------------------------------------
// The shuffle
// ---------------------------------------------------------------------------

/// `positions` comes of `buckets`, the longest first, by rounds, with the
/// jitter of `draws`.
pub open spec fn balanced_from(
    keys: Seq<ClusterKey>,
    buckets: Seq<Seq<usize>>,
    draws: Seq<u32>,
    positions: Seq<usize>,
) -> bool {
    &&& is_bucketing(keys, buckets)
    &&& descending(buckets)
    &&& draws.len() + 2 == keys.len()
    &&& positions == jittered(rounds(buckets), draws, draws.len())
}

/// `positions` is a balanced order of what has these keys. Of two items or
/// fewer every order is.
pub open spec fn is_balanced(keys: Seq<ClusterKey>, positions: Seq<usize>) -> bool {
    if keys.len() <= 2 {
        is_arrangement(positions, keys.len())
    } else {
        exists|buckets: Seq<Seq<usize>>, draws: Seq<u32>| #[trigger]
            balanced_from(keys, buckets, draws, positions)
    }
}

/// The positions `0..n` in order.
pub open spec fn counting(n: nat) -> Seq<usize> {
    Seq::new(n, |i: int| i as usize)
}

/// The positions `0..n` in order.
pub fn count_up(n: usize) -> (positions: Vec<usize>)
    ensures
        positions@ == counting(n as nat),
{
    let mut positions: Vec<usize> = Vec::new();
    let mut i: usize = 0;
    while i < n
        invariant
            i <= n,
            positions@ == counting(i as nat),
        decreases n - i,
    {
        positions.push(i);
        i = i + 1;
        assert(positions@ =~= counting(i as nat));
    }
    positions
}

pub proof fn lemma_counting_is_arrangement(n: nat)
    requires
        n <= usize::MAX,
    ensures
        is_arrangement(counting(n), n),
{
}

/// What has the items of an arrangement is one.
proof fn lemma_shuffled_arrangement(a: Seq<usize>, b: Seq<usize>, n: nat)
    requires
        is_arrangement(a, n),
        a.to_multiset() == b.to_multiset(),
    ensures
        is_arrangement(b, n),
{
    lemma_same_items(a, b);
    assert forall|i: int| 0 <= i < n implies #[trigger] b[i] < n by {
        assert(b.contains(b[i]));
        let j = choose|j: int| 0 <= j < a.len() && a[j] == b[i];
        assert(a[j] < n);
    }
}

/// The numbers `0..n` in a random order.
fn shuffled_positions(n: usize) -> (positions: Vec<usize>)
    ensures
        is_arrangement(positions@, n as nat),
{
    let mut positions = count_up(n);
    let ghost before: Seq<usize> = positions@;
    shuffle(&mut positions);
    proof {
        lemma_counting_is_arrangement(n as nat);
        lemma_shuffled_arrangement(before, positions@, n as nat);
    }
    positions
}

/// The buckets of `keys` in a random order, each of them shuffled.
fn shuffled_buckets(keys: &Vec<ClusterKey>) -> (buckets: Vec<Vec<usize>>)
    ensures
        is_bucketing(keys@, contents(buckets@)),
{
    let mut parted = bucket_positions(keys);
    let mut b: usize = 0;
    while b < parted.len()
        invariant
            b <= parted@.len(),
            is_bucketing(keys@, contents(parted@)),
        decreases parted@.len() - b,
    {
        let ghost before: Seq<Seq<usize>> = contents(parted@);
        shuffle(&mut parted[b]);
        proof {
            lemma_bucket_shuffled(keys@, before, b as int, parted@[b as int]@);
            assert(contents(parted@) =~= before.update(b as int, parted@[b as int]@));
        }
        b = b + 1;
    }
    let positions = shuffled_positions(parted.len());
    let mut buckets: Vec<Vec<usize>> = Vec::new();
    let mut i: usize = 0;
    let ghost target: Seq<Seq<usize>> = arranged(contents(parted@), positions@);
    while i < positions.len()
        invariant
            i <= positions@.len(),
            is_arrangement(positions@, parted@.len()),
            target == arranged(contents(parted@), positions@),
            contents(buckets@) == target.take(i as int),
        decreases positions@.len() - i,
    {
        let ghost before: Seq<Vec<usize>> = buckets@;
        let bucket = parted[positions[i]].clone();
        buckets.push(bucket);
        proof {
            assert(bucket@ =~= target[i as int]);
            assert(contents(buckets@) =~= contents(before).push(bucket@));
            assert(target.take(i + 1) =~= target.take(i as int).push(target[i as int]));
        }
        i = i + 1;
    }
    proof {
        assert(target.take(positions@.len() as int) =~= target);
        assert(parted.len() == contents(parted@).len());
        lemma_buckets_rearranged(keys@, contents(parted@), positions@);
    }
    buckets
}

/// A balanced random order of what has these keys.
fn balanced_positions(keys: &Vec<ClusterKey>) -> (positions: Vec<usize>)
    ensures
        is_balanced(keys@, positions@),
{
    if keys.len() <= 2 {
        return shuffled_positions(keys.len());
    }
    let buckets = shuffled_buckets(keys);
    let spread = interleave(&buckets);
    let mut draws: Vec<u32> = Vec::new();
    while draws.len() < keys.len() - 2
        invariant
            keys@.len() > 2,
            draws@.len() + 2 <= keys@.len(),
        decreases keys@.len() - draws@.len(),
    {
        draws.push(random_bits());
    }
    let ghost p: Seq<usize> = choose|p: Seq<usize>| #[trigger]
        is_stable_sort(buckets@, LongestFirst, p) && spread@ == rounds(
            arranged(contents(buckets@), p),
        );
    let ghost sorted: Seq<Seq<usize>> = arranged(contents(buckets@), p);
    proof {
        assert(buckets.len() == contents(buckets@).len());
        lemma_buckets_rearranged(keys@, contents(buckets@), p);
        lemma_sorted_descending(buckets@, p);
        lemma_rounds_arrangement(keys@, sorted);
    }
    let positions = jitter(&spread, &draws);
    assert(balanced_from(keys@, sorted, draws@, positions@));
    positions
}

proof fn lemma_sorted_descending(buckets: Seq<Vec<usize>>, p: Seq<usize>)
    requires
        is_stable_sort(buckets, LongestFirst, p),
    ensures
        descending(arranged(contents(buckets), p)),
{
    let sorted = arranged(contents(buckets), p);
    assert forall|i: int, j: int|
        #![trigger sorted[i], sorted[j]]
        0 <= i <= j < sorted.len() implies sorted[i].len() >= sorted[j].len() by {
        if i < j {
            assert(LongestFirst.le(buckets[p[i] as int], buckets[p[j] as int]));
        }
    }
}

/// Puts `items` in a balanced random order; `keys` holds the key of each.
pub fn balanced_shuffle(items: &Vec<usize>, keys: &Vec<ClusterKey>) -> (result: Vec<usize>)
    requires
        items@.len() == keys@.len(),
    ensures
        exists|positions: Seq<usize>| #[trigger]
            is_balanced(keys@, positions) && result@ == arranged(items@, positions),
        exists|positions: Seq<usize>|
            {
                &&& #[trigger] is_arrangement(positions, keys@.len())
                &&& keys@.len() > 2 ==> spreads_keys(keys@, positions)
                &&& result@.len() == items@.len()
                &&& forall|i: int|
                    0 <= i < result@.len() ==> #[trigger] result@[i] == items@[positions[i] as int]
            },
{
    let positions = balanced_positions(keys);
    proof {
        assert(keys.len() == keys@.len());
        law_balanced_is_permutation(keys@, positions@);
        if keys@.len() > 2 {
            law_balanced_spreads_keys(keys@, positions@);
        }
    }
    let mut result: Vec<usize> = Vec::new();
    let mut i: usize = 0;
    let ghost target: Seq<usize> = arranged(items@, positions@);
    while i < positions.len()
        invariant
            i <= positions@.len(),
            is_arrangement(positions@, items@.len()),
            target == arranged(items@, positions@),
            result@ == target.take(i as int),
        decreases positions@.len() - i,
    {
        result.push(items[positions[i]]);
        assert(target.take(i + 1) =~= target.take(i as int).push(target[i as int]));
        i = i + 1;
    }
    assert(target.take(positions@.len() as int) =~= target);
    result
}

// ---------------------------------------------------------------------------
// What holds of every shuffle
// ---------------------------------------------------------------------------

/// No item occurs twice, in one bucket or in two.
spec fn all_distinct(buckets: Seq<Seq<usize>>) -> bool {
    &&& forall|b: int| 0 <= b < buckets.len() ==> (#[trigger] buckets[b]).no_duplicates()
    &&& forall|b: int, c: int, i: int, j: int|
        #![trigger buckets[b][i], buckets[c][j]]
        0 <= b < buckets.len() && 0 <= c < buckets.len() && b != c && 0 <= i < buckets[b].len()
            && 0 <= j < buckets[c].len() ==> buckets[b][i] != buckets[c][j]
}

proof fn lemma_giver(n: int, k: int, i: int)
    requires
        0 <= k <= n,
        0 <= i < n,
    ensures
        0 <= giver(n, k, i) < n,
        forall|j: int| 0 <= j < n && i != j ==> giver(n, k, i) != #[trigger] giver(n, k, j),
{
}

/// The place in the round of the bucket `b`.
spec fn turn(n: int, k: int, b: int) -> int {
    if b <= k {
        b
    } else {
        k + (n - b)
    }
}

proof fn lemma_turn(n: int, k: int, b: int)
    requires
        0 <= k <= n,
        0 <= b < n,
    ensures
        0 <= turn(n, k, b) < n,
        giver(n, k, turn(n, k, b)) == b,
{
}

/// A round starts from the items of the buckets: what it gives and what it
/// leaves are theirs, and nothing is lost.
proof fn lemma_round_members(buckets: Seq<Seq<usize>>, x: usize)
    requires
        descending(buckets),
        none_empty(buckets),
    ensures
        in_some_bucket(buckets, x) <==> round_items(buckets).contains(x) || in_some_bucket(
            round_rest(buckets),
            x,
        ),
{
    lemma_long_buckets(buckets);
    let n = buckets.len() as int;
    let k = long_buckets(buckets) as int;
    let given = round_items(buckets);
    let rest = round_rest(buckets);
    if in_some_bucket(buckets, x) {
        let b = choose|b: int| 0 <= b < buckets.len() && (#[trigger] buckets[b]).contains(x);
        let i = choose|i: int| 0 <= i < buckets[b].len() && buckets[b][i] == x;
        if i == buckets[b].len() - 1 {
            lemma_turn(n, k, b);
            assert(given[turn(n, k, b)] == x);
        } else {
            assert(buckets[b].len() >= 2);
            assert(rest[b][i] == x);
            assert(rest[b].contains(x));
        }
    }
    if given.contains(x) {
        let t = choose|t: int| 0 <= t < given.len() && given[t] == x;
        lemma_giver(n, k, t);
        let b = giver(n, k, t);
        assert(buckets[b].len() > 0);
        assert(buckets[b][buckets[b].len() - 1] == x);
        assert(buckets[b].contains(x));
    }
    if in_some_bucket(rest, x) {
        let b = choose|b: int| 0 <= b < rest.len() && (#[trigger] rest[b]).contains(x);
        let i = choose|i: int| 0 <= i < rest[b].len() && rest[b][i] == x;
        assert(buckets[b][i] == x);
        assert(buckets[b].contains(x));
    }
}

spec fn measure(buckets: Seq<Seq<usize>>) -> nat {
    if buckets.len() == 0 {
        0
    } else {
        buckets[0].len() + 1
    }
}

proof fn lemma_rounds_members(buckets: Seq<Seq<usize>>)
    requires
        descending(buckets),
        none_empty(buckets),
    ensures
        forall|x: usize| rounds(buckets).contains(x) <==> in_some_bucket(buckets, x),
    decreases measure(buckets),
{
    if buckets.len() > 0 {
        let given = round_items(buckets);
        let rest = round_rest(buckets);
        lemma_round_rest(buckets);
        lemma_long_buckets(buckets);
        lemma_rounds_members(rest);
        assert forall|x: usize| rounds(buckets).contains(x) <==> in_some_bucket(buckets, x) by {
            lemma_round_members(buckets, x);
            vstd::seq_lib::lemma_seq_concat_contains_all_elements(given, rounds(rest), x);
        }
    } else {
        assert forall|x: usize| rounds(buckets).contains(x) <==> in_some_bucket(buckets, x) by {
        }
    }
}

proof fn lemma_rounds_distinct(buckets: Seq<Seq<usize>>)
    requires
        descending(buckets),
        none_empty(buckets),
        all_distinct(buckets),
    ensures
        rounds(buckets).no_duplicates(),
    decreases measure(buckets),
{
    if buckets.len() > 0 {
        let n = buckets.len() as int;
        let k = long_buckets(buckets) as int;
        let given = round_items(buckets);
        let rest = round_rest(buckets);
        lemma_round_rest(buckets);
        lemma_long_buckets(buckets);
        assert(all_distinct(rest)) by {
            assert forall|b: int| 0 <= b < rest.len() implies (
            #[trigger] rest[b]).no_duplicates() by {
                assert(buckets[b].no_duplicates());
            }
            assert forall|b: int, c: int, i: int, j: int|
                #![trigger rest[b][i], rest[c][j]]
                0 <= b < rest.len() && 0 <= c < rest.len() && b != c && 0 <= i < rest[b].len()
                    && 0 <= j < rest[c].len() implies rest[b][i] != rest[c][j] by {
                assert(buckets[b][i] != buckets[c][j]);
            }
        }
        lemma_rounds_distinct(rest);
        lemma_rounds_members(rest);
        assert(given.no_duplicates()) by {
            assert forall|s: int, t: int| 0 <= s < n && 0 <= t < n && s != t implies given[s]
                != given[t] by {
                lemma_giver(n, k, s);
                lemma_giver(n, k, t);
                let (b, c) = (giver(n, k, s), giver(n, k, t));
                assert(buckets[b].len() > 0);
                assert(buckets[c].len() > 0);
                assert(buckets[b][buckets[b].len() - 1] != buckets[c][buckets[c].len() - 1]);
            }
        }
        assert forall|t: int, u: int|
            0 <= t < given.len() && 0 <= u < rounds(rest).len() implies given[t] != rounds(
            rest,
        )[u] by {
            lemma_giver(n, k, t);
            let b = giver(n, k, t);
            assert(buckets[b].len() > 0);
            let x = rounds(rest)[u];
            assert(rounds(rest).contains(x));
            assert(in_some_bucket(rest, x));
            let c = choose|c: int| 0 <= c < rest.len() && (#[trigger] rest[c]).contains(x);
            let j = choose|j: int| 0 <= j < rest[c].len() && rest[c][j] == x;
            assert(buckets[c][j] == x);
            assert(buckets[b][buckets[b].len() - 1] == given[t]);
            assert(buckets[b].no_duplicates());
        }
        vstd::seq_lib::lemma_no_dup_in_concat(given, rounds(rest));
    }
}

proof fn lemma_bucketing_distinct(keys: Seq<ClusterKey>, buckets: Seq<Seq<usize>>)
    requires
        is_bucketing(keys, buckets),
    ensures
        all_distinct(buckets),
{
    assert forall|b: int, c: int, i: int, j: int|
        #![trigger buckets[b][i], buckets[c][j]]
        0 <= b < buckets.len() && 0 <= c < buckets.len() && b != c && 0 <= i < buckets[b].len()
            && 0 <= j < buckets[c].len() implies buckets[b][i] != buckets[c][j] by {
        if b < c {
            assert(bucket_key(keys, buckets[b]) != bucket_key(keys, buckets[c]));
        } else {
            assert(bucket_key(keys, buckets[c]) != bucket_key(keys, buckets[b]));
        }
    }
}

/// What lists every number below `n`, none of them twice and nothing else, is
/// an arrangement.
proof fn lemma_is_arrangement(s: Seq<usize>, n: nat)
    requires
        n <= usize::MAX,
        s.no_duplicates(),
        forall|x: usize| s.contains(x) <==> x < n,
    ensures
        is_arrangement(s, n),
{
    let image = s.map_values(|u: usize| u as int);
    assert(image.no_duplicates());
    image.unique_seq_to_set();
    let range = vstd::set_lib::set_int_range(0, n as int);
    vstd::set_lib::lemma_int_range(0, n as int);
    assert(image.to_set() =~= range) by {
        assert forall|y: int| image.to_set().contains(y) <==> range.contains(y) by {
            if range.contains(y) {
                assert(s.contains(y as usize));
                let i = choose|i: int| 0 <= i < s.len() && s[i] == y as usize;
                assert(image[i] == y);
            }
            if image.to_set().contains(y) {
                let i = choose|i: int| 0 <= i < image.len() && image[i] == y;
                assert(s.contains(s[i]));
            }
        }
    }
    assert forall|i: int| 0 <= i < s.len() implies #[trigger] s[i] < n by {
        assert(s.contains(s[i]));
    }
}

proof fn lemma_rounds_arrangement(keys: Seq<ClusterKey>, buckets: Seq<Seq<usize>>)
    requires
        is_bucketing(keys, buckets),
        descending(buckets),
        keys.len() <= usize::MAX,
    ensures
        is_arrangement(rounds(buckets), keys.len()),
{
    lemma_bucketing_distinct(keys, buckets);
    lemma_rounds_distinct(buckets);
    lemma_rounds_members(buckets);
    assert forall|x: usize| rounds(buckets).contains(x) <==> x < keys.len() by {
        if in_some_bucket(buckets, x) {
            let b = choose|b: int| 0 <= b < buckets.len() && (#[trigger] buckets[b]).contains(x);
            let i = choose|i: int| 0 <= i < buckets[b].len() && buckets[b][i] == x;
            assert(buckets[b][i] < keys.len());
        }
    }
    lemma_is_arrangement(rounds(buckets), keys.len());
}

/// The jitter moves items about and nothing else; the first item stays.
pub proof fn law_jitter_is_permutation(items: Seq<usize>, draws: Seq<u32>, n: nat)
    requires
        n == 0 || n + 2 <= items.len(),
    ensures
        jittered(items, draws, n).to_multiset() == items.to_multiset(),
        jittered(items, draws, n).len() == items.len(),
        items.len() > 0 ==> jittered(items, draws, n)[0] == items[0],
    decreases n,
{
    if n > 0 {
        let m = (n - 1) as nat;
        law_jitter_is_permutation(items, draws, m);
        let before = jittered(items, draws, m);
        if calls_for_swap(draws[n - 1]) {
            let (i, j) = (n as int, n as int + 1);
            vstd::seq_lib::to_multiset_update(before, i, before[j]);
            vstd::seq_lib::to_multiset_update(before.update(i, before[j]), j, before[i]);
            before.to_multiset_ensures();
            assert(swapped(before, i, j).to_multiset() =~= before.to_multiset());
        }
    }
}

/// The item stood in `items` at `j`, before it, or one place after it.
pub open spec fn came_from(items: Seq<usize>, item: usize, j: int) -> bool {
    exists|i: int| 0 <= i <= j + 1 && i < items.len() && #[trigger] items[i] == item
}

/// The jitter is local: it brings no item forward by more than one place, and
/// leaves what lies beyond the draws where it was.
pub proof fn law_jitter_is_local(items: Seq<usize>, draws: Seq<u32>, n: nat)
    requires
        n == 0 || n + 2 <= items.len(),
    ensures
        jittered(items, draws, n).len() == items.len(),
        forall|j: int| n + 2 <= j < items.len() ==> #[trigger] jittered(items, draws, n)[j]
            == items[j],
        forall|j: int|
            0 <= j < items.len() ==> came_from(items, #[trigger] jittered(items, draws, n)[j], j),
    decreases n,
{
    let after = jittered(items, draws, n);
    if n == 0 {
        assert forall|j: int| 0 <= j < items.len() implies came_from(
            items,
            #[trigger] after[j],
            j,
        ) by {
            assert(items[j] == after[j]);
        }
    } else {
        let before = jittered(items, draws, (n - 1) as nat);
        law_jitter_is_local(items, draws, (n - 1) as nat);
        assert forall|j: int| 0 <= j < items.len() implies came_from(
            items,
            #[trigger] after[j],
            j,
        ) by {
            assert(came_from(items, before[j], j));
            if calls_for_swap(draws[n - 1]) {
                if j == n {
                    assert(after[j] == items[j + 1]);
                } else if j == n + 1 {
                    assert(after[j] == before[j - 1]);
                    assert(came_from(items, before[j - 1], j - 1));
                }
            }
        }
    }
}

/// The draws decide one after the other: the one at `n`, if it is below 0.35 of
/// the range, exchanges the items at the two places after `n` as they then
/// stand, and nothing else moves.
pub proof fn law_draw_exchanges_neighbours(items: Seq<usize>, draws: Seq<u32>, n: nat)
    requires
        n + 3 <= items.len(),
        n < draws.len(),
    ensures
        jittered(items, draws, 0) == items,
        ({
            let before = jittered(items, draws, n);
            let after = jittered(items, draws, n + 1);
            let low = draws[n as int] < 1503238656;
            &&& after.len() == before.len() == items.len()
            &&& after[n as int + 1] == before[if low {
                n as int + 2
            } else {
                n as int + 1
            }]
            &&& after[n as int + 2] == before[if low {
                n as int + 1
            } else {
                n as int + 2
            }]
            &&& forall|j: int|
                0 <= j < items.len() && j != n + 1 && j != n + 2 ==> #[trigger] after[j]
                    == before[j]
        }),
{
    if n > 0 {
        law_jitter_is_permutation(items, draws, n);
    }
}

/// A balanced order holds every position, once.
pub proof fn law_balanced_is_permutation(keys: Seq<ClusterKey>, positions: Seq<usize>)
    requires
        is_balanced(keys, positions),
        keys.len() <= usize::MAX,
    ensures
        is_arrangement(positions, keys.len()),
{
    if keys.len() > 2 {
        let (buckets, draws) = choose|buckets: Seq<Seq<usize>>, draws: Seq<u32>| #[trigger]
            balanced_from(keys, buckets, draws, positions);
        lemma_rounds_arrangement(keys, buckets);
        law_jitter_is_permutation(rounds(buckets), draws, draws.len());
        lemma_shuffled_arrangement(rounds(buckets), positions, keys.len());
    }
}

/// Whether an item is of the bucket.
pub open spec fn in_bucket(bucket: Seq<usize>) -> spec_fn(usize) -> bool {
    |x: usize| bucket.contains(x)
}

/// How many of `items` are of the bucket.
pub open spec fn count_of(items: Seq<usize>, bucket: Seq<usize>) -> nat {
    items.filter(in_bucket(bucket)).len()
}

proof fn lemma_count_concat(a: Seq<usize>, b: Seq<usize>, bucket: Seq<usize>)
    ensures
        count_of(a + b, bucket) == count_of(a, bucket) + count_of(b, bucket),
{
    Seq::filter_distributes_over_add(a, b, in_bucket(bucket));
}

proof fn lemma_count_push(a: Seq<usize>, x: usize, bucket: Seq<usize>)
    ensures
        count_of(a.push(x), bucket) == count_of(a, bucket) + if bucket.contains(x) {
            1nat
        } else {
            0nat
        },
{
    reveal(Seq::filter);
    assert(a.push(x).drop_last() =~= a);
}

/// Where only the item at `u` is of the bucket, the first `t` items hold it
/// once `t` is past `u`.
proof fn lemma_count_single(items: Seq<usize>, bucket: Seq<usize>, u: int, t: int)
    requires
        0 <= u < items.len(),
        0 <= t <= items.len(),
        forall|i: int| 0 <= i < items.len() ==> (bucket.contains(#[trigger] items[i]) <==> i == u),
    ensures
        count_of(items.take(t), bucket) == if u < t {
            1nat
        } else {
            0nat
        },
    decreases t,
{
    if t > 0 {
        lemma_count_single(items, bucket, u, t - 1);
        assert(items.take(t) =~= items.take(t - 1).push(items[t - 1]));
        lemma_count_push(items.take(t - 1), items[t - 1], bucket);
    } else {
        reveal(Seq::filter);
        assert(items.take(0) =~= Seq::empty());
    }
}

/// Two buckets that hold the same of `items` count alike.
proof fn lemma_count_agree(items: Seq<usize>, b: Seq<usize>, c: Seq<usize>)
    requires
        forall|i: int|
            0 <= i < items.len() ==> (b.contains(#[trigger] items[i]) <==> c.contains(items[i])),
    ensures
        count_of(items, b) == count_of(items, c),
    decreases items.len(),
{
    reveal(Seq::filter);
    if items.len() > 0 {
        lemma_count_agree(items.drop_last(), b, c);
        assert(b.contains(items[items.len() - 1]) <==> c.contains(items[items.len() - 1]));
    }
}

/// In a round every bucket has one turn.
proof fn lemma_round_count(buckets: Seq<Seq<usize>>, b: int, t: int)
    requires
        descending(buckets),
        none_empty(buckets),
        all_distinct(buckets),
        0 <= b < buckets.len(),
        0 <= t <= buckets.len(),
    ensures
        count_of(round_items(buckets).take(t), buckets[b]) <= 1,
        t == buckets.len() ==> count_of(round_items(buckets).take(t), buckets[b]) == 1,
{
    let n = buckets.len() as int;
    let k = long_buckets(buckets) as int;
    let given = round_items(buckets);
    lemma_long_buckets(buckets);
    lemma_turn(n, k, b);
    let u = turn(n, k, b);
    assert forall|i: int| 0 <= i < given.len() implies (buckets[b].contains(#[trigger] given[i])
        <==> i == u) by {
        lemma_giver(n, k, i);
        let c = giver(n, k, i);
        assert(buckets[c].len() > 0);
        assert(buckets[c][buckets[c].len() - 1] == given[i]);
        if c == b {
            assert(buckets[b].contains(given[i]));
            if i != u {
                assert(giver(n, k, i) != giver(n, k, u));
            }
        } else if buckets[b].contains(given[i]) {
            let j = choose|j: int| 0 <= j < buckets[b].len() && buckets[b][j] == given[i];
            assert(buckets[b][j] != buckets[c][buckets[c].len() - 1]);
        }
    }
    lemma_count_single(given, buckets[b], u, t);
}

/// Of what later rounds give, a bucket counts as its remainder does, or not at
/// all once it is used up.
proof fn lemma_later_count(buckets: Seq<Seq<usize>>, b: int, t: int)
    requires
        descending(buckets),
        none_empty(buckets),
        all_distinct(buckets),
        0 <= b < buckets.len(),
        0 <= t <= rounds(round_rest(buckets)).len(),
    ensures
        b < long_buckets(buckets) ==> count_of(
            rounds(round_rest(buckets)).take(t),
            buckets[b],
        ) == count_of(rounds(round_rest(buckets)).take(t), round_rest(buckets)[b]),
        b >= long_buckets(buckets) ==> count_of(rounds(round_rest(buckets)).take(t), buckets[b])
            == 0,
{
    let rest = round_rest(buckets);
    let later = rounds(rest).take(t);
    let own = if b < long_buckets(buckets) {
        rest[b]
    } else {
        Seq::empty()
    };
    lemma_long_buckets(buckets);
    lemma_round_rest(buckets);
    lemma_rounds_members(rest);
    assert forall|i: int| 0 <= i < later.len() implies (buckets[b].contains(#[trigger] later[i])
        <==> own.contains(later[i])) by {
        let x = later[i];
        assert(rounds(rest)[i] == x);
        assert(rounds(rest).contains(x));
        assert(in_some_bucket(rest, x));
        let c = choose|c: int| 0 <= c < rest.len() && (#[trigger] rest[c]).contains(x);
        let j = choose|j: int| 0 <= j < rest[c].len() && rest[c][j] == x;
        assert(buckets[c][j] == x);
        if buckets[b].contains(x) {
            let l = choose|l: int| 0 <= l < buckets[b].len() && buckets[b][l] == x;
            assert(buckets[b][l] == buckets[c][j]);
            assert(b == c);
        }
        if own.contains(x) {
            let l = choose|l: int| 0 <= l < own.len() && own[l] == x;
            assert(buckets[b][l] == x);
        }
    }
    lemma_count_agree(later, buckets[b], own);
    if b >= long_buckets(buckets) {
        assert forall|i: int| 0 <= i < later.len() implies !own.contains(#[trigger] later[i]) by {
        }
        later.lemma_all_neg_filter_empty(|x: usize| own.contains(x));
    }
}

proof fn lemma_even_spread(buckets: Seq<Seq<usize>>, t: int, b: int, c: int)
    requires
        descending(buckets),
        none_empty(buckets),
        all_distinct(buckets),
        0 <= t <= rounds(buckets).len(),
        0 <= b < buckets.len(),
        0 <= c < buckets.len(),
        count_of(rounds(buckets).take(t), buckets[c]) < buckets[c].len(),
    ensures
        count_of(rounds(buckets).take(t), buckets[b]) <= count_of(
            rounds(buckets).take(t),
            buckets[c],
        ) + 1,
    decreases measure(buckets),
{
    let n = buckets.len() as int;
    let given = round_items(buckets);
    let rest = round_rest(buckets);
    if t <= n {
        assert(rounds(buckets).take(t) =~= given.take(t));
        lemma_round_count(buckets, b, t);
    } else {
        let s = t - n;
        assert(rounds(buckets).take(t) =~= given + rounds(rest).take(s));
        assert(given.take(n) =~= given);
        lemma_count_concat(given, rounds(rest).take(s), buckets[b]);
        lemma_count_concat(given, rounds(rest).take(s), buckets[c]);
        lemma_round_count(buckets, b, n);
        lemma_round_count(buckets, c, n);
        lemma_later_count(buckets, b, s);
        lemma_later_count(buckets, c, s);
        lemma_long_buckets(buckets);
        lemma_round_rest(buckets);
        if b < long_buckets(buckets) {
            assert(all_distinct(rest)) by {
                assert forall|d: int| 0 <= d < rest.len() implies (
                #[trigger] rest[d]).no_duplicates() by {
                    assert(buckets[d].no_duplicates());
                }
                assert forall|d: int, e: int, i: int, j: int|
                    #![trigger rest[d][i], rest[e][j]]
                    0 <= d < rest.len() && 0 <= e < rest.len() && d != e && 0 <= i < rest[d].len()
                        && 0 <= j < rest[e].len() implies rest[d][i] != rest[e][j] by {
                    assert(buckets[d][i] != buckets[e][j]);
                }
            }
            assert(buckets[c].len() >= 2);
            lemma_even_spread(rest, s, b, c);
        }
    }
}

/// Before the jitter no bucket starves: at no point has one had two turns more
/// than another that still has items to give.
pub proof fn law_even_spread(
    keys: Seq<ClusterKey>,
    buckets: Seq<Seq<usize>>,
    t: int,
    b: int,
    c: int,
)
    requires
        is_bucketing(keys, buckets),
        descending(buckets),
        0 <= t <= rounds(buckets).len(),
        0 <= b < buckets.len(),
        0 <= c < buckets.len(),
        count_of(rounds(buckets).take(t), buckets[c]) < buckets[c].len(),
    ensures
        count_of(rounds(buckets).take(t), buckets[b]) <= count_of(
            rounds(buckets).take(t),
            buckets[c],
        ) + 1,
{
    lemma_bucketing_distinct(keys, buckets);
    lemma_even_spread(buckets, t, b, c);
}

/// Whether an item has that key.
pub open spec fn has_key(keys: Seq<ClusterKey>, key: ClusterKey) -> spec_fn(usize) -> bool {
    |x: usize| keys[x as int] == key
}

/// How many of `items` have that key.
pub open spec fn turns(keys: Seq<ClusterKey>, items: Seq<usize>, key: ClusterKey) -> nat {
    items.filter(has_key(keys, key)).len()
}

/// At no place of the order has a key had two turns more than the key of an
/// item that is still to come.
pub open spec fn evenly_spread(keys: Seq<ClusterKey>, order: Seq<usize>) -> bool {
    forall|t: int, j: int, key: ClusterKey|
        #![trigger turns(keys, order.take(t), key), order[j]]
        0 <= t <= j < order.len() ==> turns(keys, order.take(t), key) <= turns(
            keys,
            order.take(t),
            keys[order[j] as int],
        ) + 1
}

/// `after` has the items of `before`, the first where it was and none brought
/// forward by more than one place.
pub open spec fn barely_moved(before: Seq<usize>, after: Seq<usize>) -> bool {
    &&& after.to_multiset() == before.to_multiset()
    &&& after.len() == before.len()
    &&& before.len() > 0 ==> after[0] == before[0]
    &&& forall|j: int|
        0 <= j < after.len() ==> exists|i: int|
            #![trigger before[i]]
            0 <= i <= j + 1 && i < before.len() && before[i] == #[trigger] after[j]
}

/// `order` is close to an order of all items in which the keys take turns.
pub open spec fn spreads_keys(keys: Seq<ClusterKey>, order: Seq<usize>) -> bool {
    exists|even: Seq<usize>|
        {
            &&& is_arrangement(even, keys.len())
            &&& evenly_spread(keys, even)
            &&& #[trigger] barely_moved(even, order)
        }
}

/// Two ways to say which items are meant pick the same items.
proof fn lemma_same_filter(
    items: Seq<usize>,
    p: spec_fn(usize) -> bool,
    q: spec_fn(usize) -> bool,
)
    requires
        forall|i: int| 0 <= i < items.len() ==> p(#[trigger] items[i]) == q(items[i]),
    ensures
        items.filter(p) == items.filter(q),
    decreases items.len(),
{
    reveal(Seq::filter);
    if items.len() > 0 {
        assert(p(items[items.len() - 1]) == q(items[items.len() - 1]));
        assert forall|i: int| 0 <= i < items.drop_last().len() implies p(
            #[trigger] items.drop_last()[i],
        ) == q(items.drop_last()[i]) by {
            assert(p(items[i]) == q(items[i]));
        }
        lemma_same_filter(items.drop_last(), p, q);
    }
}

/// What is picked from items without duplicates has none, and is of the items.
proof fn lemma_picked_once(items: Seq<usize>, p: spec_fn(usize) -> bool)
    requires
        items.no_duplicates(),
    ensures
        items.filter(p).no_duplicates(),
        forall|x: usize| #[trigger]
            items.filter(p).contains(x) ==> items.contains(x) && p(x),
    decreases items.len(),
{
    reveal(Seq::filter);
    if items.len() > 0 {
        let rest = items.drop_last();
        let (picked, all) = (rest.filter(p), items.filter(p));
        lemma_picked_once(rest, p);
        assert forall|x: usize| all.contains(x) implies items.contains(x) && p(x) by {
            let i = all.index_of(x);
            if i < picked.len() {
                assert(picked[i] == x);
                assert(picked.contains(x));
                let j = rest.index_of(x);
                assert(items[j] == x);
            } else {
                assert(items[items.len() - 1] == x);
            }
        }
        assert forall|i: int, j: int| 0 <= i < j < all.len() implies all[i] != all[j] by {
            if j == picked.len() {
                assert(picked[i] == all[i]);
                assert(picked.contains(all[i]));
                let k = rest.index_of(all[i]);
                assert(items[k] == all[i]);
                assert(items[k] != items[items.len() - 1]);
            } else {
                assert(picked[i] != picked[j]);
            }
        }
    }
}

/// A bucket that has an item left has not given all of its items.
proof fn lemma_count_short(given: Seq<usize>, bucket: Seq<usize>, left: usize)
    requires
        given.no_duplicates(),
        bucket.no_duplicates(),
        bucket.contains(left),
        !given.contains(left),
    ensures
        count_of(given, bucket) < bucket.len(),
{
    let p = in_bucket(bucket);
    let picked = given.filter(p);
    lemma_picked_once(given, p);
    picked.unique_seq_to_set();
    bucket.unique_seq_to_set();
    assert(picked.to_set().subset_of(bucket.to_set().remove(left)));
    vstd::set_lib::lemma_len_subset(picked.to_set(), bucket.to_set().remove(left));
}

/// The items of a bucket are those of its key.
proof fn lemma_turns_of_bucket(
    keys: Seq<ClusterKey>,
    buckets: Seq<Seq<usize>>,
    b: int,
    items: Seq<usize>,
)
    requires
        is_bucketing(keys, buckets),
        0 <= b < buckets.len(),
        forall|i: int| 0 <= i < items.len() ==> #[trigger] items[i] < keys.len(),
    ensures
        count_of(items, buckets[b]) == turns(keys, items, bucket_key(keys, buckets[b])),
{
    let key = bucket_key(keys, buckets[b]);
    let p = in_bucket(buckets[b]);
    let q = has_key(keys, key);
    assert forall|i: int| 0 <= i < items.len() implies p(#[trigger] items[i]) == q(items[i]) by {
        let x = items[i];
        if buckets[b].contains(x) {
            let k = buckets[b].index_of(x);
            assert(keys[buckets[b][k] as int] == key);
        }
        if keys[x as int] == key {
            assert(in_some_bucket(buckets, x));
            let c = choose|c: int| 0 <= c < buckets.len() && (#[trigger] buckets[c]).contains(x);
            let k = buckets[c].index_of(x);
            assert(keys[buckets[c][k] as int] == bucket_key(keys, buckets[c]));
            if b < c {
                assert(bucket_key(keys, buckets[b]) != bucket_key(keys, buckets[c]));
            } else if c < b {
                assert(bucket_key(keys, buckets[c]) != bucket_key(keys, buckets[b]));
            }
        }
    }
    lemma_same_filter(items, p, q);
}

/// In rounds the keys take turns.
proof fn lemma_rounds_even(keys: Seq<ClusterKey>, buckets: Seq<Seq<usize>>)
    requires
        is_bucketing(keys, buckets),
        descending(buckets),
        keys.len() <= usize::MAX,
    ensures
        evenly_spread(keys, rounds(buckets)),
{
    let order = rounds(buckets);
    lemma_rounds_arrangement(keys, buckets);
    assert forall|t: int, j: int, key: ClusterKey|
        #![trigger turns(keys, order.take(t), key), order[j]]
        0 <= t <= j < order.len() implies turns(keys, order.take(t), key) <= turns(
        keys,
        order.take(t),
        keys[order[j] as int],
    ) + 1 by {
        let given = order.take(t);
        let left = order[j];
        assert(left < keys.len());
        assert forall|i: int| 0 <= i < given.len() implies #[trigger] given[i] < keys.len() by {
            assert(order[i] < keys.len());
        }
        assert(in_some_bucket(buckets, left));
        let c = choose|c: int| 0 <= c < buckets.len() && (#[trigger] buckets[c]).contains(left);
        let k = buckets[c].index_of(left);
        assert(keys[buckets[c][k] as int] == bucket_key(keys, buckets[c]));
        assert(!given.contains(left)) by {
            if given.contains(left) {
                assert(order[given.index_of(left)] == order[j]);
            }
        }
        assert(given.no_duplicates());
        assert(buckets[c].no_duplicates());
        lemma_count_short(given, buckets[c], left);
        lemma_turns_of_bucket(keys, buckets, c, given);
        if turns(keys, given, key) > 0 {
            let q = has_key(keys, key);
            let x = given.filter(q)[0];
            lemma_picked_once(given, q);
            assert(given.filter(q).contains(x));
            assert(given[given.index_of(x)] < keys.len());
            assert(in_some_bucket(buckets, x));
            let b = choose|b: int| 0 <= b < buckets.len() && (#[trigger] buckets[b]).contains(x);
            let l = buckets[b].index_of(x);
            assert(keys[buckets[b][l] as int] == bucket_key(keys, buckets[b]));
            lemma_turns_of_bucket(keys, buckets, b, given);
            law_even_spread(keys, buckets, t, b, c);
        }
    }
}

/// A balanced order spreads the keys out: it is, but for the jitter, an order
/// in which no key has two turns more than another that has items left.
pub proof fn law_balanced_spreads_keys(keys: Seq<ClusterKey>, positions: Seq<usize>)
    requires
        is_balanced(keys, positions),
        2 < keys.len() <= usize::MAX,
    ensures
        spreads_keys(keys, positions),
{
    let (buckets, draws) = choose|buckets: Seq<Seq<usize>>, draws: Seq<u32>| #[trigger]
        balanced_from(keys, buckets, draws, positions);
    let even = rounds(buckets);
    lemma_rounds_arrangement(keys, buckets);
    lemma_rounds_even(keys, buckets);
    law_jitter_is_permutation(even, draws, draws.len());
    law_jitter_is_local(even, draws, draws.len());
    assert forall|j: int| 0 <= j < positions.len() implies exists|i: int|
        #![trigger even[i]]
        0 <= i <= j + 1 && i < even.len() && even[i] == #[trigger] positions[j] by {
        assert(came_from(even, positions[j], j));
    }
    assert(barely_moved(even, positions));
}

/// Songs share a cluster where they have the same first artist; failing artists,
/// the same album; failing both, only a song with itself.
pub proof fn law_cluster_is_shared(a: Id, b: Id, collection: MusicCollection)
    ensures
        ({
            let (songs, same) = (
                collection.songs@,
                cluster_of(a, collection) == cluster_of(b, collection),
            );
            if a == b {
                same
            } else if !songs.contains_key(a) || !songs.contains_key(b) {
                !same
            } else if songs[a].artists@.len() > 0 && songs[b].artists@.len() > 0 {
                same == (songs[a].artists@[0] == songs[b].artists@[0])
            } else if songs[a].artists@.len() > 0 || songs[b].artists@.len() > 0 {
                !same
            } else {
                same == (songs[a].album is Some && songs[a].album == songs[b].album)
            }
        }),
{
}

} // verus!
