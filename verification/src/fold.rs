//! How the two indexes of a scan fit together.
//!
//! The size index splits the files into buckets; the hash index of each
//! bucket splits the bucket into groups. Taken together, bucket after
//! bucket, the groups are the classes of the files by size and digest. This
//! module states that and proves it.
use vstd::prelude::*;

use crate::grouping::{
    has_twin, in_discovery_order, is_class, is_duplicate_grouping, is_grouped, member, size_keys,
};
use crate::model::FileInfo;

verus! {

/// The key of each file in a scan: its size together with its digest, for
/// the files whose digest is known.
pub open spec fn content_keys(files: Seq<FileInfo>, digests: Seq<Option<Seq<char>>>) -> Seq<
    Option<(u64, Seq<char>)>,
> {
    Seq::new(
        files.len(),
        |i: int|
            match digests[i] {
                Some(digest) => Some((files[i].size, digest)),
                None => None,
            },
    )
}

/// The groups of one bucket, as positions into the list of files: each
/// position within the bucket is replaced by the bucket's member there.
pub open spec fn lifted(local: Seq<Seq<usize>>, bucket: Seq<usize>) -> Seq<Seq<usize>> {
    Seq::new(local.len(), |g: int| Seq::new(local[g].len(), |m: int| bucket[local[g][m] as int]))
}

/// The groups of files that groups of positions stand for.
pub open spec fn file_groups(files: Seq<FileInfo>, members: Seq<Seq<usize>>) -> Seq<Seq<FileInfo>> {
    Seq::new(
        members.len(),
        |g: int| Seq::new(members[g].len(), |m: int| files[members[g][m] as int]),
    )
}

/// Whether `fresh` are the duplicate groups of one batch, as positions
/// into the list of files: the groups of the batch by digest, in the order
/// in which their digests were first met.
pub open spec fn is_batch_grouping(
    batch: Seq<usize>,
    outcomes: Seq<Option<Seq<char>>>,
    fresh: Seq<Seq<usize>>,
) -> bool {
    exists|local: Seq<Seq<usize>>|
        is_duplicate_grouping(outcomes, local) && in_discovery_order(local) && fresh == lifted(
            local,
            batch,
        )
}

/// Whether a bucket before `upto` holds position `i`.
pub open spec fn is_hashed(buckets: Seq<Seq<usize>>, upto: int, i: int) -> bool {
    exists|c: int| 0 <= c < upto && c < buckets.len() && member(#[trigger] buckets[c], i)
}

/// A bucket of the size index holds exactly the files of its size.
pub proof fn lemma_bucket_holds_its_size(files: Seq<FileInfo>, buckets: Seq<Seq<usize>>, b: int)
    requires
        is_duplicate_grouping(size_keys(files), buckets),
        0 <= b < buckets.len(),
    ensures
        buckets[b].len() > 0,
        buckets[b][0] < files.len(),
        forall|m: int|
            0 <= m < buckets[b].len()
                ==> (#[trigger] buckets[b][m]) < files.len() && files[buckets[b][m] as int].size
                == files[buckets[b][0] as int].size,
        forall|m: int, n: int|
            0 <= m < n < buckets[b].len()
                ==> (#[trigger] buckets[b][m]) < (#[trigger] buckets[b][n]),
        forall|i: int|
            0 <= i < files.len() && (#[trigger] files[i]).size == files[buckets[b][0] as int].size
                ==> member(buckets[b], i),
        forall|c: int|
            0 <= c < buckets.len() && c != b ==> files[(#[trigger] buckets[c])[0] as int].size
                != files[buckets[b][0] as int].size,
{
    let keys = size_keys(files);
    let bucket = buckets[b];
    assert(is_class(keys, bucket));
    assert(bucket[0] < keys.len());
    assert forall|m: int| 0 <= m < bucket.len() implies (#[trigger] bucket[m]) < files.len()
        && files[bucket[m] as int].size == files[bucket[0] as int].size by {
        assert(bucket[m] < keys.len());
        assert(keys[bucket[m] as int] == keys[bucket[0] as int]);
    }
    assert forall|i: int|
        0 <= i < files.len() && (#[trigger] files[i]).size == files[bucket[0] as int].size
            implies member(
        bucket,
        i,
    ) by {
        assert(keys[i] == keys[bucket[0] as int]);
    }
    assert forall|c: int| 0 <= c < buckets.len() && c != b implies files[(
    #[trigger] buckets[c])[0] as int].size != files[bucket[0] as int].size by {
        assert(is_class(keys, buckets[c]));
        assert(buckets[c][0] < keys.len());
        assert(keys[buckets[c][0] as int] != keys[buckets[b][0] as int]);
    }
}

/// A position in an earlier bucket is not in bucket `b`.
pub proof fn lemma_not_in_two_buckets(
    files: Seq<FileInfo>,
    buckets: Seq<Seq<usize>>,
    b: int,
    x: int,
)
    requires
        is_duplicate_grouping(size_keys(files), buckets),
        0 <= b < buckets.len(),
        is_hashed(buckets, b, x),
    ensures
        !member(buckets[b], x),
        0 <= x < files.len(),
        files[x].size != files[buckets[b][0] as int].size,
{
    let c = choose|c: int| 0 <= c < b && c < buckets.len() && member(#[trigger] buckets[c], x);
    lemma_bucket_holds_its_size(files, buckets, c);
    lemma_bucket_holds_its_size(files, buckets, b);
    let m = choose|m: int| 0 <= m < buckets[c].len() && #[trigger] buckets[c][m] == x;
    assert(files[buckets[c][m] as int].size == files[buckets[c][0] as int].size);
    if member(buckets[b], x) {
        let n = choose|n: int| 0 <= n < buckets[b].len() && #[trigger] buckets[b][n] == x;
        assert(files[buckets[b][n] as int].size == files[buckets[b][0] as int].size);
    }
}

/// Folding the hash index of bucket `b` into the groups found so far gives
/// the duplicate groups of all files hashed so far.
pub proof fn lemma_fold_bucket(
    files: Seq<FileInfo>,
    buckets: Seq<Seq<usize>>,
    b: int,
    digests: Seq<Option<Seq<char>>>,
    next: Seq<Option<Seq<char>>>,
    local_keys: Seq<Option<Seq<char>>>,
    members: Seq<Seq<usize>>,
    local: Seq<Seq<usize>>,
)
    requires
        is_duplicate_grouping(size_keys(files), buckets),
        0 <= b < buckets.len(),
        digests.len() == files.len(),
        next.len() == files.len(),
        forall|i: int|
            0 <= i < files.len() && (#[trigger] digests[i]) is Some ==> is_hashed(buckets, b, i),
        is_duplicate_grouping(content_keys(files, digests), members),
        local_keys.len() == buckets[b].len(),
        is_duplicate_grouping(local_keys, local),
        forall|m: int|
            0 <= m < buckets[b].len() ==> next[#[trigger] buckets[b][m] as int] == local_keys[m],
        forall|i: int|
            0 <= i < files.len() && !member(buckets[b], i) ==> #[trigger] next[i] == digests[i],
    ensures
        is_duplicate_grouping(content_keys(files, next), members + lifted(local, buckets[b])),
        forall|i: int|
            0 <= i < files.len() && (#[trigger] next[i]) is Some ==> is_hashed(buckets, b + 1, i),
{
    let old_keys = content_keys(files, digests);
    let keys = content_keys(files, next);
    let bucket = buckets[b];
    let fresh = lifted(local, bucket);
    let all = members + fresh;
    lemma_bucket_holds_its_size(files, buckets, b);
    // A file with a known digest keeps it, and is not in this bucket.
    assert forall|x: int| 0 <= x < files.len() && (#[trigger] digests[x]) is Some implies !member(
        bucket,
        x,
    ) && next[x] == digests[x] && files[x].size != files[bucket[0] as int].size by {
        lemma_not_in_two_buckets(files, buckets, b, x);
    }
    // The groups found before are still classes.
    assert forall|g: int| 0 <= g < members.len() implies is_class(keys, #[trigger] members[g]) by {
        let group = members[g];
        assert(is_class(old_keys, group));
        assert forall|m: int| 0 <= m < group.len() implies keys[#[trigger] group[m] as int]
            == old_keys[group[m] as int] by {
            assert(group[m] < old_keys.len());
            assert(old_keys[group[m] as int] == old_keys[group[0] as int]);
            assert(digests[group[m] as int] is Some);
        }
        assert(keys[group[0] as int] == old_keys[group[0] as int]);
        assert forall|i: int|
            0 <= i < keys.len() && #[trigger] keys[i] == keys[group[0] as int] implies member(
            group,
            i,
        ) by {
            assert(digests[group[0] as int] is Some);
            if member(bucket, i) {
                let n = choose|n: int| 0 <= n < bucket.len() && #[trigger] bucket[n] == i;
                assert(files[bucket[n] as int].size == files[bucket[0] as int].size);
                assert(false);
            }
            assert(next[i] == digests[i]);
            assert(old_keys[i] == old_keys[group[0] as int]);
        }
    }
    // The groups of this bucket are classes.
    assert forall|g: int| 0 <= g < fresh.len()
        implies is_class(keys, #[trigger] fresh[g]) && fresh[g].len()
        >= 2 && files[fresh[g][0] as int].size == files[bucket[0] as int].size && member(
        bucket,
        fresh[g][0] as int,
    ) by {
        let within = local[g];
        let group = fresh[g];
        assert(is_class(local_keys, within));
        assert(within.len() >= 2);
        assert forall|m: int| 0 <= m < group.len()
            implies #[trigger] group[m] == bucket[within[m] as int]
            && within[m] < bucket.len() && keys[group[m] as int] == Some(
            (files[bucket[0] as int].size, local_keys[within[0] as int]->0),
        ) by {
            assert(within[m] < local_keys.len());
            assert(local_keys[within[m] as int] == local_keys[within[0] as int]);
            assert(next[bucket[within[m] as int] as int] == local_keys[within[m] as int]);
            assert(files[bucket[within[m] as int] as int].size == files[bucket[0] as int].size);
        }
        assert(group[0] == bucket[within[0] as int]);
        assert forall|m: int, n: int| 0 <= m < n < group.len() implies #[trigger] group[m]
            < #[trigger] group[n] by {
            assert(within[m] < within[n]);
            assert(group[m] == bucket[within[m] as int]);
            assert(group[n] == bucket[within[n] as int]);
        }
        assert forall|i: int|
            0 <= i < keys.len() && #[trigger] keys[i] == keys[group[0] as int] implies member(
            group,
            i,
        ) by {
            assert(files[i].size == files[bucket[0] as int].size);
            assert(member(bucket, i));
            let n = choose|n: int| 0 <= n < bucket.len() && #[trigger] bucket[n] == i;
            assert(next[bucket[n] as int] == local_keys[n]);
            assert(local_keys[n] == local_keys[within[0] as int]);
            assert(member(within, n));
            let m = choose|m: int| 0 <= m < within.len() && #[trigger] within[m] == n;
            assert(group[m] == i);
        }
        assert(member(bucket, group[0] as int));
    }
    assert forall|g: int| 0 <= g < all.len()
        implies is_class(keys, #[trigger] all[g]) && all[g].len()
        >= 2 by {
        if g < members.len() {
            assert(all[g] == members[g]);
        } else {
            assert(all[g] == fresh[g - members.len()]);
        }
    }
    // No two groups share a key.
    assert forall|g: int, h: int|
        0 <= g < all.len() && 0 <= h < all.len() && g != h
            implies keys[(#[trigger] all[g])[0] as int]
        != keys[(#[trigger] all[h])[0] as int] by {
        let count = members.len() as int;
        if g < count {
            assert(all[g] == members[g]);
            assert(is_class(old_keys, members[g]));
            assert(digests[members[g][0] as int] is Some);
        } else {
            assert(all[g] == fresh[g - count]);
            assert(is_class(local_keys, local[g - count]));
        }
        if h < count {
            assert(all[h] == members[h]);
            assert(is_class(old_keys, members[h]));
            assert(digests[members[h][0] as int] is Some);
        } else {
            assert(all[h] == fresh[h - count]);
            assert(is_class(local_keys, local[h - count]));
        }
        if g < count && h < count {
            assert(old_keys[members[g][0] as int] != old_keys[members[h][0] as int]);
        } else if g >= count && h >= count {
            let p = local[g - count];
            let q = local[h - count];
            assert(local_keys[p[0] as int] != local_keys[q[0] as int]);
            assert(fresh[g - count][0] == bucket[p[0] as int]);
            assert(fresh[h - count][0] == bucket[q[0] as int]);
            assert(next[bucket[p[0] as int] as int] == local_keys[p[0] as int]);
            assert(next[bucket[q[0] as int] as int] == local_keys[q[0] as int]);
        }
    }
    // Every file that has a twin is in a group.
    assert forall|i: int|
        0 <= i < keys.len() && (#[trigger] keys[i]) is Some && has_twin(keys, i) implies is_grouped(
        all,
        i,
    ) by {
        let j = choose|j: int| 0 <= j < keys.len() && j != i && #[trigger] keys[j] == keys[i];
        assert(files[j].size == files[i].size);
        if member(bucket, i) {
            let m = choose|m: int| 0 <= m < bucket.len() && #[trigger] bucket[m] == i;
            assert(files[bucket[m] as int].size == files[bucket[0] as int].size);
            assert(member(bucket, j));
            let n = choose|n: int| 0 <= n < bucket.len() && #[trigger] bucket[n] == j;
            assert(next[bucket[m] as int] == local_keys[m]);
            assert(next[bucket[n] as int] == local_keys[n]);
            assert(local_keys[n] == local_keys[m]);
            assert(has_twin(local_keys, m));
            assert(is_grouped(local, m));
            let g = choose|g: int| 0 <= g < local.len() && member(#[trigger] local[g], m);
            let k = choose|k: int| 0 <= k < local[g].len() && #[trigger] local[g][k] == m;
            assert(fresh[g][k] == i);
            assert(member(fresh[g], i));
            assert(all[members.len() + g] == fresh[g]);
        } else {
            assert(next[i] == digests[i]);
            if member(bucket, j) {
                let n = choose|n: int| 0 <= n < bucket.len() && #[trigger] bucket[n] == j;
                assert(files[bucket[n] as int].size == files[bucket[0] as int].size);
                assert(member(bucket, i));
            }
            assert(next[j] == digests[j]);
            assert(old_keys[j] == old_keys[i]);
            assert(has_twin(old_keys, i));
            assert(old_keys[i] is Some);
            assert(is_grouped(members, i));
            let g = choose|g: int| 0 <= g < members.len() && member(#[trigger] members[g], i);
            assert(all[g] == members[g]);
        }
    }
    assert forall|i: int| 0 <= i < files.len() && (#[trigger] next[i]) is Some implies is_hashed(
        buckets,
        b + 1,
        i,
    ) by {
        if member(bucket, i) {
            assert(member(buckets[b], i));
        } else {
            assert(digests[i] is Some);
            let c = choose|c: int|
                0 <= c < b && c < buckets.len() && member(#[trigger] buckets[c], i);
            assert(member(buckets[c], i));
        }
    }
}

/// The positions of `seen` together with the members of `group`.
pub open spec fn with_members(seen: Set<int>, group: Seq<usize>) -> Set<int>
    decreases group.len(),
{
    if group.len() == 0 {
        seen
    } else {
        with_members(seen, group.drop_last()).insert(group.last() as int)
    }
}

/// Adding the members of an ascending group that are all new adds as many
/// positions as the group has members.
pub proof fn lemma_with_members(seen: Set<int>, group: Seq<usize>)
    requires
        seen.finite(),
        forall|m: int, n: int| 0 <= m < n < group.len()
            ==> #[trigger] group[m] < #[trigger] group[n],
        forall|m: int| 0 <= m < group.len() ==> !seen.contains(#[trigger] group[m] as int),
    ensures
        with_members(seen, group).finite(),
        with_members(seen, group).len() == seen.len() + group.len(),
        forall|x: int| #[trigger]
            with_members(seen, group).contains(x) <==> seen.contains(x) || member(group, x),
    decreases group.len(),
{
    if group.len() > 0 {
        let front = group.drop_last();
        let last = group.last() as int;
        assert forall|m: int, n: int| 0 <= m < n < front.len() implies #[trigger] front[m]
            < #[trigger] front[n] by {
            assert(group[m] < group[n]);
        }
        assert forall|m: int| 0 <= m < front.len() implies !seen.contains(
            #[trigger] front[m] as int,
        ) by {
            assert(front[m] == group[m]);
        }
        lemma_with_members(seen, front);
        let inner = with_members(seen, front);
        if member(front, last) {
            let m = choose|m: int| 0 <= m < front.len() && #[trigger] front[m] == last;
            assert(group[m] < group[group.len() - 1]);
        }
        assert(!seen.contains(group[group.len() - 1] as int));
        assert(!inner.contains(last));
        assert forall|x: int| #[trigger]
            with_members(seen, group).contains(x) <==> seen.contains(x) || member(
                group,
                x,
            ) by {
            if member(front, x) {
                let m = choose|m: int| 0 <= m < front.len() && #[trigger] front[m] == x;
                assert(group[m] == x);
            }
            if member(group, x) {
                let m = choose|m: int| 0 <= m < group.len() && #[trigger] group[m] == x;
                if m < front.len() {
                    assert(front[m] == x);
                }
            }
            if x == last {
                assert(group[group.len() - 1] == x);
            }
        }
    }
}

/// Hashing bucket `at` after the buckets before it adds as many positions
/// as the bucket has members, and all positions hashed are files.
pub proof fn lemma_count_batch(
    files: Seq<FileInfo>,
    buckets: Seq<Seq<usize>>,
    at: int,
    seen: Set<int>,
)
    requires
        is_duplicate_grouping(size_keys(files), buckets),
        0 <= at < buckets.len(),
        seen.finite(),
        forall|x: int| #[trigger] seen.contains(x) <==> is_hashed(buckets, at, x),
    ensures
        with_members(seen, buckets[at]).finite(),
        with_members(seen, buckets[at]).len() == seen.len() + buckets[at].len(),
        with_members(seen, buckets[at]).len() <= files.len(),
        forall|x: int| #[trigger]
            with_members(seen, buckets[at]).contains(x) <==> is_hashed(buckets, at + 1, x),
{
    let batch = buckets[at];
    let grown = with_members(seen, batch);
    let range = vstd::set_lib::set_int_range(0, files.len() as int);
    lemma_bucket_holds_its_size(files, buckets, at);
    assert forall|m: int| 0 <= m < batch.len()
        implies !seen.contains(#[trigger] batch[m] as int) by {
        if seen.contains(batch[m] as int) {
            lemma_not_in_two_buckets(files, buckets, at, batch[m] as int);
        }
    }
    lemma_with_members(seen, batch);
    assert forall|x: int| grown.contains(x) implies range.contains(x) by {
        if seen.contains(x) {
            lemma_not_in_two_buckets(files, buckets, at, x);
        } else {
            let m = choose|m: int| 0 <= m < batch.len() && #[trigger] batch[m] == x;
            assert(batch[m] < files.len());
        }
    }
    assert(grown.subset_of(range));
    vstd::set_lib::lemma_int_range(0, files.len() as int);
    vstd::set_lib::lemma_len_subset(grown, range);
    assert forall|x: int| #[trigger] grown.contains(x) <==> is_hashed(buckets, at + 1, x) by {
        if is_hashed(buckets, at + 1, x) {
            let c = choose|c: int|
                0 <= c < at + 1 && c < buckets.len() && member(#[trigger] buckets[c], x);
            if c < at {
                assert(is_hashed(buckets, at, x));
            }
        }
        if seen.contains(x) {
            let c = choose|c: int|
                0 <= c < at && c < buckets.len() && member(#[trigger] buckets[c], x);
            assert(member(buckets[c], x));
        }
        if member(batch, x) {
            assert(member(buckets[at], x));
        }
    }
}

/// The digests known after a batch: each member of the batch has the
/// outcome of its hashing, every other file what it had before.
pub open spec fn merged_digests(
    known: Seq<Option<Seq<char>>>,
    batch: Seq<usize>,
    outcomes: Seq<Option<Seq<char>>>,
) -> Seq<Option<Seq<char>>> {
    Seq::new(
        known.len(),
        |i: int|
            if member(batch, i) {
                outcomes[choose|m: int| 0 <= m < batch.len() && #[trigger] batch[m] == i]
            } else {
                known[i]
            },
    )
}

/// In an ascending batch each member has the outcome at its own place.
pub proof fn lemma_merged_digests(
    known: Seq<Option<Seq<char>>>,
    batch: Seq<usize>,
    outcomes: Seq<Option<Seq<char>>>,
)
    requires
        forall|m: int, n: int| 0 <= m < n < batch.len()
            ==> #[trigger] batch[m] < #[trigger] batch[n],
        forall|m: int| 0 <= m < batch.len() ==> #[trigger] batch[m] < known.len(),
    ensures
        merged_digests(known, batch, outcomes).len() == known.len(),
        forall|m: int|
            0 <= m < batch.len()
                ==> merged_digests(known, batch, outcomes)[#[trigger] batch[m] as int]
                == outcomes[m],
        forall|i: int|
            0 <= i < known.len() && !member(batch, i) ==> #[trigger] merged_digests(
                known,
                batch,
                outcomes,
            )[i] == known[i],
{
    let next = merged_digests(known, batch, outcomes);
    assert forall|m: int| 0 <= m < batch.len() implies next[#[trigger] batch[m] as int]
        == outcomes[m] by {
        let i = batch[m] as int;
        assert(member(batch, i));
        let k = choose|k: int| 0 <= k < batch.len() && #[trigger] batch[k] == i;
        if k < m {
            assert(batch[k] < batch[m]);
        }
        if m < k {
            assert(batch[m] < batch[k]);
        }
    }
}

/// A member of a group holds the key of the group's first member.
pub proof fn lemma_members_hold_the_key<K>(
    keys: Seq<Option<K>>,
    groups: Seq<Seq<usize>>,
    g: int,
    i: int,
)
    requires
        is_duplicate_grouping(keys, groups),
        0 <= g < groups.len(),
        member(groups[g], i),
    ensures
        0 <= i < keys.len(),
        keys[i] is Some,
        keys[i] == keys[groups[g][0] as int],
{
    let group = groups[g];
    assert(is_class(keys, group));
    let m = choose|m: int| 0 <= m < group.len() && #[trigger] group[m] == i;
    assert(group[m] < keys.len());
    assert(keys[group[m] as int] == keys[group[0] as int]);
}

/// Whether group `g` holds both positions and no other group holds either.
pub open spec fn is_their_only_group(members: Seq<Seq<usize>>, g: int, i: int, j: int) -> bool {
    &&& 0 <= g < members.len()
    &&& member(members[g], i)
    &&& member(members[g], j)
    &&& forall|h: int|
        0 <= h < members.len() && (member(#[trigger] members[h], i) || member(members[h], j)) ==> h
            == g
}

/// Two files of the same size whose hashing gave the same digest are
/// together in exactly one duplicate group.
pub proof fn law_equal_files_share_one_group(
    files: Seq<FileInfo>,
    digests: Seq<Option<Seq<char>>>,
    members: Seq<Seq<usize>>,
    i: int,
    j: int,
)
    requires
        digests.len() == files.len(),
        is_duplicate_grouping(content_keys(files, digests), members),
        0 <= i < files.len(),
        0 <= j < files.len(),
        i != j,
        files[i].size == files[j].size,
        digests[i] is Some,
        digests[i] == digests[j],
    ensures
        exists|g: int| is_their_only_group(members, g, i, j),
{
    let keys = content_keys(files, digests);
    assert(keys[j] == keys[i]);
    assert(has_twin(keys, i));
    assert(keys[i] is Some);
    assert(is_grouped(members, i));
    let g = choose|g: int| 0 <= g < members.len() && member(#[trigger] members[g], i);
    lemma_members_hold_the_key(keys, members, g, i);
    assert(is_class(keys, members[g]));
    assert(member(members[g], j));
    assert forall|h: int|
        0 <= h < members.len() && (member(#[trigger] members[h], i) || member(
            members[h],
            j,
        )) implies h == g by {
        if member(members[h], i) {
            lemma_members_hold_the_key(keys, members, h, i);
        } else {
            lemma_members_hold_the_key(keys, members, h, j);
        }
    }
    assert(is_their_only_group(members, g, i, j));
}

/// A file is in no duplicate group when no other file has both its size
/// and its digest. In particular a file without a digest is in no group:
/// one that could not be hashed, and one that was never hashed because no
/// other file has its size.
pub proof fn law_unique_file_is_in_no_group(
    files: Seq<FileInfo>,
    digests: Seq<Option<Seq<char>>>,
    members: Seq<Seq<usize>>,
    i: int,
)
    requires
        digests.len() == files.len(),
        is_duplicate_grouping(content_keys(files, digests), members),
        0 <= i < files.len(),
        forall|j: int|
            0 <= j < files.len() && j != i && (#[trigger] files[j]).size == files[i].size
                ==> digests[i] is None || digests[j] != digests[i],
    ensures
        !is_grouped(members, i),
{
    let keys = content_keys(files, digests);
    if is_grouped(members, i) {
        let g = choose|g: int| 0 <= g < members.len() && member(#[trigger] members[g], i);
        let group = members[g];
        lemma_members_hold_the_key(keys, members, g, i);
        assert(is_class(keys, group));
        assert(group.len() >= 2);
        let first = group[0] as int;
        let second = group[1] as int;
        assert(group[0] < group[1]);
        assert(group[0] < keys.len());
        assert(group[1] < keys.len());
        assert(keys[group[1] as int] == keys[group[0] as int]);
        let other = if first == i {
            second
        } else {
            first
        };
        assert(keys[other] == keys[i]);
        assert(files[other].size == files[i].size);
    }
}

/// The members of a duplicate group are at least two, in the order of
/// their discovery, all of one size and all of one digest.
pub proof fn law_group_members_agree(
    files: Seq<FileInfo>,
    digests: Seq<Option<Seq<char>>>,
    members: Seq<Seq<usize>>,
    g: int,
    m: int,
    n: int,
)
    requires
        digests.len() == files.len(),
        is_duplicate_grouping(content_keys(files, digests), members),
        0 <= g < members.len(),
        0 <= m < n < members[g].len(),
    ensures
        members[g].len() >= 2,
        members[g][m] < members[g][n] < files.len(),
        file_groups(files, members)[g].len() == members[g].len(),
        file_groups(files, members)[g][m] == files[members[g][m] as int],
        file_groups(files, members)[g][n] == files[members[g][n] as int],
        files[members[g][m] as int].size == files[members[g][n] as int].size,
        digests[members[g][m] as int] is Some,
        digests[members[g][m] as int] == digests[members[g][n] as int],
{
    let keys = content_keys(files, digests);
    let group = members[g];
    assert(is_class(keys, group));
    assert(group[m] < group[n]);
    assert(group[m] < keys.len());
    assert(group[n] < keys.len());
    assert(keys[group[m] as int] == keys[group[0] as int]);
    assert(keys[group[n] as int] == keys[group[0] as int]);
}

/// No group of a duplicate grouping is without a second member.
pub proof fn law_groups_have_two_members(
    files: Seq<FileInfo>,
    digests: Seq<Option<Seq<char>>>,
    members: Seq<Seq<usize>>,
    g: int,
)
    requires
        is_duplicate_grouping(content_keys(files, digests), members),
        0 <= g < members.len(),
    ensures
        members[g].len() >= 2,
        file_groups(files, members)[g].len() >= 2,
{
}

} // verus!
