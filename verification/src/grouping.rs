//! Grouping positions by key.
//!
//! Both indexes of a scan are the same construction: the size index groups
//! the discovered files by size, the hash index groups the files of one size
//! by digest. A key is optional: a position without a key (a file whose hash
//! could not be computed) belongs to no group.
//!
//! A group is a sequence of positions into the list of keys, in ascending
//! order, so the members of a group keep the order in which they were found.
use std::collections::HashMap;
use vstd::hash_map::StringHashMap;
use vstd::prelude::*;

use crate::model::FileInfo;

verus! {

/// Whether position `i` is a member of `group`.
pub open spec fn member(group: Seq<usize>, i: int) -> bool {
    exists|m: int| 0 <= m < group.len() && #[trigger] group[m] == i
}

/// Whether `group` is strictly ascending.
pub open spec fn is_ascending(group: Seq<usize>) -> bool {
    forall|m: int, n: int| 0 <= m < n < group.len() ==> #[trigger] group[m] < #[trigger] group[n]
}

/// The key of a group: the key at its first member.
pub open spec fn key_of<K>(keys: Seq<Option<K>>, group: Seq<usize>) -> Option<K> {
    keys[group[0] as int]
}

/// Whether `group` is the class of its first member: it holds exactly the
/// positions whose key equals that member's key, in ascending order.
pub open spec fn is_class<K>(keys: Seq<Option<K>>, group: Seq<usize>) -> bool {
    &&& group.len() > 0
    &&& forall|m: int| 0 <= m < group.len() ==> #[trigger] group[m] < keys.len()
    &&& is_ascending(group)
    &&& key_of(keys, group) is Some
    &&& forall|m: int| 0 <= m < group.len()
        ==> keys[#[trigger] group[m] as int] == key_of(keys, group)
    &&& forall|i: int| 0 <= i < keys.len() && #[trigger] keys[i] == key_of(keys, group)
        ==> member(group, i)
}

/// Whether every group is a class and no two groups share a key.
pub open spec fn are_classes<K>(keys: Seq<Option<K>>, groups: Seq<Seq<usize>>) -> bool {
    &&& forall|g: int| 0 <= g < groups.len() ==> is_class(keys, #[trigger] groups[g])
    &&& forall|g: int, h: int|
        0 <= g < groups.len() && 0 <= h < groups.len() && g != h
            ==> key_of(keys, #[trigger] groups[g])
            != key_of(keys, #[trigger] groups[h])
}

/// Whether the groups come in the order in which their first members were
/// found.
pub open spec fn in_discovery_order(groups: Seq<Seq<usize>>) -> bool {
    forall|g: int, h: int|
        0 <= g < h < groups.len() ==> (#[trigger] groups[g])[0] < (#[trigger] groups[h])[0]
}

/// Whether some group holds position `i`.
pub open spec fn is_grouped(groups: Seq<Seq<usize>>, i: int) -> bool {
    exists|g: int| 0 <= g < groups.len() && member(#[trigger] groups[g], i)
}

/// Whether another position holds the same key as position `i`.
pub open spec fn has_twin<K>(keys: Seq<Option<K>>, i: int) -> bool {
    exists|j: int| 0 <= j < keys.len() && j != i && #[trigger] keys[j] == keys[i]
}

/// Whether `groups` are the classes of all positions that have a key.
pub open spec fn is_partition<K>(keys: Seq<Option<K>>, groups: Seq<Seq<usize>>) -> bool {
    &&& are_classes(keys, groups)
    &&& forall|i: int| 0 <= i < keys.len() && (#[trigger] keys[i]) is Some ==> is_grouped(groups, i)
}

/// Whether `groups` are exactly the classes with two members or more: every
/// group is the class of a key that at least two positions hold, no two
/// groups share a key, and every position whose key another position holds
/// too is in a group.
pub open spec fn is_duplicate_grouping<K>(keys: Seq<Option<K>>, groups: Seq<Seq<usize>>) -> bool {
    &&& are_classes(keys, groups)
    &&& forall|g: int| 0 <= g < groups.len() ==> (#[trigger] groups[g]).len() >= 2
    &&& forall|i: int|
        0 <= i < keys.len() && (#[trigger] keys[i]) is Some && has_twin(keys, i) ==> is_grouped(
            groups,
            i,
        )
}

/// The rows of a list of groups, as sequences.
pub open spec fn rows(groups: Vec<Vec<usize>>) -> Seq<Seq<usize>> {
    Seq::new(groups@.len(), |g: int| groups@[g]@)
}

/// A position without a key joins no group.
proof fn lemma_skip<K>(keys: Seq<Option<K>>, n: int, groups: Seq<Seq<usize>>)
    requires
        0 <= n < keys.len(),
        is_partition(keys.take(n), groups),
        keys[n] is None,
    ensures
        is_partition(keys.take(n + 1), groups),
{
    let before = keys.take(n);
    let after = keys.take(n + 1);
    assert forall|g: int| 0 <= g < groups.len() implies is_class(after, #[trigger] groups[g]) by {
        let group = groups[g];
        assert(is_class(before, group));
        assert forall|m: int| 0 <= m < group.len() implies after[#[trigger] group[m] as int]
            == after[group[0] as int] by {
            assert(before[group[m] as int] == before[group[0] as int]);
        }
        assert forall|i: int|
            0 <= i < after.len() && #[trigger] after[i] == after[group[0] as int] implies member(
            group,
            i,
        ) by {
            assert(i < n);
            assert(before[i] == before[group[0] as int]);
        }
    }
    assert forall|g: int, h: int|
        0 <= g < groups.len() && 0 <= h < groups.len() && g != h implies after[(
    #[trigger] groups[g])[0] as int] != after[(#[trigger] groups[h])[0] as int] by {
        assert(is_class(before, groups[g]));
        assert(is_class(before, groups[h]));
        assert(before[groups[g][0] as int] != before[groups[h][0] as int]);
    }
    assert forall|i: int| 0 <= i < after.len() && (#[trigger] after[i]) is Some implies is_grouped(
        groups,
        i,
    ) by {
        assert(before[i] is Some);
    }
}

/// A position whose key a group already holds joins that group.
proof fn lemma_join<K>(keys: Seq<Option<K>>, n: int, groups: Seq<Seq<usize>>, at: int)
    requires
        0 <= n < keys.len(),
        n <= usize::MAX,
        is_partition(keys.take(n), groups),
        in_discovery_order(groups),
        0 <= at < groups.len(),
        keys[n] == key_of(keys, groups[at]),
    ensures
        is_partition(keys.take(n + 1), groups.update(at, groups[at].push(n as usize))),
        in_discovery_order(groups.update(at, groups[at].push(n as usize))),
{
    let before = keys.take(n);
    let after = keys.take(n + 1);
    let joined = groups[at].push(n as usize);
    let next = groups.update(at, joined);
    assert(is_class(before, groups[at]));
    assert forall|g: int, h: int| 0 <= g < h < next.len() implies (#[trigger] next[g])[0] < (
    #[trigger] next[h])[0] by {
        assert(is_class(before, groups[g]));
        assert(is_class(before, groups[h]));
        assert(groups[g][0] < groups[h][0]);
    }
    assert forall|g: int| 0 <= g < next.len() implies is_class(after, #[trigger] next[g]) by {
        let old_group = groups[g];
        let group = next[g];
        assert(is_class(before, old_group));
        assert(group[0] == old_group[0]);
        assert forall|m: int| 0 <= m < group.len() implies #[trigger] group[m] < after.len() by {
            if m < old_group.len() {
                assert(old_group[m] < before.len());
            }
        }
        assert forall|m: int, k: int| 0 <= m < k < group.len() implies #[trigger] group[m]
            < #[trigger] group[k] by {
            if k < old_group.len() {
                assert(old_group[m] < old_group[k]);
            } else {
                assert(old_group[m] < before.len());
            }
        }
        assert forall|m: int| 0 <= m < group.len() implies after[#[trigger] group[m] as int]
            == after[group[0] as int] by {
            if m < old_group.len() {
                assert(before[old_group[m] as int] == before[old_group[0] as int]);
            }
        }
        assert forall|i: int|
            0 <= i < after.len() && #[trigger] after[i] == after[group[0] as int] implies member(
            group,
            i,
        ) by {
            if i < n {
                assert(before[i] == before[old_group[0] as int]);
                let m = choose|m: int| 0 <= m < old_group.len() && #[trigger] old_group[m] == i;
                assert(group[m] == i);
            } else {
                if g != at {
                    assert(before[groups[g][0] as int] != before[groups[at][0] as int]);
                }
                assert(group[group.len() - 1] == i);
            }
        }
    }
    assert forall|g: int, h: int|
        0 <= g < next.len() && 0 <= h < next.len() && g != h
            implies after[(#[trigger] next[g])[0] as int]
        != after[(#[trigger] next[h])[0] as int] by {
        assert(is_class(before, groups[g]));
        assert(is_class(before, groups[h]));
        assert(next[g][0] == groups[g][0]);
        assert(next[h][0] == groups[h][0]);
        assert(before[groups[g][0] as int] != before[groups[h][0] as int]);
    }
    assert forall|i: int| 0 <= i < after.len() && (#[trigger] after[i]) is Some implies is_grouped(
        next,
        i,
    ) by {
        if i < n {
            assert(before[i] is Some);
            let g = choose|g: int| 0 <= g < groups.len() && member(#[trigger] groups[g], i);
            let m = choose|m: int| 0 <= m < groups[g].len() && #[trigger] groups[g][m] == i;
            assert(next[g][m] == i);
            assert(member(next[g], i));
        } else {
            assert(next[at][next[at].len() - 1] == i);
            assert(member(next[at], i));
        }
    }
}

/// A position whose key no group holds opens a group of its own.
proof fn lemma_open<K>(keys: Seq<Option<K>>, n: int, groups: Seq<Seq<usize>>)
    requires
        0 <= n < keys.len(),
        n <= usize::MAX,
        is_partition(keys.take(n), groups),
        in_discovery_order(groups),
        keys[n] is Some,
        forall|g: int| 0 <= g < groups.len() ==> key_of(keys, #[trigger] groups[g]) != keys[n],
    ensures
        is_partition(keys.take(n + 1), groups.push(seq![n as usize])),
        in_discovery_order(groups.push(seq![n as usize])),
{
    let before = keys.take(n);
    let after = keys.take(n + 1);
    let single = seq![n as usize];
    let next = groups.push(single);
    assert forall|g: int, h: int| 0 <= g < h < next.len() implies (#[trigger] next[g])[0] < (
    #[trigger] next[h])[0] by {
        assert(is_class(before, groups[g]));
        assert(groups[g][0] < before.len());
        if h < groups.len() {
            assert(groups[g][0] < groups[h][0]);
        }
    }
    assert forall|g: int| 0 <= g < next.len() implies is_class(after, #[trigger] next[g]) by {
        let group = next[g];
        if g < groups.len() {
            assert(is_class(before, group));
            assert forall|m: int| 0 <= m < group.len() implies after[#[trigger] group[m] as int]
                == after[group[0] as int] by {
                assert(before[group[m] as int] == before[group[0] as int]);
            }
            assert forall|i: int|
                0 <= i < after.len() && #[trigger] after[i] == after[group[0] as int]
                    implies member(
                group,
                i,
            ) by {
                assert(before[group[0] as int] == keys[groups[g][0] as int]);
                assert(i < n);
                assert(before[i] == before[group[0] as int]);
            }
        } else {
            assert(group[0] == n);
            assert forall|i: int|
                0 <= i < after.len() && #[trigger] after[i] == after[group[0] as int]
                    implies member(
                group,
                i,
            ) by {
                if i < n {
                    assert(before[i] is Some);
                    let h = choose|h: int| 0 <= h < groups.len() && member(#[trigger] groups[h], i);
                    assert(is_class(before, groups[h]));
                    let m = choose|m: int| 0 <= m < groups[h].len() && #[trigger] groups[h][m] == i;
                    assert(before[groups[h][m] as int] == before[groups[h][0] as int]);
                    assert(keys[groups[h][0] as int] != keys[n]);
                }
            }
        }
    }
    assert forall|g: int, h: int|
        0 <= g < next.len() && 0 <= h < next.len() && g != h
            implies after[(#[trigger] next[g])[0] as int]
        != after[(#[trigger] next[h])[0] as int] by {
        if g < groups.len() {
            assert(is_class(before, groups[g]));
        }
        if h < groups.len() {
            assert(is_class(before, groups[h]));
        }
        if g < groups.len() && h < groups.len() {
            assert(before[groups[g][0] as int] != before[groups[h][0] as int]);
        }
    }
    assert forall|i: int| 0 <= i < after.len() && (#[trigger] after[i]) is Some implies is_grouped(
        next,
        i,
    ) by {
        if i < n {
            assert(before[i] is Some);
            let g = choose|g: int| 0 <= g < groups.len() && member(#[trigger] groups[g], i);
            assert(next[g] == groups[g]);
        } else {
            assert(next[groups.len() as int][0] == i);
            assert(member(next[groups.len() as int], i));
        }
    }
}

/// Keeps the groups with two members or more, in their order.
fn keep_duplicates<K>(groups: Vec<Vec<usize>>, Ghost(keys): Ghost<Seq<Option<K>>>) -> (kept: Vec<
    Vec<usize>,
>)
    requires
        is_partition(keys, rows(groups)),
        in_discovery_order(rows(groups)),
    ensures
        is_duplicate_grouping(keys, rows(kept)),
        in_discovery_order(rows(kept)),
{
    let ghost all = rows(groups);
    let ghost mut origin: Seq<int> = Seq::empty();
    let mut kept: Vec<Vec<usize>> = Vec::new();
    for group in it: groups
        invariant
            it.seq() == groups@,
            all == rows(groups),
            origin.len() == kept@.len(),
            forall|k: int| 0 <= k < origin.len() ==> 0 <= #[trigger] origin[k] < it.index(),
            forall|k: int, l: int| 0 <= k < l < origin.len()
                ==> #[trigger] origin[k] < #[trigger] origin[l],
            forall|k: int| 0 <= k < origin.len() ==> (#[trigger] kept@[k])@ == all[origin[k]],
            forall|k: int| 0 <= k < kept@.len() ==> (#[trigger] kept@[k])@.len() >= 2,
            forall|g: int|
                0 <= g < it.index() && (#[trigger] all[g]).len() >= 2 ==> exists|k: int|
                    0 <= k < origin.len() && #[trigger] origin[k] == g,
    {
        let ghost at = it.index();
        assert(group@ == all[at]);
        if group.len() >= 2 {
            kept.push(group);
            proof {
                let earlier = origin;
                origin = origin.push(at);
                assert forall|g: int|
                    0 <= g < at + 1 && (#[trigger] all[g]).len() >= 2 implies exists|k: int|
                    0 <= k < origin.len() && #[trigger] origin[k] == g by {
                    if g < at {
                        let k = choose|k: int| 0 <= k < earlier.len() && #[trigger] earlier[k] == g;
                        assert(origin[k] == g);
                    } else {
                        assert(origin[earlier.len() as int] == g);
                    }
                }
            }
        }
    }
    proof {
        let out = rows(kept);
        assert forall|k: int| 0 <= k < out.len() implies is_class(keys, #[trigger] out[k]) by {
            assert(kept@[k]@ == all[origin[k]]);
        }
        assert forall|k: int, l: int|
            0 <= k < out.len() && 0 <= l < out.len() && k != l
                implies keys[(#[trigger] out[k])[0] as int]
            != keys[(#[trigger] out[l])[0] as int] by {
            assert(kept@[k]@ == all[origin[k]]);
            assert(kept@[l]@ == all[origin[l]]);
            if k < l {
                assert(origin[k] < origin[l]);
            } else {
                assert(origin[l] < origin[k]);
            }
        }
        assert forall|k: int| 0 <= k < out.len() implies (#[trigger] out[k]).len() >= 2 by {
            assert(kept@[k]@.len() >= 2);
        }
        assert forall|k: int, l: int| 0 <= k < l < out.len() implies (#[trigger] out[k])[0] < (
        #[trigger] out[l])[0] by {
            assert(kept@[k]@ == all[origin[k]]);
            assert(kept@[l]@ == all[origin[l]]);
            assert(origin[k] < origin[l]);
        }
        assert forall|i: int|
            0 <= i < keys.len() && (#[trigger] keys[i]) is Some && has_twin(keys, i)
                implies is_grouped(
            out,
            i,
        ) by {
            let j = choose|j: int| 0 <= j < keys.len() && j != i && #[trigger] keys[j] == keys[i];
            let g = choose|g: int| 0 <= g < all.len() && member(#[trigger] all[g], i);
            let group = all[g];
            assert(is_class(keys, group));
            let m = choose|m: int| 0 <= m < group.len() && #[trigger] group[m] == i;
            assert(keys[group[m] as int] == keys[group[0] as int]);
            assert(member(group, j));
            let n = choose|n: int| 0 <= n < group.len() && #[trigger] group[n] == j;
            assert(m != n);
            let k = choose|k: int| 0 <= k < origin.len() && #[trigger] origin[k] == g;
            assert(kept@[k]@ == all[origin[k]]);
            assert(member(out[k], i));
        }
    }
    kept
}

/// Two ascending sequences with the same members are the same sequence.
pub proof fn lemma_ascending_is_unique(a: Seq<usize>, b: Seq<usize>)
    requires
        is_ascending(a),
        is_ascending(b),
        forall|x: int| member(a, x) <==> member(b, x),
    ensures
        a == b,
    decreases a.len(),
{
    if a.len() == 0 {
        if b.len() > 0 {
            assert(member(b, b[0] as int));
            assert(member(a, b[0] as int));
        }
        assert(a =~= b);
    } else {
        let top = a.last() as int;
        assert(a[a.len() - 1] == top);
        assert(member(a, top));
        assert(member(b, top));
        let at = choose|n: int| 0 <= n < b.len() && #[trigger] b[n] == top;
        if at < b.len() - 1 {
            let above = b.last() as int;
            assert(b[at] < b[b.len() - 1]);
            assert(member(b, above));
            assert(member(a, above));
            let m = choose|m: int| 0 <= m < a.len() && #[trigger] a[m] == above;
            if m < a.len() - 1 {
                assert(a[m] < a[a.len() - 1]);
            }
        }
        assert(b.last() == top);
        let front = a.drop_last();
        let rest = b.drop_last();
        assert forall|x: int| member(front, x) <==> member(rest, x) by {
            if member(front, x) {
                let m = choose|m: int| 0 <= m < front.len() && #[trigger] front[m] == x;
                assert(a[m] == x);
                assert(a[m] < a[a.len() - 1]);
                assert(member(a, x));
                let n = choose|n: int| 0 <= n < b.len() && #[trigger] b[n] == x;
                assert(rest[n] == x);
            }
            if member(rest, x) {
                let n = choose|n: int| 0 <= n < rest.len() && #[trigger] rest[n] == x;
                assert(b[n] == x);
                assert(b[n] < b[b.len() - 1]);
                assert(member(b, x));
                let m = choose|m: int| 0 <= m < a.len() && #[trigger] a[m] == x;
                assert(front[m] == x);
            }
        }
        assert forall|m: int, n: int| 0 <= m < n < front.len() implies #[trigger] front[m]
            < #[trigger] front[n] by {
            assert(a[m] < a[n]);
        }
        assert forall|m: int, n: int| 0 <= m < n < rest.len() implies #[trigger] rest[m]
            < #[trigger] rest[n] by {
            assert(b[m] < b[n]);
        }
        lemma_ascending_is_unique(front, rest);
        assert(a =~= front.push(a.last()));
        assert(b =~= rest.push(b.last()));
    }
}

/// Every group of one duplicate grouping is a group of any other duplicate
/// grouping of the same keys.
proof fn lemma_group_is_in_both<K>(
    keys: Seq<Option<K>>,
    a: Seq<Seq<usize>>,
    b: Seq<Seq<usize>>,
    g: int,
) -> (h: int)
    requires
        is_duplicate_grouping(keys, a),
        is_duplicate_grouping(keys, b),
        0 <= g < a.len(),
    ensures
        0 <= h < b.len(),
        b[h] == a[g],
{
    let group = a[g];
    assert(is_class(keys, group));
    assert(group.len() >= 2);
    let first = group[0] as int;
    let second = group[1] as int;
    assert(group[0] < group[1]);
    assert(group[0] < keys.len());
    assert(group[1] < keys.len());
    assert(keys[group[1] as int] == keys[group[0] as int]);
    assert(has_twin(keys, first));
    assert(is_grouped(b, first));
    let h = choose|h: int| 0 <= h < b.len() && member(#[trigger] b[h], first);
    let other = b[h];
    assert(is_class(keys, other));
    let at = choose|n: int| 0 <= n < other.len() && #[trigger] other[n] == first;
    assert(keys[other[at] as int] == keys[other[0] as int]);
    assert forall|x: int| member(group, x) <==> member(other, x) by {
        if member(group, x) {
            let m = choose|m: int| 0 <= m < group.len() && #[trigger] group[m] == x;
            assert(group[m] < keys.len());
            assert(keys[group[m] as int] == keys[group[0] as int]);
            assert(keys[x] == keys[other[0] as int]);
        }
        if member(other, x) {
            let n = choose|n: int| 0 <= n < other.len() && #[trigger] other[n] == x;
            assert(other[n] < keys.len());
            assert(keys[other[n] as int] == keys[other[0] as int]);
            assert(keys[x] == keys[group[0] as int]);
        }
    }
    lemma_ascending_is_unique(group, other);
    h
}

/// The first members of the groups, in the order of the groups.
pub open spec fn leaders(groups: Seq<Seq<usize>>) -> Seq<usize> {
    Seq::new(groups.len(), |g: int| groups[g][0])
}

/// The keys decide the duplicate groups: two duplicate groupings of the
/// same keys, both in the order of discovery, are equal.
pub proof fn law_duplicate_grouping_is_unique<K>(
    keys: Seq<Option<K>>,
    a: Seq<Seq<usize>>,
    b: Seq<Seq<usize>>,
)
    requires
        is_duplicate_grouping(keys, a),
        in_discovery_order(a),
        is_duplicate_grouping(keys, b),
        in_discovery_order(b),
    ensures
        a == b,
{
    let first_a = leaders(a);
    let first_b = leaders(b);
    assert forall|x: int| member(first_a, x) <==> member(first_b, x) by {
        if member(first_a, x) {
            let g = choose|g: int| 0 <= g < first_a.len() && #[trigger] first_a[g] == x;
            let h = lemma_group_is_in_both(keys, a, b, g);
            assert(is_class(keys, a[g]));
            assert(first_b[h] == x);
        }
        if member(first_b, x) {
            let h = choose|h: int| 0 <= h < first_b.len() && #[trigger] first_b[h] == x;
            let g = lemma_group_is_in_both(keys, b, a, h);
            assert(is_class(keys, b[h]));
            assert(first_a[g] == x);
        }
    }
    assert forall|m: int, n: int| 0 <= m < n < first_a.len() implies #[trigger] first_a[m]
        < #[trigger] first_a[n] by {
        assert(a[m][0] < a[n][0]);
    }
    assert forall|m: int, n: int| 0 <= m < n < first_b.len() implies #[trigger] first_b[m]
        < #[trigger] first_b[n] by {
        assert(b[m][0] < b[n][0]);
    }
    lemma_ascending_is_unique(first_a, first_b);
    assert(a.len() == b.len());
    assert forall|g: int| 0 <= g < a.len() implies #[trigger] a[g] == b[g] by {
        let h = lemma_group_is_in_both(keys, a, b, g);
        assert(first_a[g] == first_b[g]);
        assert(first_b[h] == b[h][0]);
        assert(first_b[g] == b[g][0]);
        if h < g {
            assert(b[h][0] < b[g][0]);
        }
        if g < h {
            assert(b[g][0] < b[h][0]);
        }
    }
    assert(a =~= b);
}

/// The key of each file in the size index: its size.
pub open spec fn size_keys(files: Seq<FileInfo>) -> Seq<Option<u64>> {
    Seq::new(files.len(), |i: int| Some(files[i].size))
}

/// The key of each file in the hash index: its digest, where it has one.
pub open spec fn digest_keys(digests: Seq<Option<String>>) -> Seq<Option<Seq<char>>> {
    Seq::new(
        digests.len(),
        |i: int|
            match digests[i] {
                Some(digest) => Some(digest@),
                None => None,
            },
    )
}

/// The size index: the positions of the files that share their exact size
/// with at least one other file, one bucket per size.
///
/// Files of a size that no other file has cannot have a duplicate and are in
/// no bucket. Buckets come in the order in which their sizes were first
/// met, and the members of a bucket in the order in which they were found.
pub fn size_buckets(files: &Vec<FileInfo>) -> (buckets: Vec<Vec<usize>>)
    ensures
        is_duplicate_grouping(size_keys(files@), rows(buckets)),
        in_discovery_order(rows(buckets)),
{
    let ghost keys = size_keys(files@);
    let mut groups: Vec<Vec<usize>> = Vec::new();
    let mut slot: HashMap<u64, usize> = HashMap::new();
    let mut i: usize = 0;
    while i < files.len()
        invariant
            i <= files.len(),
            keys == size_keys(files@),
            is_partition(keys.take(i as int), rows(groups)),
            in_discovery_order(rows(groups)),
            forall|g: int|
                0 <= g < groups@.len() ==> slot@.contains_key(
                    files@[(#[trigger] groups@[g])@[0] as int].size,
                ) && slot@[files@[groups@[g]@[0] as int].size] == g,
            forall|size: u64| #[trigger]
                slot@.contains_key(size) ==> slot@[size] < groups@.len() && key_of(
                    keys,
                    rows(groups)[slot@[size] as int],
                ) == Some(size),
        decreases files.len() - i,
    {
        let ghost before = rows(groups);
        let ghost known = slot@;
        let size = files[i].size;
        assert(keys[i as int] == Some(size));
        assert forall|g: int| 0 <= g < before.len() implies (#[trigger] before[g]).len() > 0
            && before[g][0] < i by {
            assert(is_class(keys.take(i as int), before[g]));
        }
        match slot.get(&size) {
            Some(found) => {
                let at: usize = *found;
                groups[at].push(i);
                proof {
                    lemma_join(keys, i as int, before, at as int);
                    assert(rows(groups) =~= before.update(at as int, before[at as int].push(i)));
                }
            },
            None => {
                let mut single: Vec<usize> = Vec::new();
                single.push(i);
                slot.insert(size, groups.len());
                groups.push(single);
                proof {
                    assert forall|g: int| 0 <= g < before.len() implies key_of(
                        keys,
                        #[trigger] before[g],
                    ) != keys[i as int] by {
                        assert(known.contains_key(files@[groups@[g]@[0] as int].size));
                    }
                    lemma_open(keys, i as int, before);
                    assert(rows(groups) =~= before.push(seq![i]));
                }
            },
        }
        i = i + 1;
    }
    assert(keys.take(i as int) == keys);
    keep_duplicates::<u64>(groups, Ghost(keys))
}

/// The hash index of one bucket: the positions that share their digest with
/// at least one other position, one group per digest.
///
/// A position without a digest is in no group, and neither is one whose
/// digest no other position has. Groups come in the order in which their
/// digests were first met, and the members of a group in ascending order.
pub fn digest_groups(digests: &Vec<Option<String>>) -> (groups: Vec<Vec<usize>>)
    ensures
        is_duplicate_grouping(digest_keys(digests@), rows(groups)),
        in_discovery_order(rows(groups)),
{
    let ghost keys = digest_keys(digests@);
    let mut groups: Vec<Vec<usize>> = Vec::new();
    let mut slot: StringHashMap<usize> = StringHashMap::new();
    let mut i: usize = 0;
    while i < digests.len()
        invariant
            i <= digests.len(),
            keys == digest_keys(digests@),
            is_partition(keys.take(i as int), rows(groups)),
            in_discovery_order(rows(groups)),
            forall|g: int|
                0 <= g < groups@.len() ==> {
                    let key = keys[(#[trigger] groups@[g])@[0] as int];
                    key is Some && slot@.contains_key(key->0) && slot@[key->0] == g
                },
            forall|digest: Seq<char>| #[trigger]
                slot@.contains_key(digest) ==> slot@[digest] < groups@.len() && key_of(
                    keys,
                    rows(groups)[slot@[digest] as int],
                ) == Some(digest),
        decreases digests.len() - i,
    {
        let ghost before = rows(groups);
        let ghost known = slot@;
        assert forall|g: int| 0 <= g < before.len() implies (#[trigger] before[g]).len() > 0
            && before[g][0] < i by {
            assert(is_class(keys.take(i as int), before[g]));
        }
        match &digests[i] {
            Some(digest) => {
                assert(keys[i as int] == Some(digest@));
                match slot.get(digest.as_str()) {
                    Some(found) => {
                        let at: usize = *found;
                        groups[at].push(i);
                        proof {
                            lemma_join(keys, i as int, before, at as int);
                            assert(rows(groups) =~= before.update(
                                at as int,
                                before[at as int].push(i),
                            ));
                        }
                    },
                    None => {
                        let mut single: Vec<usize> = Vec::new();
                        single.push(i);
                        slot.insert(digest.clone(), groups.len());
                        groups.push(single);
                        proof {
                            assert forall|g: int| 0 <= g < before.len() implies key_of(
                                keys,
                                #[trigger] before[g],
                            ) != keys[i as int] by {
                                let key = keys[groups@[g]@[0] as int];
                                assert(known.contains_key(key->0));
                            }
                            lemma_open(keys, i as int, before);
                            assert(rows(groups) =~= before.push(seq![i]));
                        }
                    },
                }
            },
            None => {
                proof {
                    lemma_skip(keys, i as int, before);
                }
            },
        }
        i = i + 1;
    }
    assert(keys.take(i as int) == keys);
    keep_duplicates::<Seq<char>>(groups, Ghost(keys))
}

} // verus!
