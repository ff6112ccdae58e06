//! The choice of the clusters to search: those whose centroids are nearest.
use std::cmp::Ordering;
use vstd::prelude::*;
use crate::float_bits::order_key;

verus! {

/// How many centroids take part in the choice.
pub const K_CENTROIDS: usize = 8192;

/// The largest number of centroids to probe: all of them.
pub const MAX_NPROBE: usize = 8192;

/// The number by which centroid `i` is ordered, from the bit patterns of the
/// distances.
pub open spec fn distance_order(dists: Seq<u32>, i: u16) -> int {
    crate::float_bits::order(dists[i as int])
}

/// All centroids, in their order in the index.
pub open spec fn all_centroids() -> Seq<u16> {
    Seq::new(K_CENTROIDS as nat, |i: int| i as u16)
}

/// Whether `after` is a reordering of `before` with the element of sort position
/// `nth` in its place: nothing before it is farther, nothing behind it nearer.
pub open spec fn selected(before: Seq<u16>, after: Seq<u16>, dists: Seq<u32>, nth: usize) -> bool {
    &&& after.to_multiset() == before.to_multiset()
    &&& forall|i: int|
        0 <= i < nth ==> distance_order(dists, #[trigger] after[i]) <= distance_order(
            dists,
            after[nth as int],
        )
    &&& forall|i: int|
        nth < i < after.len() ==> distance_order(dists, after[nth as int]) <= distance_order(
            dists,
            #[trigger] after[i],
        )
}

/// Whether `probed` names `nprobe` different centroids such that no other
/// centroid is nearer than one of them.
pub open spec fn is_nearest_choice(dists: Seq<u32>, nprobe: int, probed: Seq<u16>) -> bool {
    &&& probed.len() == nprobe
    &&& probed.no_duplicates()
    &&& forall|i: int| 0 <= i < probed.len() ==> #[trigger] probed[i] < K_CENTROIDS
    &&& forall|i: int, other: u16|
        0 <= i < probed.len() && other < K_CENTROIDS && !probed.contains(other)
            ==> #[trigger] distance_order(dists, probed[i]) <= #[trigger] distance_order(
            dists,
            other,
        )
}

/// How two centroids compare: the nearer one is less.
pub open spec fn comparison(dists: Seq<u32>, a: u16, b: u16) -> Ordering {
    if distance_order(dists, a) < distance_order(dists, b) {
        Ordering::Less
    } else if distance_order(dists, a) == distance_order(dists, b) {
        Ordering::Equal
    } else {
        Ordering::Greater
    }
}

fn distance_key(dists: &Vec<u32>, i: u16) -> (r: i64)
    requires
        i < dists@.len(),
    ensures
        r == distance_order(dists@, i),
{
    order_key(dists[i as usize])
}

/// Which of two centroids is nearer.
pub fn compare_distances(dists: &Vec<u32>, a: u16, b: u16) -> (r: Ordering)
    requires
        a < dists@.len(),
        b < dists@.len(),
    ensures
        match r {
            Ordering::Less => distance_order(dists@, a) < distance_order(dists@, b),
            Ordering::Equal => distance_order(dists@, a) == distance_order(dists@, b),
            Ordering::Greater => distance_order(dists@, a) > distance_order(dists@, b),
        },
        r == comparison(dists@, a, b),
{
    let x: i64 = distance_key(dists, a);
    let y: i64 = distance_key(dists, b);
    if x < y {
        Ordering::Less
    } else if x == y {
        Ordering::Equal
    } else {
        Ordering::Greater
    }
}

/// Calls `select_nth_unstable_by` of std's slices, which reorders the slice so
/// that the element at position `nth` is the one that would be there if the
/// slice were sorted, with no greater element before it and no smaller one
/// behind it. Which of two equal elements comes first is left open.
#[verifier::external_body]
fn select_nth(indices: &mut Vec<u16>, dists: &Vec<u32>, nth: usize)
    requires
        nth < old(indices)@.len(),
        forall|i: int| 0 <= i < old(indices)@.len() ==> #[trigger] old(indices)@[i] < dists@.len(),
    ensures
        selected(old(indices)@, final(indices)@, dists@, nth),
{
    indices.select_nth_unstable_by(nth, |a, b| compare_distances(dists, *a, *b));
}

/// The centroids to probe: `nprobe` of them, none farther than one left out. In
/// which order they come, and which of several at the same distance are taken,
/// is not fixed. Distances are bit patterns of numbers.
pub fn nearest_centroids(dists: &Vec<u32>, nprobe: usize) -> (probed: Vec<u16>)
    requires
        dists@.len() == K_CENTROIDS,
        1 <= nprobe <= K_CENTROIDS,
        forall|i: int| 0 <= i < dists@.len() ==> !crate::float_bits::is_nan(#[trigger] dists@[i]),
    ensures
        is_nearest_choice(dists@, nprobe as int, probed@),
{
    let mut indices: Vec<u16> = Vec::new();
    let mut i: usize = 0;
    while i < K_CENTROIDS
        invariant
            i <= K_CENTROIDS,
            indices@ == all_centroids().take(i as int),
        decreases K_CENTROIDS - i,
    {
        indices.push(i as u16);
        i += 1;
        assert(indices@ =~= all_centroids().take(i as int));
    }
    let ghost before = indices@;
    assert(before =~= all_centroids());
    select_nth(&mut indices, dists, nprobe - 1);
    let ghost after = indices@;
    indices.truncate(nprobe);
    proof {
        lemma_reordered(before, after);
        let probed = indices@;
        assert forall|i: int, other: u16|
            0 <= i < probed.len() && other < K_CENTROIDS && !probed.contains(
                other,
            ) implies #[trigger] distance_order(dists@, probed[i]) <= #[trigger] distance_order(
            dists@,
            other,
        ) by {
            assert(before[other as int] == other);
            assert(after.contains(other));
            let j = choose|j: int| 0 <= j < after.len() && after[j] == other;
            if j < nprobe {
                assert(probed[j] == other);
            }
            assert(probed[i] == after[i]);
            assert(after[j] == other);
        }
        assert forall|i: int| 0 <= i < probed.len() implies #[trigger] probed[i]
            < K_CENTROIDS by {
            assert(after.contains(after[i]));
            let j = choose|j: int| 0 <= j < before.len() && before[j] == after[i];
        }
    }
    indices
}

proof fn lemma_reordered(before: Seq<u16>, after: Seq<u16>)
    requires
        before == all_centroids(),
        after.to_multiset() == before.to_multiset(),
    ensures
        after.len() == before.len(),
        after.no_duplicates(),
        forall|c: u16| after.contains(c) <==> before.contains(c),
{
    broadcast use vstd::seq_lib::group_to_multiset_ensures;

    assert(after.len() == after.to_multiset().len());
    assert(before.len() == before.to_multiset().len());
    before.lemma_multiset_has_no_duplicates();
    after.lemma_multiset_has_no_duplicates_conv();
    assert forall|c: u16| after.contains(c) <==> before.contains(c) by {
        assert(after.contains(c) <==> after.to_multiset().count(c) > 0);
        assert(before.contains(c) <==> before.to_multiset().count(c) > 0);
    }
}

/// The centroids that are strictly nearer than centroid `c`.
pub open spec fn nearer_centroids(dists: Seq<u32>, c: u16) -> Set<u16> {
    Set::new(
        |other: u16|
            other < K_CENTROIDS && distance_order(dists, other) < distance_order(dists, c),
    )
}

/// A centroid with as many strictly nearer ones as are probed is not probed.
pub proof fn far_centroid_is_not_probed(dists: Seq<u32>, nprobe: int, probed: Seq<u16>, c: u16)
    requires
        is_nearest_choice(dists, nprobe, probed),
        nearer_centroids(dists, c).len() >= nprobe,
    ensures
        !probed.contains(c),
{
    if probed.contains(c) {
        let nearer = nearer_centroids(dists, c);
        let rest = probed.to_set().remove(c);
        let i = choose|i: int| 0 <= i < probed.len() && probed[i] == c;
        probed.unique_seq_to_set();
        assert(nearer.subset_of(rest)) by {
            assert forall|other: u16| nearer.contains(other) implies rest.contains(other) by {
                if !probed.contains(other) {
                    assert(distance_order(dists, probed[i]) <= distance_order(dists, other));
                }
            }
        }
        vstd::set_lib::lemma_len_subset(nearer, rest);
    }
}

/// Probing as many centroids as there are leaves none out.
pub proof fn full_probe_reaches_every_centroid(dists: Seq<u32>, probed: Seq<u16>, c: u16)
    requires
        is_nearest_choice(dists, K_CENTROIDS as int, probed),
        c < K_CENTROIDS,
    ensures
        probed.contains(c),
{
    let wide = probed.map_values(|x: u16| x as int);
    let all = vstd::set_lib::set_int_range(0, K_CENTROIDS as int);
    assert(wide.no_duplicates()) by {
        assert forall|i: int, j: int|
            0 <= i < wide.len() && 0 <= j < wide.len() && i != j implies wide[i] != wide[j] by {
            assert(probed[i] != probed[j]);
        }
    }
    wide.unique_seq_to_set();
    vstd::set_lib::lemma_int_range(0, K_CENTROIDS as int);
    assert(wide.to_set().subset_of(all)) by {
        assert forall|x: int| wide.to_set().contains(x) implies all.contains(x) by {
            let i = choose|i: int| 0 <= i < wide.len() && wide[i] == x;
            assert(probed[i] < K_CENTROIDS);
        }
    }
    vstd::set_lib::lemma_subset_equality(wide.to_set(), all);
    assert(wide.to_set().contains(c as int));
    let i = choose|i: int| 0 <= i < wide.len() && wide[i] == c as int;
    assert(probed[i] == c);
}

/// A choice is right if and only if it names as many centroids as asked for, no one
/// twice, and none of those left out has a smaller distance than one of it.
pub proof fn nearest_choice_by_distances(dists: Seq<u32>, nprobe: int, probed: Seq<u16>)
    ensures
        is_nearest_choice(dists, nprobe, probed) <==> {
            &&& probed.len() == nprobe
            &&& forall|i: int, j: int|
                #![trigger probed[i], probed[j]]
                0 <= i < j < probed.len() ==> probed[i] != probed[j]
            &&& forall|i: int| 0 <= i < probed.len() ==> #[trigger] probed[i] < 8192
            &&& forall|i: int, other: u16|
                #![trigger probed[i], dists[other as int]]
                0 <= i < probed.len() && other < 8192 && !probed.contains(other)
                    ==> crate::float_bits::order(dists[probed[i] as int])
                    <= crate::float_bits::order(dists[other as int])
        },
{
    if is_nearest_choice(dists, nprobe, probed) {
        assert forall|i: int, other: u16|
            #![trigger probed[i], dists[other as int]]
            0 <= i < probed.len() && other < 8192 && !probed.contains(
                other,
            ) implies crate::float_bits::order(dists[probed[i] as int])
            <= crate::float_bits::order(dists[other as int]) by {
            assert(distance_order(dists, probed[i]) <= distance_order(dists, other));
        }
    }
    if forall|i: int, other: u16|
        #![trigger probed[i], dists[other as int]]
        0 <= i < probed.len() && other < 8192 && !probed.contains(other)
            ==> crate::float_bits::order(dists[probed[i] as int]) <= crate::float_bits::order(
            dists[other as int],
        ) {
        assert forall|i: int, other: u16|
            0 <= i < probed.len() && other < K_CENTROIDS && !probed.contains(
                other,
            ) implies #[trigger] distance_order(dists, probed[i]) <= #[trigger] distance_order(
            dists,
            other,
        ) by {
            assert(crate::float_bits::order(dists[probed[i] as int]) <= crate::float_bits::order(
                dists[other as int],
            ));
        }
    }
}

/// Centroids are compared as the numbers that their distances stand for.
pub proof fn centroids_compare_as_their_distances(dists: Seq<u32>, a: u16, b: u16)
    requires
        !crate::float_bits::is_nan(dists[a as int]),
        !crate::float_bits::is_nan(dists[b as int]),
    ensures
        distance_order(dists, a) < distance_order(dists, b)
            <==> crate::float_bits::value_in_units(dists[a as int])
            < crate::float_bits::value_in_units(dists[b as int]),
        distance_order(dists, a) == distance_order(dists, b)
            <==> crate::float_bits::value_in_units(dists[a as int])
            == crate::float_bits::value_in_units(dists[b as int]),
{
    crate::float_bits::order_is_that_of_the_numbers(dists[a as int], dists[b as int]);
}

/// A centroid is less than another if its distance is smaller, and equal if the
/// distances are. The other way round the comparison is turned, and what is less
/// than a lesser one is less.
pub proof fn comparison_is_an_order(dists: Seq<u32>, a: u16, b: u16, c: u16)
    ensures
        comparison(dists, a, b) == Ordering::Less <==> distance_order(dists, a) < distance_order(
            dists,
            b,
        ),
        comparison(dists, a, b) == Ordering::Equal <==> distance_order(dists, a) == distance_order(
            dists,
            b,
        ),
        comparison(dists, a, b) == Ordering::Less <==> comparison(dists, b, a)
            == Ordering::Greater,
        comparison(dists, a, b) == Ordering::Less && comparison(dists, b, c) == Ordering::Less
            ==> comparison(dists, a, c) == Ordering::Less,
{
}

} // verus!
