//! Fixed-length lists of the nearest entries of a stream.
//!
//! An entry is a key (a distance) with an item. A list of length `k` holds the
//! `k` entries with the smallest keys below a limit, in increasing order of key
//! and, among equal keys, in the order in which they came. Slots for which the
//! stream has no entry hold a padding entry whose key is the limit.
use vstd::prelude::*;

verus! {

/// How many entries of `s` come before the point `(key, pos)`: those with a
/// smaller key, and those with this key at a position before `pos`.
pub open spec fn ahead<T>(s: Seq<(i64, T)>, key: i64, pos: int) -> nat
    decreases s.len(),
{
    if s.len() == 0 {
        0
    } else {
        ahead(s.drop_last(), key, pos) + if comes_before(s.last().0, s.len() - 1, key, pos) {
            1nat
        } else {
            0nat
        }
    }
}

/// The order of entries: by key, then by position in the stream.
pub open spec fn comes_before(key1: i64, pos1: int, key2: i64, pos2: int) -> bool {
    key1 < key2 || (key1 == key2 && pos1 < pos2)
}

/// The place of the entry at position `i` once all entries are in order.
pub open spec fn rank<T>(s: Seq<(i64, T)>, i: int) -> nat {
    ahead(s, s[i].0, i)
}

/// How many entries of `s` have a key below the limit.
pub open spec fn accepted<T>(s: Seq<(i64, T)>, limit: i64) -> nat {
    ahead(s, limit, 0)
}

/// The position of the entry whose rank is `t`.
pub open spec fn place<T>(s: Seq<(i64, T)>, t: int) -> int {
    choose|i: int| 0 <= i < s.len() && #[trigger] rank(s, i) == t
}

/// The list of length `k` for the stream `s`: slot `t` holds the entry of rank
/// `t`, and the padding entry where fewer than `t + 1` keys are below the limit.
pub open spec fn nearest<T>(s: Seq<(i64, T)>, limit: i64, pad: T, k: nat) -> Seq<(i64, T)> {
    Seq::new(
        k,
        |t: int|
            if t < accepted(s, limit) {
                s[place(s, t)]
            } else {
                (limit, pad)
            },
    )
}

/// Keys never decrease along the list.
pub open spec fn sorted_by_key<T>(r: Seq<(i64, T)>) -> bool {
    forall|a: int, b: int| 0 <= a <= b < r.len() ==> (#[trigger] r[a]).0 <= (#[trigger] r[b]).0
}

/// What a full list becomes when it is offered one more entry: the entry goes
/// behind every entry with the same or a smaller key, and the last one leaves.
pub open spec fn offered<T>(r: Seq<(i64, T)>, entry: (i64, T)) -> Seq<(i64, T)> {
    if entry.0 < r.last().0 {
        r.drop_last().insert(ahead(r, entry.0, r.len() as int) as int, entry)
    } else {
        r
    }
}

proof fn lemma_ahead_monotone<T>(s: Seq<(i64, T)>, key1: i64, pos1: int, key2: i64, pos2: int)
    requires
        key1 < key2 || (key1 == key2 && pos1 <= pos2),
    ensures
        ahead(s, key1, pos1) <= ahead(s, key2, pos2),
    decreases s.len(),
{
    if s.len() > 0 {
        lemma_ahead_monotone(s.drop_last(), key1, pos1, key2, pos2);
    }
}

proof fn lemma_rank_below<T>(s: Seq<(i64, T)>, i: int, key: i64, pos: int)
    requires
        0 <= i < s.len(),
        comes_before(s[i].0, i, key, pos),
    ensures
        rank(s, i) < ahead(s, key, pos),
    decreases s.len(),
{
    let init = s.drop_last();
    if i == s.len() - 1 {
        lemma_ahead_monotone(init, s[i].0, i, key, pos);
    } else {
        assert(init[i] == s[i]);
        lemma_rank_below(init, i, key, pos);
    }
}

proof fn lemma_rank_at_least<T>(s: Seq<(i64, T)>, i: int, key: i64, pos: int)
    requires
        0 <= i < s.len(),
        !comes_before(s[i].0, i, key, pos),
    ensures
        ahead(s, key, pos) <= rank(s, i),
{
    lemma_ahead_monotone(s, key, pos, s[i].0, i);
}

/// No two entries have the same rank.
pub proof fn ranks_are_distinct<T>(s: Seq<(i64, T)>, i: int, j: int)
    requires
        0 <= i < s.len(),
        0 <= j < s.len(),
        rank(s, i) == rank(s, j),
    ensures
        i == j,
{
    if i != j {
        if comes_before(s[i].0, i, s[j].0, j) {
            lemma_rank_below(s, i, s[j].0, j);
        } else {
            lemma_rank_below(s, j, s[i].0, i);
        }
    }
}

proof fn lemma_ahead_push<T>(s: Seq<(i64, T)>, entry: (i64, T), key: i64, pos: int)
    ensures
        ahead(s.push(entry), key, pos) == ahead(s, key, pos) + if comes_before(
            entry.0,
            s.len() as int,
            key,
            pos,
        ) {
            1nat
        } else {
            0nat
        },
{
    assert(s.push(entry).drop_last() =~= s);
}

/// Every rank up to the number of accepted entries is taken.
proof fn lemma_rank_taken<T>(s: Seq<(i64, T)>, limit: i64, t: int)
    requires
        0 <= t < accepted(s, limit),
    ensures
        exists|i: int| 0 <= i < s.len() && s[i].0 < limit && #[trigger] rank(s, i) == t,
    decreases s.len(),
{
    let init = s.drop_last();
    let entry = s.last();
    let n = init.len() as int;
    assert(init.push(entry) =~= s);
    lemma_ahead_push(init, entry, limit, 0);
    let turn = ahead(init, entry.0, n);
    lemma_ahead_push(init, entry, entry.0, n);
    if entry.0 < limit && t == turn {
        assert(rank(s, n) == t);
    } else {
        let u = if entry.0 < limit && t > turn {
            t - 1
        } else {
            t
        };
        if entry.0 < limit {
            lemma_ahead_monotone(init, entry.0, n, limit, 0);
        }
        lemma_rank_taken(init, limit, u);
        let i = choose|i: int|
            0 <= i < init.len() && init[i].0 < limit && #[trigger] rank(init, i) == u;
        lemma_ahead_push(init, entry, s[i].0, i);
        if comes_before(init[i].0, i, entry.0, n) {
            lemma_rank_below(init, i, entry.0, n);
        } else {
            lemma_rank_at_least(init, i, entry.0, n);
        }
        assert(s[i] == init[i]);
        assert(rank(s, i) == t);
    }
}

/// The entry of an accepted rank is where `place` says, and nowhere else.
proof fn lemma_place<T>(s: Seq<(i64, T)>, limit: i64, t: int)
    requires
        0 <= t < accepted(s, limit),
    ensures
        0 <= place(s, t) < s.len(),
        rank(s, place(s, t)) == t,
        s[place(s, t)].0 < limit,
{
    lemma_rank_taken(s, limit, t);
    let i = choose|i: int| 0 <= i < s.len() && s[i].0 < limit && #[trigger] rank(s, i) == t;
    ranks_are_distinct(s, i, place(s, t));
}

/// Each entry below the limit whose rank is below the length stands in the
/// slot of its rank.
pub proof fn entry_stands_at_its_rank<T>(s: Seq<(i64, T)>, limit: i64, pad: T, k: nat, i: int)
    requires
        0 <= i < s.len(),
        s[i].0 < limit,
        rank(s, i) < k,
    ensures
        rank(s, i) < accepted(s, limit),
        nearest(s, limit, pad, k)[rank(s, i) as int] == s[i],
{
    lemma_rank_below(s, i, limit, 0);
    lemma_place(s, limit, rank(s, i) as int);
    ranks_are_distinct(s, i, place(s, rank(s, i) as int));
}

/// A list is sorted by key, and its padding, if any, is at its end: the slots
/// with a key below the limit are exactly the first ones.
pub proof fn nearest_is_sorted<T>(s: Seq<(i64, T)>, limit: i64, pad: T, k: nat)
    ensures
        sorted_by_key(nearest(s, limit, pad, k)),
        forall|t: int|
            0 <= t < k ==> (t < accepted(s, limit) <==> (#[trigger] nearest(
                s,
                limit,
                pad,
                k,
            )[t]).0 < limit),
{
    let r = nearest(s, limit, pad, k);
    assert forall|t: int| 0 <= t < k implies (t < accepted(s, limit) <==> (#[trigger] r[t]).0
        < limit) by {
        if t < accepted(s, limit) {
            lemma_place(s, limit, t);
        }
    }
    assert forall|a: int, b: int| 0 <= a <= b < r.len() implies (#[trigger] r[a]).0 <= (
    #[trigger] r[b]).0 by {
        if b < accepted(s, limit) {
            lemma_place(s, limit, a);
            lemma_place(s, limit, b);
            let i = place(s, a);
            let j = place(s, b);
            if s[j].0 < s[i].0 {
                lemma_rank_below(s, j, s[i].0, i);
            }
        }
    }
}

proof fn lemma_ahead_prefix<T>(r: Seq<(i64, T)>, limit: i64, p: int)
    requires
        0 <= p <= r.len(),
        forall|t: int| 0 <= t < r.len() ==> (t < p <==> (#[trigger] r[t]).0 < limit),
    ensures
        ahead(r, limit, 0) == p,
    decreases r.len(),
{
    if r.len() > 0 {
        let init = r.drop_last();
        assert(forall|t: int| 0 <= t < init.len() ==> init[t] == r[t]);
        assert(r.last() == r[r.len() - 1]);
        lemma_ahead_prefix(
            init,
            limit,
            if p == r.len() {
                p - 1
            } else {
                p
            },
        );
    }
}

/// As many slots are filled as there are accepted entries, up to the length.
pub proof fn filled_slots<T>(s: Seq<(i64, T)>, limit: i64, pad: T, k: nat)
    ensures
        accepted(nearest(s, limit, pad, k), limit) == if accepted(s, limit) < k {
            accepted(s, limit)
        } else {
            k
        },
{
    nearest_is_sorted(s, limit, pad, k);
    lemma_ahead_prefix(
        nearest(s, limit, pad, k),
        limit,
        if accepted(s, limit) < k {
            accepted(s, limit) as int
        } else {
            k as int
        },
    );
}

/// A filled slot holds an entry of the stream.
pub proof fn filled_slot_is_of_the_stream<T>(s: Seq<(i64, T)>, limit: i64, pad: T, k: nat, t: int)
    requires
        0 <= t < k,
        t < accepted(s, limit),
    ensures
        s.contains(nearest(s, limit, pad, k)[t]),
        nearest(s, limit, pad, k)[t].0 < limit,
{
    lemma_place(s, limit, t);
}

/// If every key is below the limit, every entry is accepted.
pub proof fn all_below_the_limit_are_accepted<T>(s: Seq<(i64, T)>, limit: i64)
    requires
        forall|i: int| 0 <= i < s.len() ==> (#[trigger] s[i]).0 < limit,
    ensures
        accepted(s, limit) == s.len(),
{
    lemma_ahead_prefix(s, limit, s.len() as int);
}

/// Below a bound two streams one behind the other have as many keys as both
/// together.
pub proof fn keys_below_add_up<T>(s1: Seq<(i64, T)>, s2: Seq<(i64, T)>, bound: i64)
    ensures
        ahead(s1 + s2, bound, 0) == ahead(s1, bound, 0) + ahead(s2, bound, 0),
    decreases s2.len(),
{
    if s2.len() == 0 {
        assert(s1 + s2 =~= s1);
    } else {
        keys_below_add_up(s1, s2.drop_last(), bound);
        assert((s1 + s2).drop_last() =~= s1 + s2.drop_last());
        assert((s1 + s2).last() == s2.last());
    }
}

/// An entry that a full list leaves out is no nearer than any entry of the list.
pub proof fn left_out_is_no_nearer<T>(
    s: Seq<(i64, T)>,
    limit: i64,
    pad: T,
    k: nat,
    i: int,
    t: int,
)
    requires
        0 <= i < s.len(),
        rank(s, i) >= k,
        0 <= t < k,
        s[i].0 < limit,
    ensures
        nearest(s, limit, pad, k)[t].0 <= s[i].0,
{
    lemma_rank_below(s, i, limit, 0);
    lemma_place(s, limit, t);
    let j = place(s, t);
    if s[i].0 < s[j].0 {
        lemma_rank_below(s, i, s[j].0, j);
    }
}

proof fn lemma_ahead_at_split<T>(r: Seq<(i64, T)>, key: i64, p: int)
    requires
        0 <= p <= r.len(),
        forall|t: int| 0 <= t < p ==> (#[trigger] r[t]).0 <= key,
        forall|t: int| p <= t < r.len() ==> (#[trigger] r[t]).0 > key,
    ensures
        ahead(r, key, r.len() as int) == p,
{
    lemma_ahead_split(r, key, r.len() as int, p);
}

proof fn lemma_ahead_split<T>(r: Seq<(i64, T)>, key: i64, pos: int, p: int)
    requires
        0 <= p <= r.len() <= pos,
        forall|t: int| 0 <= t < p ==> (#[trigger] r[t]).0 <= key,
        forall|t: int| p <= t < r.len() ==> (#[trigger] r[t]).0 > key,
    ensures
        ahead(r, key, pos) == p,
    decreases r.len(),
{
    if r.len() > 0 {
        let init = r.drop_last();
        assert(forall|t: int| 0 <= t < init.len() ==> init[t] == r[t]);
        assert(r.last() == r[r.len() - 1]);
        if p == r.len() {
            lemma_ahead_split(init, key, pos, p - 1);
        } else {
            lemma_ahead_split(init, key, pos, p);
        }
    }
}

/// Offering the list of a stream the next entry gives the list of the longer
/// stream.
pub proof fn offering_extends_the_stream<T>(
    s: Seq<(i64, T)>,
    limit: i64,
    pad: T,
    k: nat,
    entry: (i64, T),
)
    requires
        k > 0,
    ensures
        nearest(s.push(entry), limit, pad, k) == offered(nearest(s, limit, pad, k), entry),
{
    let r = nearest(s, limit, pad, k);
    let longer = s.push(entry);
    let after = nearest(longer, limit, pad, k);
    let n = s.len() as int;
    let turn = ahead(s, entry.0, n) as int;
    nearest_is_sorted(s, limit, pad, k);
    nearest_is_sorted(longer, limit, pad, k);
    lemma_ahead_push(s, entry, limit, 0);
    lemma_ahead_push(s, entry, entry.0, n);
    assert(longer[n] == entry);
    assert(rank(longer, n) == turn);
    assert(r.last() == r[k - 1]);

    // Where an accepted entry of the shorter stream stands, against the new one.
    assert forall|t: int| 0 <= t < accepted(s, limit) implies {
        let i = #[trigger] place(s, t);
        &&& 0 <= i < n
        &&& s[i].0 < limit
        &&& (t < turn <==> s[i].0 <= entry.0)
        &&& rank(longer, i) == (if t < turn {
            t
        } else {
            t + 1
        })
    } by {
        lemma_place(s, limit, t);
        let i = place(s, t);
        lemma_ahead_push(s, entry, s[i].0, i);
        assert(longer[i] == s[i]);
        if comes_before(s[i].0, i, entry.0, n) {
            lemma_rank_below(s, i, entry.0, n);
        } else {
            lemma_rank_at_least(s, i, entry.0, n);
        }
    }

    if entry.0 < limit {
        lemma_ahead_monotone(s, entry.0, n, limit, 0);
    }
    if entry.0 < r.last().0 {
        if turn >= k {
            assert(place(s, k - 1) == place(s, k - 1));
            assert(false);
        }
        if k <= accepted(s, limit) {
            lemma_place(s, limit, k - 1);
        }
        assert(entry.0 < limit);
        assert forall|t: int| 0 <= t < turn implies (#[trigger] r[t]).0 <= entry.0 by {
            assert(0 <= place(s, t) < n);
        }
        assert forall|t: int| turn <= t < r.len() implies (#[trigger] r[t]).0 > entry.0 by {
            if t < accepted(s, limit) {
                assert(0 <= place(s, t) < n);
            }
        }
        lemma_ahead_at_split(r, entry.0, turn);
        let inserted = r.drop_last().insert(turn, entry);
        assert forall|t: int| 0 <= t < k implies #[trigger] after[t] == inserted[t] by {
            if t < turn {
                let i = place(s, t);
                assert(rank(longer, i) == t);
                entry_stands_at_its_rank(longer, limit, pad, k, i);
            } else if t == turn {
                entry_stands_at_its_rank(longer, limit, pad, k, n);
            } else if t - 1 < accepted(s, limit) {
                let i = place(s, t - 1);
                assert(rank(longer, i) == t);
                entry_stands_at_its_rank(longer, limit, pad, k, i);
            }
        }
        assert(after =~= inserted);
    } else {
        // The new entry is refused, or its rank is past the end.
        assert(entry.0 < limit ==> k <= accepted(s, limit) && turn >= k) by {
            if entry.0 < limit {
                assert(0 <= place(s, k - 1) < n);
            }
        }
        assert forall|t: int| 0 <= t < k implies #[trigger] after[t] == r[t] by {
            if t < accepted(s, limit) {
                let i = place(s, t);
                if turn <= t {
                    assert(s[i].0 > entry.0);
                }
                assert(rank(longer, i) == t);
                entry_stands_at_its_rank(longer, limit, pad, k, i);
            }
        }
        assert(after =~= r);
    }
}

/// The count of entries before a point is the number of their positions.
pub proof fn ahead_counts_positions<T>(s: Seq<(i64, T)>, key: i64, pos: int)
    ensures
        ahead(s, key, pos) == Set::new(
            |i: int| 0 <= i < s.len() && (s[i].0 < key || (s[i].0 == key && i < pos)),
        ).len(),
    decreases s.len(),
{
    let p = |i: int, e: (i64, T)| e.0 < key || (e.0 == key && i < pos);
    crate::counting::positions_step(s, p);
    assert(crate::counting::positions(s, p) =~= Set::new(
        |i: int| 0 <= i < s.len() && (s[i].0 < key || (s[i].0 == key && i < pos)),
    ));
    if s.len() > 0 {
        let init = s.drop_last();
        ahead_counts_positions(init, key, pos);
        assert(crate::counting::positions(init, p) =~= Set::new(
            |i: int| 0 <= i < init.len() && (init[i].0 < key || (init[i].0 == key && i < pos)),
        ));
    }
}

/// As many entries are accepted as there are positions with a key below the limit.
pub proof fn accepted_counts_positions<T>(s: Seq<(i64, T)>, limit: i64)
    ensures
        accepted(s, limit) == Set::new(|i: int| 0 <= i < s.len() && s[i].0 < limit).len(),
{
    ahead_counts_positions(s, limit, 0);
    assert(Set::new(|i: int| 0 <= i < s.len() && s[i].0 < limit) =~= Set::new(
        |i: int| 0 <= i < s.len() && (s[i].0 < limit || (s[i].0 == limit && i < 0)),
    ));
}

/// A list has its length, and an entry below the limit stands in the slot whose
/// number is how many entries are nearer, or as near and earlier in the stream.
pub proof fn slot_is_how_many_are_nearer<T>(s: Seq<(i64, T)>, limit: i64, pad: T, k: nat, i: int)
    requires
        0 <= i < s.len(),
        s[i].0 < limit,
    ensures
        nearest(s, limit, pad, k).len() == k,
        ({
            let nearer = Set::new(
                |j: int| 0 <= j < s.len() && (s[j].0 < s[i].0 || (s[j].0 == s[i].0 && j < i)),
            );
            nearer.len() < k ==> nearest(s, limit, pad, k)[nearer.len() as int] == s[i]
        }),
{
    let key = s[i].0;
    ahead_counts_positions(s, key, i);
    assert(Set::new(
        |j: int| 0 <= j < s.len() && (s[j].0 < s[i].0 || (s[j].0 == s[i].0 && j < i)),
    ) =~= Set::new(|j: int| 0 <= j < s.len() && (s[j].0 < key || (s[j].0 == key && j < i))));
    if rank(s, i) < k {
        entry_stands_at_its_rank(s, limit, pad, k, i);
    }
}

/// Slots from the number of keys below the limit on hold the limit and the padding.
pub proof fn slots_past_the_accepted_are_padding<T>(
    s: Seq<(i64, T)>,
    limit: i64,
    pad: T,
    k: nat,
    t: int,
)
    requires
        Set::new(|i: int| 0 <= i < s.len() && s[i].0 < limit).len() <= t < k,
    ensures
        nearest(s, limit, pad, k)[t] == (limit, pad),
{
    accepted_counts_positions(s, limit);
}

/// The filled slots are in order: of two, the first has the smaller key, or the
/// same key and the earlier position; and no two hold the same position.
pub proof fn filled_slots_are_in_order<T>(
    s: Seq<(i64, T)>,
    limit: i64,
    pad: T,
    k: nat,
    t1: int,
    t2: int,
)
    requires
        0 <= t1 < t2 < k,
        t2 < Set::new(|i: int| 0 <= i < s.len() && s[i].0 < limit).len(),
    ensures
        exists|i: int, j: int|
            #![trigger s[i], s[j]]
            0 <= i < s.len() && 0 <= j < s.len() && nearest(s, limit, pad, k)[t1] == s[i]
                && nearest(s, limit, pad, k)[t2] == s[j] && (s[i].0 < s[j].0 || (s[i].0 == s[j].0
                && i < j)),
{
    accepted_counts_positions(s, limit);
    lemma_place(s, limit, t1);
    lemma_place(s, limit, t2);
    let i = place(s, t1);
    let j = place(s, t2);
    if !(s[i].0 < s[j].0 || (s[i].0 == s[j].0 && i < j)) {
        lemma_rank_at_least(s, i, s[j].0, j);
    }
    assert(nearest(s, limit, pad, k)[t1] == s[i]);
    assert(nearest(s, limit, pad, k)[t2] == s[j]);
}

/// The positions of the entries that are nearer than entry `i`, or as near and
/// earlier in the stream.
pub open spec fn nearer_positions<T>(s: Seq<(i64, T)>, i: int) -> Set<int> {
    Set::new(|j: int| 0 <= j < s.len() && (s[j].0 < s[i].0 || (s[j].0 == s[i].0 && j < i)))
}

proof fn lemma_rank_is_nearer_positions<T>(s: Seq<(i64, T)>, i: int)
    ensures
        rank(s, i) == nearer_positions(s, i).len(),
{
    let key = s[i].0;
    ahead_counts_positions(s, key, i);
    assert(nearer_positions(s, i) =~= Set::new(
        |j: int| 0 <= j < s.len() && (s[j].0 < key || (s[j].0 == key && j < i)),
    ));
}

/// A list of length `k` keeps an entry if and only if its key is below the limit and
/// fewer than `k` others are nearer: of the kept entries, as many have a property,
/// which the padding lacks, as there are such positions in the stream.
pub proof fn kept_entries_are_those_with_few_nearer<T>(
    s: Seq<(i64, T)>,
    limit: i64,
    pad: T,
    k: nat,
    p: spec_fn(T) -> bool,
)
    requires
        !p(pad),
    ensures
        Set::new(|t: int| 0 <= t < k && p(nearest(s, limit, pad, k)[t].1)).len() == Set::new(
            |i: int|
                0 <= i < s.len() && s[i].0 < limit && p(s[i].1) && nearer_positions(s, i).len() < k,
        ).len(),
{
    let r = nearest(s, limit, pad, k);
    let slots = Set::new(|t: int| 0 <= t < k && p(r[t].1));
    let kept = Set::new(
        |i: int|
            0 <= i < s.len() && s[i].0 < limit && p(s[i].1) && nearer_positions(s, i).len() < k,
    );
    let f = |i: int| rank(s, i) as int;
    let q = |i: int, e: (i64, T)|
        s[i].0 < limit && p(s[i].1) && nearer_positions(s, i).len() < k;
    crate::counting::positions_step(s, q);
    assert(kept =~= crate::counting::positions(s, q));
    assert forall|i: int, j: int| kept.contains(i) && kept.contains(j) && f(i) == f(j) implies i
        == j by {
        ranks_are_distinct(s, i, j);
    }
    assert(vstd::relations::injective_on(f, kept));
    assert forall|t: int| slots.contains(t) implies #[trigger] kept.map(f).contains(t) by {
        assert(t < accepted(s, limit));
        lemma_place(s, limit, t);
        let i = place(s, t);
        lemma_rank_is_nearer_positions(s, i);
        assert(kept.contains(i) && f(i) == t);
    }
    assert forall|t: int| #[trigger] kept.map(f).contains(t) implies slots.contains(t) by {
        let i = choose|i: int| kept.contains(i) && f(i) == t;
        lemma_rank_is_nearer_positions(s, i);
        entry_stands_at_its_rank(s, limit, pad, k, i);
    }
    assert(kept.map(f) =~= slots);
    vstd::set_lib::lemma_map_size(kept, slots, f);
    assert(Set::new(|t: int| 0 <= t < k && p(nearest(s, limit, pad, k)[t].1)) =~= slots);
}

/// An entry that is offered to a sorted list goes behind those that are no farther.
/// Those that are farther move back by one slot, and the last falls off.
pub proof fn offered_entry_goes_before_the_farther<T>(
    r: Seq<(i64, T)>,
    entry: (i64, T),
    t: int,
)
    requires
        sorted_by_key(r),
        0 <= t < r.len(),
    ensures
        offered(r, entry).len() == r.len(),
        r[t].0 <= entry.0 ==> offered(r, entry)[t] == r[t],
        r[t].0 > entry.0 && (t == 0 || r[t - 1].0 <= entry.0) ==> offered(r, entry)[t] == entry,
        t > 0 && r[t - 1].0 > entry.0 ==> offered(r, entry)[t] == r[t - 1],
{
    lemma_split_point(r, entry.0);
    let last = r.len() - 1;
    assert(r[t].0 <= r[last].0);
    if t > 0 {
        assert(r[t - 1].0 <= r[last].0);
    }
}

/// A longer stream only brings nearer entries: no slot gets a larger key.
pub proof fn longer_stream_is_no_farther<T>(
    s: Seq<(i64, T)>,
    limit: i64,
    pad: T,
    k: nat,
    entry: (i64, T),
    t: int,
)
    requires
        0 <= t < k,
    ensures
        nearest(s.push(entry), limit, pad, k)[t].0 <= nearest(s, limit, pad, k)[t].0,
{
    let r = nearest(s, limit, pad, k);
    nearest_is_sorted(s, limit, pad, k);
    nearest_is_sorted(s.push(entry), limit, pad, k);
    offering_extends_the_stream(s, limit, pad, k, entry);
    assert(r.last() == r[k - 1]);
    if entry.0 < r.last().0 {
        let p = ahead(r, entry.0, k as int) as int;
        lemma_split_point(r, entry.0);
        if t < p {
            assert(offered(r, entry)[t] == r[t]);
        } else if t == p {
            assert(offered(r, entry)[t] == entry);
        } else {
            assert(offered(r, entry)[t] == r[t - 1]);
        }
    }
}

proof fn lemma_split_point<T>(r: Seq<(i64, T)>, key: i64)
    requires
        sorted_by_key(r),
    ensures
        ({
            let p = ahead(r, key, r.len() as int) as int;
            &&& p <= r.len()
            &&& forall|t: int| 0 <= t < p ==> (#[trigger] r[t]).0 <= key
            &&& forall|t: int| p <= t < r.len() ==> (#[trigger] r[t]).0 > key
        }),
{
    let p = lemma_find_split(r, key, r.len() as int);
    lemma_ahead_at_split(r, key, p);
}

proof fn lemma_find_split<T>(r: Seq<(i64, T)>, key: i64, n: int) -> (p: int)
    requires
        sorted_by_key(r),
        0 <= n <= r.len(),
        forall|t: int| n <= t < r.len() ==> (#[trigger] r[t]).0 > key,
    ensures
        0 <= p <= r.len(),
        forall|t: int| 0 <= t < p ==> (#[trigger] r[t]).0 <= key,
        forall|t: int| p <= t < r.len() ==> (#[trigger] r[t]).0 > key,
    decreases n,
{
    if n > 0 && r[n - 1].0 > key {
        lemma_find_split(r, key, n - 1)
    } else {
        n
    }
}

/// Whether two streams hold the same keys, each as often, in any order: below
/// each bound they have as many.
pub open spec fn same_keys<T>(s1: Seq<(i64, T)>, s2: Seq<(i64, T)>) -> bool {
    forall|bound: i64| #[trigger] ahead(s1, bound, 0) == ahead(s2, bound, 0)
}

/// The keys of a list do not depend on the order of the stream.
pub proof fn keys_do_not_depend_on_order<T>(
    s1: Seq<(i64, T)>,
    s2: Seq<(i64, T)>,
    limit: i64,
    pad: T,
    k: nat,
    t: int,
)
    requires
        same_keys(s1, s2),
        0 <= t < k,
    ensures
        nearest(s1, limit, pad, k)[t].0 == nearest(s2, limit, pad, k)[t].0,
{
    lemma_slot_no_farther(s1, s2, limit, pad, k, t);
    lemma_slot_no_farther(s2, s1, limit, pad, k, t);
}

proof fn lemma_slot_no_farther<T>(
    s1: Seq<(i64, T)>,
    s2: Seq<(i64, T)>,
    limit: i64,
    pad: T,
    k: nat,
    t: int,
)
    requires
        same_keys(s1, s2),
        0 <= t < k,
    ensures
        nearest(s2, limit, pad, k)[t].0 <= nearest(s1, limit, pad, k)[t].0,
{
    let x = nearest(s1, limit, pad, k)[t].0;
    let y = nearest(s2, limit, pad, k)[t].0;
    assert(accepted(s1, limit) == accepted(s2, limit));
    if t < accepted(s1, limit) && x < y {
        lemma_place(s1, limit, t);
        lemma_place(s2, limit, t);
        let bound = (x + 1) as i64;
        lemma_rank_below(s1, place(s1, t), bound, 0);
        lemma_rank_at_least(s2, place(s2, t), bound, 0);
        assert(ahead(s1, bound, 0) == ahead(s2, bound, 0));
    }
}

/// The list of the empty stream: padding only.
pub fn padding<T: Copy>(k: usize, limit: i64, pad: T) -> (r: Vec<(i64, T)>)
    ensures
        r@ == nearest(Seq::<(i64, T)>::empty(), limit, pad, k as nat),
{
    let mut r: Vec<(i64, T)> = Vec::new();
    let mut i: usize = 0;
    while i < k
        invariant
            i <= k,
            r@ == Seq::new(i as nat, |t: int| (limit, pad)),
        decreases k - i,
    {
        r.push((limit, pad));
        i += 1;
        assert(r@ =~= Seq::new(i as nat, |t: int| (limit, pad)));
    }
    assert(r@ =~= nearest(Seq::<(i64, T)>::empty(), limit, pad, k as nat));
    r
}

/// Offers an entry to a full sorted list: put in the last slot, it moves
/// forward past every entry with a larger key.
pub fn offer<T: Copy>(slots: &mut Vec<(i64, T)>, entry: (i64, T))
    requires
        old(slots)@.len() > 0,
        sorted_by_key(old(slots)@),
    ensures
        final(slots)@ == offered(old(slots)@, entry),
        final(slots)@.len() == old(slots)@.len(),
        sorted_by_key(final(slots)@),
{
    let ghost before = slots@;
    let last: usize = slots.len() - 1;
    if entry.0 < slots[last].0 {
        let mut i: usize = last;
        slots[i] = entry;
        assert(slots@ =~= before.drop_last().insert(i as int, entry));
        while i > 0 && slots[i].0 < slots[i - 1].0
            invariant
                i <= last,
                last == before.len() - 1,
                sorted_by_key(before),
                entry.0 < before.last().0,
                slots@ == before.drop_last().insert(i as int, entry),
                forall|t: int| i <= t < before.len() ==> (#[trigger] before[t]).0 > entry.0,
            decreases i,
        {
            let moved: (i64, T) = slots[i - 1];
            slots[i - 1] = entry;
            slots[i] = moved;
            i -= 1;
            assert(slots@ =~= before.drop_last().insert(i as int, entry));
        }
        proof {
            if i > 0 {
                assert(slots@[i - 1] == before[i - 1]);
            }
            assert forall|t: int| 0 <= t < i implies (#[trigger] before[t]).0 <= entry.0 by {
                assert(before[t].0 <= before[i - 1].0);
            }
            lemma_ahead_at_split(before, entry.0, i as int);
            assert forall|a: int, b: int| 0 <= a <= b < slots@.len() implies (
            #[trigger] slots@[a]).0 <= (#[trigger] slots@[b]).0 by {
                let a0 = if a < i { a } else { a - 1 };
                let b0 = if b < i { b } else { b - 1 };
                if a != i && b != i {
                    assert(before[a0].0 <= before[b0].0);
                }
            }
        }
    }
}

} // verus!
