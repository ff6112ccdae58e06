//! Squared Euclidean distances between quantized vectors.
//!
//! A vector has sixteen lanes of `i16`; a feature value `x` is stored as
//! `x * 5000`, rounded. Distances are `i32` and wrap around. Lane differences are
//! taken in 16 or in 32 bits, as the processor has it.
use vstd::prelude::*;

verus! {

/// How many lanes a vector has.
pub const LANES: usize = 16;

/// The stored value of a feature at its upper end, 1.0; -1.0 is its negative.
pub const SCALE: i16 = 5000;

/// The width in which lane differences are taken.
#[derive(Clone, Copy, Debug, PartialEq, Eq, Structural)]
pub enum DiffWidth {
    /// 16 bits, in the vector units of x86-64 and AArch64.
    Bits16,
    /// 32 bits, on all other processors.
    Bits32,
}

/// The value of `x` as a 16-bit two's complement number.
pub open spec fn wrap16(x: int) -> int {
    (x + 0x8000) % 0x1_0000 - 0x8000
}

/// The value of `x` as a 32-bit two's complement number.
pub open spec fn wrap32(x: int) -> int {
    (x + 0x8000_0000) % 0x1_0000_0000 - 0x8000_0000
}

/// The sum of the squared differences of the first `n` lanes.
pub open spec fn sum_of_squares(a: Seq<i16>, b: Seq<i16>, n: nat) -> int
    decreases n,
{
    if n == 0 {
        0
    } else {
        let d = a[n - 1] - b[n - 1];
        sum_of_squares(a, b, (n - 1) as nat) + d * d
    }
}

/// The same sum with each difference kept in 16 bits.
pub open spec fn sum_of_wrapped_squares(a: Seq<i16>, b: Seq<i16>, n: nat) -> int
    decreases n,
{
    if n == 0 {
        0
    } else {
        let d = wrap16(a[n - 1] - b[n - 1]);
        sum_of_wrapped_squares(a, b, (n - 1) as nat) + d * d
    }
}

/// The distance with 32-bit lane differences.
pub open spec fn wide_distance(a: Seq<i16>, b: Seq<i16>) -> int {
    wrap32(sum_of_squares(a, b, 16))
}

/// The distance with 16-bit lane differences.
pub open spec fn lane_distance(a: Seq<i16>, b: Seq<i16>) -> int {
    wrap32(sum_of_wrapped_squares(a, b, 16))
}

/// The distance with lane differences of the given width.
pub open spec fn vector_distance(width: DiffWidth, a: Seq<i16>, b: Seq<i16>) -> int {
    match width {
        DiffWidth::Bits16 => lane_distance(a, b),
        DiffWidth::Bits32 => wide_distance(a, b),
    }
}

/// Every lane is the stored form of a feature value between -1.0 and 1.0.
pub open spec fn encoded(a: Seq<i16>) -> bool {
    a.len() == 16 && forall|i: int| 0 <= i < 16 ==> -SCALE <= #[trigger] a[i] <= SCALE
}

/// The distance by 16-bit lanes: differences wrap in 16 bits, their squares are
/// added up in 32 bits.
pub fn squared_distance_i16_preloaded(q: &[i16; 16], b: &[i16; 16]) -> (r: i32)
    ensures
        r == lane_distance(q@, b@),
{
    let mut sum: i32 = 0;
    let mut i: usize = 0;
    while i < LANES
        invariant
            i <= LANES,
            sum == wrap32(sum_of_wrapped_squares(q@, b@, i as nat)),
        decreases LANES - i,
    {
        let diff: i16 = q[i].wrapping_sub(b[i]);
        let wide: i32 = diff as i32;
        assert(0 <= wide * wide <= 0x4000_0000) by (nonlinear_arith)
            requires
                -0x8000 <= wide <= 0x7fff,
        ;
        let square: i32 = wide * wide;
        assert(diff == wrap16(q@[i as int] - b@[i as int]));
        sum = sum.wrapping_add(square);
        i += 1;
    }
    sum
}

proof fn lemma_sum_not_negative(a: Seq<i16>, b: Seq<i16>, n: nat)
    ensures
        0 <= sum_of_squares(a, b, n),
    decreases n,
{
    if n > 0 {
        lemma_sum_not_negative(a, b, (n - 1) as nat);
        let d = a[n - 1] - b[n - 1];
        assert(0 <= d * d) by (nonlinear_arith);
    }
}

/// The distance by 32-bit differences, for processors without 16-bit lanes: the
/// sum of squares wherever that is an `i32`.
pub fn squared_distance_i16_fallback(a: &[i16; 16], b: &[i16; 16]) -> (r: i32)
    ensures
        r == wide_distance(a@, b@),
        sum_of_squares(a@, b@, 16) <= i32::MAX ==> r == sum_of_squares(a@, b@, 16),
{
    let mut sum: i32 = 0;
    let mut i: usize = 0;
    while i < LANES
        invariant
            i <= LANES,
            sum == wrap32(sum_of_squares(a@, b@, i as nat)),
        decreases LANES - i,
    {
        let diff: i32 = a[i] as i32 - b[i] as i32;
        sum = sum.wrapping_add(diff.wrapping_mul(diff));
        i += 1;
    }
    proof {
        lemma_sum_not_negative(a@, b@, 16);
    }
    sum
}

/// The distance with lane differences of the given width.
pub fn squared_distance_i16(width: DiffWidth, a: &[i16; 16], b: &[i16; 16]) -> (r: i32)
    ensures
        r == vector_distance(width, a@, b@),
{
    match width {
        DiffWidth::Bits16 => squared_distance_i16_preloaded(a, b),
        DiffWidth::Bits32 => squared_distance_i16_fallback(a, b),
    }
}

proof fn lemma_sums_agree(a: Seq<i16>, b: Seq<i16>, n: nat)
    requires
        n <= a.len(),
        n <= b.len(),
        forall|i: int| 0 <= i < n ==> -0x8000 <= (#[trigger] a[i]) - (#[trigger] b[i]) <= 0x7fff,
    ensures
        sum_of_wrapped_squares(a, b, n) == sum_of_squares(a, b, n),
    decreases n,
{
    if n > 0 {
        lemma_sums_agree(a, b, (n - 1) as nat);
        assert(-0x8000 <= a[n - 1] - b[n - 1] <= 0x7fff);
    }
}

/// The two distances are the same wherever no lane difference leaves 16 bits.
pub proof fn lane_and_wide_distances_agree(a: Seq<i16>, b: Seq<i16>)
    requires
        a.len() == 16,
        b.len() == 16,
        forall|i: int| 0 <= i < 16 ==> -0x8000 <= (#[trigger] a[i]) - (#[trigger] b[i]) <= 0x7fff,
    ensures
        lane_distance(a, b) == wide_distance(a, b),
{
    lemma_sums_agree(a, b, 16);
}

proof fn lemma_square_bounds(d: int)
    requires
        -10_000 <= d <= 10_000,
    ensures
        0 <= d * d <= 100_000_000,
        d * d == 0 <==> d == 0,
{
    assert(0 <= d * d <= 100_000_000) by (nonlinear_arith)
        requires
            -10_000 <= d <= 10_000,
    ;
    assert(d * d == 0 ==> d == 0) by (nonlinear_arith);
}

proof fn lemma_encoded_sum(a: Seq<i16>, b: Seq<i16>, n: nat)
    requires
        encoded(a),
        encoded(b),
        n <= 16,
    ensures
        0 <= sum_of_squares(a, b, n) <= 100_000_000 * n,
        sum_of_squares(a, b, n) == sum_of_squares(b, a, n),
        sum_of_squares(a, b, n) == 0 <==> (forall|i: int| 0 <= i < n ==> a[i] == b[i]),
    decreases n,
{
    if n > 0 {
        lemma_encoded_sum(a, b, (n - 1) as nat);
        let d = a[n - 1] - b[n - 1];
        lemma_square_bounds(d);
        assert((b[n - 1] - a[n - 1]) * (b[n - 1] - a[n - 1]) == d * d) by (nonlinear_arith)
            requires
                d == a[n - 1] - b[n - 1],
        ;
        assert(sum_of_squares(a, b, n) == 0 ==> forall|i: int| 0 <= i < n ==> a[i] == b[i]);
        assert((forall|i: int| 0 <= i < n ==> a[i] == b[i]) ==> a[n - 1] == b[n - 1]);
    }
}

/// Between encoded vectors either distance is the true sum of squares, and it
/// stays below the largest `i32`.
pub proof fn encoded_distance_is_exact(a: Seq<i16>, b: Seq<i16>)
    requires
        encoded(a),
        encoded(b),
    ensures
        lane_distance(a, b) == sum_of_squares(a, b, 16),
        wide_distance(a, b) == sum_of_squares(a, b, 16),
        0 <= lane_distance(a, b) <= 1_600_000_000 < i32::MAX,
{
    lemma_encoded_sum(a, b, 16);
    lane_and_wide_distances_agree(a, b);
}

/// Between encoded vectors the distance is symmetric, and zero only between
/// equal vectors.
pub proof fn encoded_distance_separates_vectors(a: Seq<i16>, b: Seq<i16>)
    requires
        encoded(a),
        encoded(b),
    ensures
        lane_distance(a, b) == lane_distance(b, a),
        lane_distance(a, b) == 0 <==> a == b,
{
    lemma_encoded_sum(a, b, 16);
    encoded_distance_is_exact(a, b);
    encoded_distance_is_exact(b, a);
    assert((forall|i: int| 0 <= i < 16 ==> a[i] == b[i]) ==> a =~= b);
}

proof fn lemma_sum_after_change(a: Seq<i16>, b: Seq<i16>, i: int, x: i16, y: i16, n: nat)
    requires
        0 <= i < a.len(),
        a.len() == b.len(),
        n <= a.len(),
    ensures
        sum_of_squares(a.update(i, x), b.update(i, y), n) == sum_of_squares(a, b, n) + if i < n {
            (x - y) * (x - y) - (a[i] - b[i]) * (a[i] - b[i])
        } else {
            0
        },
    decreases n,
{
    if n > 0 {
        lemma_sum_after_change(a, b, i, x, y, (n - 1) as nat);
    }
}

proof fn lemma_wrapped_sum_after_change(a: Seq<i16>, b: Seq<i16>, i: int, x: i16, y: i16, n: nat)
    requires
        0 <= i < a.len(),
        a.len() == b.len(),
        n <= a.len(),
    ensures
        sum_of_wrapped_squares(a.update(i, x), b.update(i, y), n) == sum_of_wrapped_squares(a, b, n)
            + if i < n {
            wrap16(x - y) * wrap16(x - y) - wrap16(a[i] - b[i]) * wrap16(a[i] - b[i])
        } else {
            0
        },
    decreases n,
{
    if n > 0 {
        lemma_wrapped_sum_after_change(a, b, i, x, y, (n - 1) as nat);
    }
}

proof fn lemma_sum_of_equal_vectors(a: Seq<i16>, n: nat)
    requires
        n <= a.len(),
    ensures
        sum_of_squares(a, a, n) == 0,
        sum_of_wrapped_squares(a, a, n) == 0,
    decreases n,
{
    if n > 0 {
        lemma_sum_of_equal_vectors(a, (n - 1) as nat);
    }
}

proof fn lemma_wrap32_congruent(x: int, y: int)
    ensures
        (wrap32(x) - wrap32(y) - (x - y)) % 0x1_0000_0000 == 0,
        -0x8000_0000 <= wrap32(x) <= 0x7fff_ffff,
{
}

/// Either distance is an `i32`, and zero from a vector to itself.
pub proof fn distance_to_itself_is_zero(width: DiffWidth, a: Seq<i16>, b: Seq<i16>)
    requires
        a.len() == 16,
        b.len() == 16,
    ensures
        -0x8000_0000 <= vector_distance(width, a, b) <= 0x7fff_ffff,
        -0x8000_0000 <= lane_distance(a, b) <= 0x7fff_ffff,
        -0x8000_0000 <= wide_distance(a, b) <= 0x7fff_ffff,
        vector_distance(width, a, a) == 0,
        lane_distance(a, a) == 0,
        wide_distance(a, a) == 0,
{
    lemma_sum_of_equal_vectors(a, 16);
}

/// The square of each lane counts once: when the entries of one lane become `x` and
/// `y`, the distance with 32-bit differences moves by the new square less the old
/// one, up to multiples of 2 to the 32nd.
pub proof fn wide_distance_counts_each_square_once(a: Seq<i16>, b: Seq<i16>, i: int, x: i16, y: i16)
    requires
        a.len() == 16,
        b.len() == 16,
        0 <= i < 16,
    ensures
        (vector_distance(DiffWidth::Bits32, a.update(i, x), b.update(i, y)) - vector_distance(
            DiffWidth::Bits32,
            a,
            b,
        ) - ((x - y) * (x - y) - (a[i] - b[i]) * (a[i] - b[i]))) % 0x1_0000_0000 == 0,
        (wide_distance(a.update(i, x), b.update(i, y)) - wide_distance(a, b) - ((x - y) * (x - y)
            - (a[i] - b[i]) * (a[i] - b[i]))) % 0x1_0000_0000 == 0,
{
    lemma_sum_after_change(a, b, i, x, y, 16);
    lemma_wrap32_congruent(
        sum_of_squares(a.update(i, x), b.update(i, y), 16),
        sum_of_squares(a, b, 16),
    );
}

/// The square of each lane counts once with 16-bit differences too: `u` and `v` are
/// the 16-bit numbers that differ from the new and the old lane difference by
/// multiples of 2 to the 16th.
pub proof fn lane_distance_counts_each_square_once(
    a: Seq<i16>,
    b: Seq<i16>,
    i: int,
    x: i16,
    y: i16,
    u: int,
    v: int,
)
    requires
        a.len() == 16,
        b.len() == 16,
        0 <= i < 16,
        -0x8000 <= u <= 0x7fff,
        -0x8000 <= v <= 0x7fff,
        (u - (x - y)) % 0x1_0000 == 0,
        (v - (a[i] - b[i])) % 0x1_0000 == 0,
    ensures
        (vector_distance(DiffWidth::Bits16, a.update(i, x), b.update(i, y)) - vector_distance(
            DiffWidth::Bits16,
            a,
            b,
        ) - (u * u - v * v)) % 0x1_0000_0000 == 0,
        (lane_distance(a.update(i, x), b.update(i, y)) - lane_distance(a, b) - (u * u - v * v))
            % 0x1_0000_0000 == 0,
{
    assert(u == wrap16(x - y));
    assert(v == wrap16(a[i] - b[i]));
    lemma_wrapped_sum_after_change(a, b, i, x, y, 16);
    lemma_wrap32_congruent(
        sum_of_wrapped_squares(a.update(i, x), b.update(i, y), 16),
        sum_of_wrapped_squares(a, b, 16),
    );
}

/// The distance of encoded vectors is Euclidean in every lane: when an entry of one
/// of them changes, it moves by the new square less the old one.
pub proof fn encoded_distance_is_euclidean(
    width: DiffWidth,
    a: Seq<i16>,
    b: Seq<i16>,
    i: int,
    x: i16,
)
    requires
        encoded(a),
        encoded(b),
        0 <= i < 16,
        -5000 <= x <= 5000,
    ensures
        vector_distance(width, a.update(i, x), b) == vector_distance(width, a, b) + (x - b[i]) * (x
            - b[i]) - (a[i] - b[i]) * (a[i] - b[i]),
        vector_distance(width, b, a.update(i, x)) == vector_distance(width, b, a) + (x - b[i]) * (x
            - b[i]) - (a[i] - b[i]) * (a[i] - b[i]),
{
    let c = a.update(i, x);
    assert(encoded(c));
    assert(b.update(i, b[i]) =~= b);
    lemma_sum_after_change(a, b, i, x, b[i], 16);
    encoded_distance_is_exact(a, b);
    encoded_distance_is_exact(c, b);
    encoded_distance_is_exact(b, a);
    encoded_distance_is_exact(b, c);
    lemma_encoded_sum(a, b, 16);
    lemma_encoded_sum(c, b, 16);
}

/// Between encoded vectors that differ in a single lane, whichever it is, the
/// distance is the square of their difference there.
pub proof fn single_lane_gives_its_square(width: DiffWidth, a: Seq<i16>, b: Seq<i16>, i: int)
    requires
        encoded(a),
        encoded(b),
        0 <= i < 16,
        forall|j: int| 0 <= j < 16 && j != i ==> a[j] == b[j],
    ensures
        vector_distance(width, a, b) == (a[i] - b[i]) * (a[i] - b[i]),
{
    assert(a =~= b.update(i, a[i]));
    encoded_distance_is_euclidean(width, b, b, i, a[i]);
    distance_to_itself_is_zero(width, b, b);
    assert((b[i] - b[i]) * (b[i] - b[i]) == 0);
}

/// No lane counts more than another: the same exchange of two lanes in both vectors
/// keeps the distance.
pub proof fn exchanged_lanes_keep_the_distance(
    width: DiffWidth,
    a: Seq<i16>,
    b: Seq<i16>,
    i: int,
    j: int,
)
    requires
        a.len() == 16,
        b.len() == 16,
        0 <= i < 16,
        0 <= j < 16,
    ensures
        vector_distance(width, a.update(i, a[j]).update(j, a[i]), b.update(i, b[j]).update(j, b[i]))
            == vector_distance(width, a, b),
{
    let a1 = a.update(i, a[j]);
    let b1 = b.update(i, b[j]);
    lemma_sum_after_change(a, b, i, a[j], b[j], 16);
    lemma_sum_after_change(a1, b1, j, a[i], b[i], 16);
    lemma_wrapped_sum_after_change(a, b, i, a[j], b[j], 16);
    lemma_wrapped_sum_after_change(a1, b1, j, a[i], b[i], 16);
}

proof fn lemma_sum_as_fold(a: Seq<i16>, b: Seq<i16>, n: nat, start: int)
    requires
        a.len() == b.len(),
        n <= a.len(),
    ensures
        a.zip_with(b).take(n as int).fold_right(
            |lane: (i16, i16), sum: int| sum + (lane.0 - lane.1) * (lane.0 - lane.1),
            start,
        ) == start + sum_of_squares(a, b, n),
    decreases n,
{
    let f = |lane: (i16, i16), sum: int| sum + (lane.0 - lane.1) * (lane.0 - lane.1);
    let lanes = a.zip_with(b).take(n as int);
    if n > 0 {
        lemma_sum_as_fold(a, b, (n - 1) as nat, f(lanes.last(), start));
        assert(lanes.drop_last() =~= a.zip_with(b).take(n - 1));
    }
}

proof fn lemma_wrapped_sum_as_fold(a: Seq<i16>, b: Seq<i16>, n: nat, start: int)
    requires
        a.len() == b.len(),
        n <= a.len(),
    ensures
        a.zip_with(b).take(n as int).fold_right(
            |lane: (i16, i16), sum: int| sum + wrap16(lane.0 - lane.1) * wrap16(lane.0 - lane.1),
            start,
        ) == start + sum_of_wrapped_squares(a, b, n),
    decreases n,
{
    let f = |lane: (i16, i16), sum: int|
        sum + wrap16(lane.0 - lane.1) * wrap16(lane.0 - lane.1);
    let lanes = a.zip_with(b).take(n as int);
    if n > 0 {
        lemma_wrapped_sum_as_fold(a, b, (n - 1) as nat, f(lanes.last(), start));
        assert(lanes.drop_last() =~= a.zip_with(b).take(n - 1));
    }
}

/// The order of the lanes makes no difference: if the same pairs of entries face each
/// other in two pairs of vectors, each pair as often, the distances are the same.
pub proof fn reordered_lanes_keep_the_distance(
    width: DiffWidth,
    a: Seq<i16>,
    b: Seq<i16>,
    c: Seq<i16>,
    d: Seq<i16>,
)
    requires
        a.len() == 16,
        b.len() == 16,
        c.len() == 16,
        d.len() == 16,
        a.zip_with(b).to_multiset() == c.zip_with(d).to_multiset(),
    ensures
        vector_distance(width, a, b) == vector_distance(width, c, d),
{
    let f = |lane: (i16, i16), sum: int| sum + (lane.0 - lane.1) * (lane.0 - lane.1);
    let g = |lane: (i16, i16), sum: int|
        sum + wrap16(lane.0 - lane.1) * wrap16(lane.0 - lane.1);
    vstd::seq_lib::lemma_fold_right_permutation(a.zip_with(b), c.zip_with(d), f, 0);
    vstd::seq_lib::lemma_fold_right_permutation(a.zip_with(b), c.zip_with(d), g, 0);
    assert(a.zip_with(b).take(16) =~= a.zip_with(b));
    assert(c.zip_with(d).take(16) =~= c.zip_with(d));
    lemma_sum_as_fold(a, b, 16, 0);
    lemma_sum_as_fold(c, d, 16, 0);
    lemma_wrapped_sum_as_fold(a, b, 16, 0);
    lemma_wrapped_sum_as_fold(c, d, 16, 0);
}

} // verus!
