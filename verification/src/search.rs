//! The search for the nearest vectors, and the count of frauds among them.
//!
//! The vectors of the probed clusters are compared with the query in quantized
//! form, and the sixteen nearest are kept as candidates. Of these the five
//! nearest by the exact distance are kept, and their labels are counted.
use vstd::prelude::*;
use crate::distance::{squared_distance_i16, DiffWidth};
use crate::float_bits::{not_a_number, order_key, LARGEST};
use crate::index::{ClusterInfo, IndexFile};
use crate::probe::{nearest_centroids, K_CENTROIDS};
use crate::ranking::{offer, padding};
use crate::response::response;

verus! {

/// How many candidates the quantized search keeps.
pub const CANDIDATES: usize = 16;

/// How many candidates the exact ranking keeps.
pub const NEIGHBOURS: usize = 5;

/// A quantized distance is a candidate's only below this one.
pub const FARTHEST: i64 = 0x7fff_ffff;

/// The label of a fraud.
pub const FRAUD: u8 = 1;

/// The distances from the query to the `count` vectors from `start` on, each
/// with the position of its vector.
pub open spec fn cluster_entries(
    vectors: Seq<[i16; 16]>,
    width: DiffWidth,
    query: Seq<i16>,
    start: int,
    count: nat,
) -> Seq<(i64, usize)> {
    Seq::new(
        count,
        |j: int|
            (
                crate::distance::vector_distance(width, query, vectors[start + j]@) as i64,
                (start + j) as usize,
            ),
    )
}

/// The entries of one cluster of an index.
pub open spec fn entries_of(
    file: Seq<u8>,
    vectors: Seq<[i16; 16]>,
    width: DiffWidth,
    query: Seq<i16>,
    k: u16,
) -> Seq<(i64, usize)> {
    let info = crate::index::cluster_of(file, k as int);
    cluster_entries(vectors, width, query, info.offset as int, info.count as nat)
}

/// The entries of all probed clusters, one cluster after the other.
pub open spec fn probed_entries(
    file: Seq<u8>,
    vectors: Seq<[i16; 16]>,
    width: DiffWidth,
    query: Seq<i16>,
    probed: Seq<u16>,
) -> Seq<(i64, usize)>
    decreases probed.len(),
{
    if probed.len() == 0 {
        Seq::empty()
    } else {
        probed_entries(file, vectors, width, query, probed.drop_last()) + entries_of(
            file,
            vectors,
            width,
            query,
            probed.last(),
        )
    }
}

/// Whether cluster `k` exists and all its vectors do. The offset of an empty
/// cluster does not matter.
pub open spec fn cluster_in_bounds(file: Seq<u8>, k: u16) -> bool {
    let info = crate::index::cluster_of(file, k as int);
    &&& k < crate::index::cluster_count(file)
    &&& info.count == 0 || info.offset + info.count <= crate::index::vector_count(file)
}

/// Whether all probed clusters exist, with all their vectors.
pub open spec fn probes_in_bounds(file: Seq<u8>, probed: Seq<u16>) -> bool {
    forall|i: int| 0 <= i < probed.len() ==> cluster_in_bounds(file, #[trigger] probed[i])
}

/// The candidates: the nearest probed vectors by quantized distance.
pub open spec fn candidate_list(
    file: Seq<u8>,
    vectors: Seq<[i16; 16]>,
    width: DiffWidth,
    query: Seq<i16>,
    probed: Seq<u16>,
) -> Seq<(i64, usize)> {
    crate::ranking::nearest(
        probed_entries(file, vectors, width, query, probed),
        FARTHEST,
        0,
        CANDIDATES as nat,
    )
}

/// How many entries of a list have a key below the limit.
pub open spec fn filled(list: Seq<(i64, usize)>) -> nat {
    crate::ranking::accepted(list, FARTHEST)
}

/// The vectors of the candidates, nearest first, without the padding.
pub open spec fn found_in(list: Seq<(i64, usize)>) -> Seq<usize> {
    list.take(filled(list) as int).map_values(|e: (i64, usize)| e.1)
}

/// Whether `found` are the candidates of the clusters `probed`; `None` stands for
/// a probe that is out of bounds.
pub open spec fn is_outcome_of(
    file: Seq<u8>,
    vectors: Seq<[i16; 16]>,
    width: DiffWidth,
    query: Seq<i16>,
    probed: Seq<u16>,
    found: Option<Vec<usize>>,
) -> bool {
    match found {
        Some(found) => probes_in_bounds(file, probed) && found@ == found_in(
            candidate_list(file, vectors, width, query, probed),
        ),
        None => !probes_in_bounds(file, probed),
    }
}

/// The number by which an exact distance is ranked. What is no number ranks
/// with the largest number, which is never kept.
pub open spec fn exact_key(bits: u32) -> i64 {
    if crate::float_bits::is_nan(bits) {
        crate::float_bits::order(LARGEST) as i64
    } else {
        crate::float_bits::order(bits) as i64
    }
}

/// The exact distances of the candidates, each with the label of its vector.
pub open spec fn exact_entries(file: Seq<u8>, found: Seq<usize>, exact: Seq<u32>) -> Seq<
    (i64, u8),
> {
    Seq::new(
        found.len(),
        |i: int| (exact_key(exact[i]), crate::index::label_of(file, found[i] as int)),
    )
}

/// The nearest candidates by exact distance, with their labels.
pub open spec fn neighbour_list(file: Seq<u8>, found: Seq<usize>, exact: Seq<u32>) -> Seq<
    (i64, u8),
> {
    crate::ranking::nearest(
        exact_entries(file, found, exact),
        crate::float_bits::order(LARGEST) as i64,
        0,
        NEIGHBOURS as nat,
    )
}

/// How many neighbours are frauds.
pub open spec fn frauds(list: Seq<(i64, u8)>) -> nat
    decreases list.len(),
{
    if list.len() == 0 {
        0
    } else {
        frauds(list.drop_last()) + if list.last().1 == FRAUD {
            1nat
        } else {
            0nat
        }
    }
}

/// The answer to a request whose candidates have these exact distances.
pub open spec fn answer_text(file: Seq<u8>, found: Seq<usize>, exact: Seq<u32>) -> Seq<char> {
    crate::response::response_text(frauds(neighbour_list(file, found, exact)))
}

/// The sum of the lanes of a vector, of the first `n`.
pub open spec fn lane_sum(v: Seq<i16>, n: nat) -> int
    decreases n,
{
    if n == 0 {
        0
    } else {
        lane_sum(v, (n - 1) as nat) + v[n - 1]
    }
}

/// The sum of all lanes of all vectors.
pub open spec fn total_sum(vectors: Seq<[i16; 16]>) -> int
    decreases vectors.len(),
{
    if vectors.len() == 0 {
        0
    } else {
        total_sum(vectors.drop_last()) + lane_sum(vectors.last()@, 16)
    }
}

/// An index in memory: the file, and its vectors in quantized form.
pub struct IVFIndex<'a> {
    file: IndexFile<'a>,
    vectors: Vec<[i16; 16]>,
}

impl<'a> IVFIndex<'a> {
    #[verifier::type_invariant]
    spec fn one_quantized_form_per_vector(&self) -> bool {
        self.vectors@.len() == crate::index::vector_count(self.file@)
    }

    /// The bytes of the file.
    pub closed spec fn bytes(&self) -> Seq<u8> {
        self.file@
    }

    /// The quantized vectors.
    pub closed spec fn vectors(&self) -> Seq<[i16; 16]> {
        self.vectors@
    }

    /// Joins a file and the quantized form of its vectors.
    pub fn new(file: IndexFile<'a>, vectors: Vec<[i16; 16]>) -> (r: IVFIndex<'a>)
        requires
            vectors@.len() == crate::index::vector_count(file@),
        ensures
            r.bytes() == file@,
            r.vectors() == vectors@,
    {
        IVFIndex { file, vectors }
    }

    /// The file.
    pub fn file(&self) -> (r: &IndexFile<'a>)
        ensures
            r@ == self.bytes(),
    {
        &self.file
    }

    /// The sum of all lanes of all quantized vectors.
    pub fn checksum(&self) -> (r: i64)
        ensures
            r == total_sum(self.vectors()),
    {
        proof {
            use_type_invariant(self);
        }
        let mut sum: i64 = 0;
        let mut i: usize = 0;
        while i < self.vectors.len()
            invariant
                i <= self.vectors@.len() <= 0xffff_ffff,
                sum == total_sum(self.vectors@.take(i as int)),
                -0x8_0000 * i <= sum <= 0x8_0000 * i,
            decreases self.vectors@.len() - i,
        {
            let row: [i16; 16] = self.vectors[i];
            let ghost before = sum;
            let mut lane: usize = 0;
            while lane < 16
                invariant
                    lane <= 16,
                    i < 0xffff_ffff,
                    -0x8_0000 * i <= before <= 0x8_0000 * i,
                    sum == before + lane_sum(row@, lane as nat),
                    -0x8000 * lane <= lane_sum(row@, lane as nat) <= 0x8000 * lane,
                decreases 16 - lane,
            {
                sum += row[lane] as i64;
                lane += 1;
            }
            assert(self.vectors@.take(i + 1).drop_last() =~= self.vectors@.take(i as int));
            i += 1;
        }
        assert(self.vectors@.take(i as int) =~= self.vectors@);
        sum
    }

    /// Whether all probed clusters exist, with all their vectors.
    pub fn can_probe(&self, probed: &Vec<u16>) -> (r: bool)
        ensures
            r == probes_in_bounds(self.bytes(), probed@),
    {
        proof {
            use_type_invariant(self);
        }
        let mut i: usize = 0;
        while i < probed.len()
            invariant
                i <= probed@.len(),
                forall|j: int| 0 <= j < i ==> cluster_in_bounds(self.file@, #[trigger] probed@[j]),
            decreases probed@.len() - i,
        {
            let k: usize = probed[i] as usize;
            if k >= self.file.k_clusters() {
                assert(!cluster_in_bounds(self.file@, probed@[i as int]));
                return false;
            }
            let info: ClusterInfo = self.file.cluster(k);
            if info.count > 0 && info.offset as u64 + info.count as u64
                > self.file.n_vectors() as u64 {
                assert(!cluster_in_bounds(self.file@, probed@[i as int]));
                return false;
            }
            i += 1;
        }
        true
    }

    /// Scans the probed clusters for the candidates.
    pub fn candidates(&self, width: DiffWidth, query: &[i16; 16], probed: &Vec<u16>) -> (top: Vec<
        (i64, usize),
    >)
        requires
            probes_in_bounds(self.bytes(), probed@),
        ensures
            top@ == candidate_list(self.bytes(), self.vectors(), width, query@, probed@),
    {
        proof {
            use_type_invariant(self);
        }
        let ghost file = self.file@;
        let ghost vectors = self.vectors@;
        let mut top: Vec<(i64, usize)> = padding(CANDIDATES, FARTHEST, 0usize);
        let mut i: usize = 0;
        let ghost mut seen = Seq::<(i64, usize)>::empty();
        while i < probed.len()
            invariant
                i <= probed@.len(),
                file == self.file@,
                vectors == self.vectors@,
                vectors.len() == crate::index::vector_count(file),
                probes_in_bounds(file, probed@),
                seen == probed_entries(file, vectors, width, query@, probed@.take(i as int)),
                top@ == crate::ranking::nearest(seen, FARTHEST, 0, CANDIDATES as nat),
            decreases probed@.len() - i,
        {
            let k: u16 = probed[i];
            assert(cluster_in_bounds(file, probed@[i as int]));
            let info: ClusterInfo = self.file.cluster(k as usize);
            let start: usize = info.offset as usize;
            let end: usize = start + info.count as usize;
            let ghost base = seen;
            let mut idx: usize = start;
            while idx < end
                invariant
                    start <= idx <= end,
                    idx < end ==> end <= vectors.len(),
                    vectors == self.vectors@,
                    seen == base + cluster_entries(
                        vectors,
                        width,
                        query@,
                        start as int,
                        (idx - start) as nat,
                    ),
                    top@ == crate::ranking::nearest(seen, FARTHEST, 0, CANDIDATES as nat),
                decreases end - idx,
            {
                let dist: i32 = squared_distance_i16(width, query, &self.vectors[idx]);
                let entry: (i64, usize) = (dist as i64, idx);
                proof {
                    crate::ranking::nearest_is_sorted(seen, FARTHEST, 0, CANDIDATES as nat);
                    crate::ranking::offering_extends_the_stream(
                        seen,
                        FARTHEST,
                        0,
                        CANDIDATES as nat,
                        entry,
                    );
                }
                offer(&mut top, entry);
                proof {
                    seen = seen.push(entry);
                }
                idx += 1;
                assert(seen =~= base + cluster_entries(
                    vectors,
                    width,
                    query@,
                    start as int,
                    (idx - start) as nat,
                ));
            }
            assert(probed@.take(i + 1).drop_last() =~= probed@.take(i as int));
            i += 1;
        }
        assert(probed@.take(i as int) =~= probed@);
        top
    }

    /// Scans the probed clusters for the vectors nearest to the query. There is no
    /// outcome if a probed cluster is out of bounds.
    pub fn scan(&self, width: DiffWidth, query: &[i16; 16], probed: &Vec<u16>) -> (found: Option<
        Vec<usize>,
    >)
        ensures
            is_outcome_of(self.bytes(), self.vectors(), width, query@, probed@, found),
            found matches Some(vectors) ==> forall|i: int|
                0 <= i < vectors@.len() ==> #[trigger] vectors@[i] < crate::index::vector_count(
                    self.bytes(),
                ),
    {
        if !self.can_probe(probed) {
            return None;
        }
        let top: Vec<(i64, usize)> = self.candidates(width, query, probed);
        let vectors: Vec<usize> = found_vectors(&top);
        proof {
            crate::ranking::filled_slots(
                probed_entries(self.bytes(), self.vectors(), width, query@, probed@),
                FARTHEST,
                0,
                CANDIDATES as nat,
            );
            assert forall|i: int| 0 <= i < vectors@.len() implies #[trigger] vectors@[i]
                < crate::index::vector_count(self.bytes()) by {
                candidates_are_probed_vectors(
                    self.bytes(),
                    self.vectors(),
                    width,
                    query@,
                    probed@,
                    i,
                );
            }
        }
        Some(vectors)
    }

    /// Finds the vectors nearest to a query, from the distances of the centroids as
    /// bit patterns: those that a scan finds in some choice of nearest centroids.
    pub fn search(
        &self,
        dists: &Vec<u32>,
        nprobe: usize,
        width: DiffWidth,
        query: &[i16; 16],
    ) -> (found: Option<Vec<usize>>)
        requires
            dists@.len() == K_CENTROIDS,
            1 <= nprobe <= K_CENTROIDS,
            forall|i: int|
                0 <= i < dists@.len() ==> !crate::float_bits::is_nan(#[trigger] dists@[i]),
        ensures
            exists|probed: Seq<u16>| #[trigger]
                crate::probe::is_nearest_choice(dists@, nprobe as int, probed) && is_outcome_of(
                    self.bytes(),
                    self.vectors(),
                    width,
                    query@,
                    probed,
                    found,
                ),
            (forall|k: u16| k < K_CENTROIDS ==> #[trigger] cluster_in_bounds(self.bytes(), k))
                ==> found is Some,
            found matches Some(vectors) ==> forall|i: int|
                0 <= i < vectors@.len() ==> #[trigger] vectors@[i] < crate::index::vector_count(
                    self.bytes(),
                ),
    {
        let probed: Vec<u16> = nearest_centroids(dists, nprobe);
        self.scan(width, query, &probed)
    }

    /// Answers a request whose candidates have these exact distances.
    pub fn answer(&self, found: &Vec<usize>, exact: &Vec<u32>) -> (r: &'static str)
        requires
            found@.len() == exact@.len(),
            forall|i: int|
                0 <= i < found@.len() ==> #[trigger] found@[i] < crate::index::vector_count(
                    self.bytes(),
                ),
        ensures
            r@ == crate::response::response_text(
                frauds(neighbour_list(self.bytes(), found@, exact@)),
            ),
            r@ == answer_text(self.bytes(), found@, exact@),
    {
        let top: Vec<(i64, u8)> = self.neighbours(found, exact);
        response(fraud_count(&top))
    }

    /// Ranks the candidates by their exact distances, given as bit patterns, and
    /// reads the labels of the nearest.
    pub fn neighbours(&self, found: &Vec<usize>, exact: &Vec<u32>) -> (top: Vec<(i64, u8)>)
        requires
            found@.len() == exact@.len(),
            forall|i: int|
                0 <= i < found@.len() ==> #[trigger] found@[i] < crate::index::vector_count(
                    self.bytes(),
                ),
        ensures
            top@ == neighbour_list(self.bytes(), found@, exact@),
    {
        proof {
            use_type_invariant(self);
        }
        let limit: i64 = order_key(LARGEST);
        let ghost entries = exact_entries(self.file@, found@, exact@);
        let mut top: Vec<(i64, u8)> = padding(NEIGHBOURS, limit, 0u8);
        let mut i: usize = 0;
        assert(entries.take(0) =~= Seq::<(i64, u8)>::empty());
        while i < found.len()
            invariant
                i <= found@.len(),
                found@.len() == exact@.len(),
                limit == crate::float_bits::order(LARGEST),
                entries == exact_entries(self.file@, found@, exact@),
                forall|i: int|
                    0 <= i < found@.len() ==> #[trigger] found@[i] < crate::index::vector_count(
                        self.file@,
                    ),
                top@ == crate::ranking::nearest(
                    entries.take(i as int),
                    limit,
                    0,
                    NEIGHBOURS as nat,
                ),
            decreases found@.len() - i,
        {
            let key: i64 = if not_a_number(exact[i]) {
                limit
            } else {
                order_key(exact[i])
            };
            let entry: (i64, u8) = (key, self.file.label(found[i]));
            proof {
                let seen = entries.take(i as int);
                assert(seen.push(entry) =~= entries.take(i + 1));
                crate::ranking::nearest_is_sorted(seen, limit, 0u8, NEIGHBOURS as nat);
                crate::ranking::offering_extends_the_stream(
                    seen,
                    limit,
                    0u8,
                    NEIGHBOURS as nat,
                    entry,
                );
            }
            offer(&mut top, entry);
            i += 1;
        }
        assert(entries.take(i as int) =~= entries);
        top
    }
}

/// The vectors of the candidates, without the padding.
pub fn found_vectors(top: &Vec<(i64, usize)>) -> (found: Vec<usize>)
    ensures
        found@ == found_in(top@),
{
    let mut count: usize = 0;
    let mut i: usize = 0;
    while i < top.len()
        invariant
            i <= top@.len(),
            count <= i,
            count == filled(top@.take(i as int)),
        decreases top@.len() - i,
    {
        assert(top@.take(i + 1).drop_last() =~= top@.take(i as int));
        if top[i].0 < FARTHEST {
            count += 1;
        }
        i += 1;
    }
    assert(top@.take(i as int) =~= top@);
    let mut found: Vec<usize> = Vec::new();
    let mut j: usize = 0;
    while j < count
        invariant
            j <= count <= top@.len(),
            found@ == top@.take(j as int).map_values(|e: (i64, usize)| e.1),
        decreases count - j,
    {
        found.push(top[j].1);
        j += 1;
        assert(found@ =~= top@.take(j as int).map_values(|e: (i64, usize)| e.1));
    }
    found
}

/// Counts the frauds among the neighbours.
pub fn fraud_count(list: &Vec<(i64, u8)>) -> (r: usize)
    ensures
        r == frauds(list@),
{
    let mut count: usize = 0;
    let mut i: usize = 0;
    while i < list.len()
        invariant
            i <= list@.len(),
            count <= i,
            count == frauds(list@.take(i as int)),
        decreases list@.len() - i,
    {
        assert(list@.take(i + 1).drop_last() =~= list@.take(i as int));
        if list[i].1 == FRAUD {
            count += 1;
        }
        i += 1;
    }
    assert(list@.take(i as int) =~= list@);
    count
}

/// Whether a vector is in cluster `k`.
pub open spec fn in_cluster(file: Seq<u8>, k: u16, v: int) -> bool {
    let info = crate::index::cluster_of(file, k as int);
    info.offset <= v < info.offset + info.count
}

/// Whether a vector is in one of the probed clusters.
pub open spec fn is_probed(file: Seq<u8>, probed: Seq<u16>, v: int) -> bool {
    exists|i: int| 0 <= i < probed.len() && in_cluster(file, #[trigger] probed[i], v)
}

proof fn lemma_entry_of_probed(
    file: Seq<u8>,
    vectors: Seq<[i16; 16]>,
    width: DiffWidth,
    query: Seq<i16>,
    probed: Seq<u16>,
    e: int,
)
    requires
        probes_in_bounds(file, probed),
        0 <= e < probed_entries(file, vectors, width, query, probed).len(),
    ensures
        ({
            let (key, v) = probed_entries(file, vectors, width, query, probed)[e];
            &&& is_probed(file, probed, v as int)
            &&& v < crate::index::vector_count(file)
            &&& key == crate::distance::vector_distance(width, query, vectors[v as int]@)
        }),
    decreases probed.len(),
{
    let init = probed.drop_last();
    let before = probed_entries(file, vectors, width, query, init);
    assert forall|i: int| 0 <= i < init.len() implies cluster_in_bounds(
        file,
        #[trigger] init[i],
    ) by {
        assert(cluster_in_bounds(file, probed[i]));
    }
    if e < before.len() {
        lemma_entry_of_probed(file, vectors, width, query, init, e);
        let v = before[e].1 as int;
        let i = choose|i: int| 0 <= i < init.len() && in_cluster(file, #[trigger] init[i], v);
        assert(in_cluster(file, probed[i], v));
    } else {
        let last = probed.len() - 1;
        assert(cluster_in_bounds(file, probed[last]));
        let v = probed_entries(file, vectors, width, query, probed)[e].1 as int;
        assert(in_cluster(file, probed[last], v));
    }
}

/// Each candidate is a vector of a probed cluster, with its distance to the query.
pub proof fn candidates_are_probed_vectors(
    file: Seq<u8>,
    vectors: Seq<[i16; 16]>,
    width: DiffWidth,
    query: Seq<i16>,
    probed: Seq<u16>,
    t: int,
)
    requires
        probes_in_bounds(file, probed),
        0 <= t < filled(candidate_list(file, vectors, width, query, probed)),
    ensures
        ({
            let (key, v) = candidate_list(file, vectors, width, query, probed)[t];
            &&& is_probed(file, probed, v as int)
            &&& v < crate::index::vector_count(file)
            &&& key == crate::distance::vector_distance(width, query, vectors[v as int]@)
        }),
{
    let entries = probed_entries(file, vectors, width, query, probed);
    let list = candidate_list(file, vectors, width, query, probed);
    crate::ranking::filled_slots(entries, FARTHEST, 0, CANDIDATES as nat);
    crate::ranking::filled_slot_is_of_the_stream(entries, FARTHEST, 0, CANDIDATES as nat, t);
    let e = choose|e: int| 0 <= e < entries.len() && entries[e] == list[t];
    lemma_entry_of_probed(file, vectors, width, query, probed, e);
}

proof fn lemma_probed_vector_has_entry(
    file: Seq<u8>,
    vectors: Seq<[i16; 16]>,
    width: DiffWidth,
    query: Seq<i16>,
    probed: Seq<u16>,
    v: usize,
)
    requires
        is_probed(file, probed, v as int),
    ensures
        probed_entries(file, vectors, width, query, probed).contains(
            (crate::distance::vector_distance(width, query, vectors[v as int]@) as i64, v),
        ),
    decreases probed.len(),
{
    let init = probed.drop_last();
    let before = probed_entries(file, vectors, width, query, init);
    let entries = probed_entries(file, vectors, width, query, probed);
    let entry = (crate::distance::vector_distance(width, query, vectors[v as int]@) as i64, v);
    let i = choose|i: int| 0 <= i < probed.len() && in_cluster(file, #[trigger] probed[i], v as int);
    if i < init.len() {
        assert(in_cluster(file, init[i], v as int));
        lemma_probed_vector_has_entry(file, vectors, width, query, init, v);
        let e = choose|e: int| 0 <= e < before.len() && before[e] == entry;
        assert(entries[e] == entry);
    } else {
        let info = crate::index::cluster_of(file, probed.last() as int);
        assert(entries[before.len() + (v - info.offset)] == entry);
    }
}

/// The candidates are the nearest: a probed vector is one of them, or no candidate
/// is farther than it.
pub proof fn no_probed_vector_beats_the_candidates(
    file: Seq<u8>,
    vectors: Seq<[i16; 16]>,
    width: DiffWidth,
    query: Seq<i16>,
    probed: Seq<u16>,
    v: usize,
)
    requires
        is_probed(file, probed, v as int),
        crate::distance::vector_distance(width, query, vectors[v as int]@) < FARTHEST,
    ensures
        found_in(candidate_list(file, vectors, width, query, probed)).contains(v) || forall|t: int|
            0 <= t < CANDIDATES ==> (#[trigger] candidate_list(file, vectors, width, query, probed)[t]).0
                <= crate::distance::vector_distance(width, query, vectors[v as int]@),
{
    let entries = probed_entries(file, vectors, width, query, probed);
    let list = candidate_list(file, vectors, width, query, probed);
    let entry = (crate::distance::vector_distance(width, query, vectors[v as int]@) as i64, v);
    let k = CANDIDATES as nat;
    lemma_probed_vector_has_entry(file, vectors, width, query, probed, v);
    let e = choose|e: int| 0 <= e < entries.len() && entries[e] == entry;
    let rank = crate::ranking::rank(entries, e) as int;
    crate::ranking::filled_slots(entries, FARTHEST, 0, k);
    if rank < k {
        crate::ranking::entry_stands_at_its_rank(entries, FARTHEST, 0, k, e);
        assert(list[rank] == entry);
        assert(found_in(list)[rank] == v);
    } else {
        assert forall|t: int| 0 <= t < CANDIDATES implies (#[trigger] list[t]).0 <= entry.0 by {
            crate::ranking::left_out_is_no_nearer(entries, FARTHEST, 0, k, e, t);
        }
    }
}

/// Between encoded vectors no distance is refused: the candidates are as many as
/// the probed vectors, up to sixteen.
pub proof fn encoded_vectors_are_never_refused(
    file: Seq<u8>,
    vectors: Seq<[i16; 16]>,
    width: DiffWidth,
    query: Seq<i16>,
    probed: Seq<u16>,
)
    requires
        probes_in_bounds(file, probed),
        vectors.len() == crate::index::vector_count(file),
        crate::distance::encoded(query),
        forall|i: int| 0 <= i < vectors.len() ==> crate::distance::encoded(#[trigger] vectors[i]@),
    ensures
        filled(candidate_list(file, vectors, width, query, probed)) == if probed_entries(
            file,
            vectors,
            width,
            query,
            probed,
        ).len() < CANDIDATES {
            probed_entries(file, vectors, width, query, probed).len()
        } else {
            CANDIDATES as nat
        },
{
    let entries = probed_entries(file, vectors, width, query, probed);
    assert forall|e: int| 0 <= e < entries.len() implies (#[trigger] entries[e]).0 < FARTHEST by {
        lemma_entry_of_probed(file, vectors, width, query, probed, e);
        crate::distance::encoded_distance_is_exact(query, vectors[entries[e].1 as int]@);
    }
    crate::ranking::all_below_the_limit_are_accepted(entries, FARTHEST);
    crate::ranking::filled_slots(entries, FARTHEST, 0, CANDIDATES as nat);
}

proof fn lemma_encoded_entries_agree(
    file: Seq<u8>,
    vectors: Seq<[i16; 16]>,
    width: DiffWidth,
    query: Seq<i16>,
    probed: Seq<u16>,
)
    requires
        probes_in_bounds(file, probed),
        vectors.len() == crate::index::vector_count(file),
        crate::distance::encoded(query),
        forall|i: int| 0 <= i < vectors.len() ==> crate::distance::encoded(#[trigger] vectors[i]@),
    ensures
        probed_entries(file, vectors, width, query, probed) == probed_entries(
            file,
            vectors,
            DiffWidth::Bits16,
            query,
            probed,
        ),
    decreases probed.len(),
{
    if probed.len() > 0 {
        let init = probed.drop_last();
        assert forall|i: int| 0 <= i < init.len() implies cluster_in_bounds(
            file,
            #[trigger] init[i],
        ) by {
            assert(cluster_in_bounds(file, probed[i]));
        }
        lemma_encoded_entries_agree(file, vectors, width, query, init);
        let last = probed.len() - 1;
        assert(cluster_in_bounds(file, probed[last]));
        let start = crate::index::cluster_of(file, probed[last] as int).offset as int;
        let entries = entries_of(file, vectors, width, query, probed[last]);
        let narrow = entries_of(file, vectors, DiffWidth::Bits16, query, probed[last]);
        assert forall|j: int| 0 <= j < entries.len() implies entries[j] == narrow[j] by {
            crate::distance::encoded_distance_is_exact(query, vectors[start + j]@);
        }
        assert(entries =~= narrow);
    }
}

/// Between encoded vectors the width of lane differences makes no difference to
/// the candidates.
pub proof fn width_makes_no_difference_between_encoded_vectors(
    file: Seq<u8>,
    vectors: Seq<[i16; 16]>,
    query: Seq<i16>,
    probed: Seq<u16>,
)
    requires
        probes_in_bounds(file, probed),
        vectors.len() == crate::index::vector_count(file),
        crate::distance::encoded(query),
        forall|i: int| 0 <= i < vectors.len() ==> crate::distance::encoded(#[trigger] vectors[i]@),
    ensures
        candidate_list(file, vectors, DiffWidth::Bits32, query, probed) == candidate_list(
            file,
            vectors,
            DiffWidth::Bits16,
            query,
            probed,
        ),
{
    lemma_encoded_entries_agree(file, vectors, DiffWidth::Bits32, query, probed);
}

/// Probing every centroid scans every cluster that has one, so that the candidates
/// are the nearest of all their vectors.
pub proof fn full_probe_scans_every_cluster(
    file: Seq<u8>,
    dists: Seq<u32>,
    probed: Seq<u16>,
    k: u16,
    v: int,
)
    requires
        crate::probe::is_nearest_choice(dists, K_CENTROIDS as int, probed),
        k < K_CENTROIDS,
        in_cluster(file, k, v),
    ensures
        is_probed(file, probed, v),
{
    crate::probe::full_probe_reaches_every_centroid(dists, probed, k);
    let i = choose|i: int| 0 <= i < probed.len() && probed[i] == k;
    assert(in_cluster(file, probed[i], v));
}

proof fn lemma_entries_of_probed_alone(
    file1: Seq<u8>,
    file2: Seq<u8>,
    vectors1: Seq<[i16; 16]>,
    vectors2: Seq<[i16; 16]>,
    width: DiffWidth,
    query: Seq<i16>,
    probed: Seq<u16>,
)
    requires
        forall|i: int|
            0 <= i < probed.len() ==> crate::index::cluster_of(file1, #[trigger] probed[i] as int)
                == crate::index::cluster_of(file2, probed[i] as int),
        forall|v: int|
            #[trigger] is_probed(file1, probed, v) ==> vectors1[v]@ == vectors2[v]@,
    ensures
        probed_entries(file1, vectors1, width, query, probed) == probed_entries(
            file2,
            vectors2,
            width,
            query,
            probed,
        ),
    decreases probed.len(),
{
    if probed.len() > 0 {
        let init = probed.drop_last();
        let last = probed.len() - 1;
        assert forall|i: int| 0 <= i < init.len() implies crate::index::cluster_of(
            file1,
            #[trigger] init[i] as int,
        ) == crate::index::cluster_of(file2, init[i] as int) by {
            assert(init[i] == probed[i]);
        }
        assert forall|v: int| #[trigger] is_probed(file1, init, v) implies vectors1[v]@
            == vectors2[v]@ by {
            let i = choose|i: int| 0 <= i < init.len() && in_cluster(file1, #[trigger] init[i], v);
            assert(in_cluster(file1, probed[i], v));
            assert(is_probed(file1, probed, v));
        }
        lemma_entries_of_probed_alone(file1, file2, vectors1, vectors2, width, query, init);
        let start = crate::index::cluster_of(file1, probed[last] as int).offset as int;
        let entries1 = entries_of(file1, vectors1, width, query, probed[last]);
        let entries2 = entries_of(file2, vectors2, width, query, probed[last]);
        assert forall|j: int| 0 <= j < entries1.len() implies entries1[j] == entries2[j] by {
            assert(in_cluster(file1, probed[last], start + j));
            assert(is_probed(file1, probed, start + j));
        }
        assert(entries1 =~= entries2);
    }
}

/// The candidates depend on the probed clusters and their vectors alone.
pub proof fn candidates_depend_on_probed_vectors_alone(
    file1: Seq<u8>,
    file2: Seq<u8>,
    vectors1: Seq<[i16; 16]>,
    vectors2: Seq<[i16; 16]>,
    width: DiffWidth,
    query: Seq<i16>,
    probed: Seq<u16>,
)
    requires
        forall|i: int|
            0 <= i < probed.len() ==> crate::index::cluster_of(file1, #[trigger] probed[i] as int)
                == crate::index::cluster_of(file2, probed[i] as int),
        forall|v: int|
            #[trigger] is_probed(file1, probed, v) ==> vectors1[v]@ == vectors2[v]@,
    ensures
        candidate_list(file1, vectors1, width, query, probed) == candidate_list(
            file2,
            vectors2,
            width,
            query,
            probed,
        ),
{
    lemma_entries_of_probed_alone(file1, file2, vectors1, vectors2, width, query, probed);
}

/// The neighbours depend on the labels of the candidates alone.
pub proof fn neighbours_depend_on_found_labels_alone(
    file1: Seq<u8>,
    file2: Seq<u8>,
    found: Seq<usize>,
    exact: Seq<u32>,
)
    requires
        forall|i: int|
            0 <= i < found.len() ==> crate::index::label_of(file1, #[trigger] found[i] as int)
                == crate::index::label_of(file2, found[i] as int),
    ensures
        neighbour_list(file1, found, exact) == neighbour_list(file2, found, exact),
{
    assert(exact_entries(file1, found, exact) =~= exact_entries(file2, found, exact));
}

/// Whether a vector is in a cluster that may be probed: one whose centroid has
/// fewer strictly nearer ones than are probed.
pub open spec fn within_reach(file: Seq<u8>, dists: Seq<u32>, nprobe: int, v: int) -> bool {
    exists|k: u16|
        k < K_CENTROIDS && crate::probe::nearer_centroids(dists, k).len() < nprobe
            && #[trigger] in_cluster(file, k, v)
}

/// Vectors outside the nearest clusters have no influence. Two indexes with the
/// same clusters, whose quantized vectors, stored vectors and labels agree within
/// reach of the query, have the same candidates. These have the same stored
/// vectors, and so with any exact distances the same answer.
pub proof fn vectors_out_of_reach_have_no_influence(
    file1: Seq<u8>,
    file2: Seq<u8>,
    vectors1: Seq<[i16; 16]>,
    vectors2: Seq<[i16; 16]>,
    dists: Seq<u32>,
    nprobe: int,
    width: DiffWidth,
    query: Seq<i16>,
    probed: Seq<u16>,
    exact: Seq<u32>,
)
    requires
        crate::probe::is_nearest_choice(dists, nprobe, probed),
        probes_in_bounds(file1, probed),
        forall|k: u16|
            k < K_CENTROIDS ==> #[trigger] crate::index::cluster_of(file1, k as int)
                == crate::index::cluster_of(file2, k as int),
        forall|v: int|
            #[trigger] within_reach(file1, dists, nprobe, v) ==> {
                &&& vectors1[v]@ == vectors2[v]@
                &&& crate::index::vector_of(file1, v) == crate::index::vector_of(file2, v)
                &&& crate::index::label_of(file1, v) == crate::index::label_of(file2, v)
            },
    ensures
        candidate_list(file1, vectors1, width, query, probed) == candidate_list(
            file2,
            vectors2,
            width,
            query,
            probed,
        ),
        ({
            let found = found_in(candidate_list(file1, vectors1, width, query, probed));
            &&& forall|i: int|
                0 <= i < found.len() ==> crate::index::vector_of(
                    file1,
                    #[trigger] found[i] as int,
                ) == crate::index::vector_of(file2, found[i] as int)
            &&& neighbour_list(file1, found, exact) == neighbour_list(file2, found, exact)
            &&& crate::response::response_text(frauds(neighbour_list(file1, found, exact)))
                == crate::response::response_text(frauds(neighbour_list(file2, found, exact)))
        }),
{
    assert forall|v: int| #[trigger] is_probed(file1, probed, v) implies within_reach(
        file1,
        dists,
        nprobe,
        v,
    ) by {
        let i = choose|i: int| 0 <= i < probed.len() && in_cluster(file1, #[trigger] probed[i], v);
        let k = probed[i];
        if crate::probe::nearer_centroids(dists, k).len() >= nprobe {
            crate::probe::far_centroid_is_not_probed(dists, nprobe, probed, k);
            assert(probed.contains(k));
        }
        assert(in_cluster(file1, k, v));
    }
    candidates_depend_on_probed_vectors_alone(
        file1,
        file2,
        vectors1,
        vectors2,
        width,
        query,
        probed,
    );
    let list = candidate_list(file1, vectors1, width, query, probed);
    let found = found_in(list);
    crate::ranking::filled_slots(
        probed_entries(file1, vectors1, width, query, probed),
        FARTHEST,
        0,
        CANDIDATES as nat,
    );
    assert forall|i: int| 0 <= i < found.len() implies within_reach(
        file1,
        dists,
        nprobe,
        #[trigger] found[i] as int,
    ) by {
        candidates_are_probed_vectors(file1, vectors1, width, query, probed, i);
        assert(found[i] == list[i].1);
    }
    assert forall|i: int| 0 <= i < found.len() implies crate::index::label_of(
        file1,
        #[trigger] found[i] as int,
    ) == crate::index::label_of(file2, found[i] as int) by {
        assert(within_reach(file1, dists, nprobe, found[i] as int));
    }
    assert forall|i: int| 0 <= i < found.len() implies crate::index::vector_of(
        file1,
        #[trigger] found[i] as int,
    ) == crate::index::vector_of(file2, found[i] as int) by {
        assert(within_reach(file1, dists, nprobe, found[i] as int));
    }
    neighbours_depend_on_found_labels_alone(file1, file2, found, exact);
}

proof fn lemma_keys_without_a_probe(
    file: Seq<u8>,
    vectors: Seq<[i16; 16]>,
    width: DiffWidth,
    query: Seq<i16>,
    probed: Seq<u16>,
    i: int,
    bound: i64,
)
    requires
        0 <= i < probed.len(),
    ensures
        crate::ranking::ahead(probed_entries(file, vectors, width, query, probed), bound, 0)
            == crate::ranking::ahead(
            probed_entries(file, vectors, width, query, probed.remove(i)),
            bound,
            0,
        ) + crate::ranking::ahead(entries_of(file, vectors, width, query, probed[i]), bound, 0),
    decreases probed.len(),
{
    let init = probed.drop_last();
    let last = entries_of(file, vectors, width, query, probed.last());
    crate::ranking::keys_below_add_up(probed_entries(file, vectors, width, query, init), last, bound);
    if i == probed.len() - 1 {
        assert(probed.remove(i) =~= init);
    } else {
        let rest = init.remove(i);
        lemma_keys_without_a_probe(file, vectors, width, query, init, i, bound);
        assert(probed.remove(i) =~= rest.push(probed.last()));
        assert(rest.push(probed.last()).drop_last() =~= rest);
        crate::ranking::keys_below_add_up(probed_entries(file, vectors, width, query, rest), last, bound);
    }
}

proof fn lemma_keys_of_reordered_probes(
    file: Seq<u8>,
    vectors: Seq<[i16; 16]>,
    width: DiffWidth,
    query: Seq<i16>,
    probed1: Seq<u16>,
    probed2: Seq<u16>,
    bound: i64,
)
    requires
        probed1.to_multiset() == probed2.to_multiset(),
    ensures
        crate::ranking::ahead(probed_entries(file, vectors, width, query, probed1), bound, 0)
            == crate::ranking::ahead(probed_entries(file, vectors, width, query, probed2), bound, 0),
    decreases probed1.len(),
{
    broadcast use vstd::seq_lib::group_to_multiset_ensures;

    assert(probed1.len() == probed1.to_multiset().len());
    assert(probed2.len() == probed2.to_multiset().len());
    if probed1.len() > 0 {
        let last = probed1.len() - 1;
        let k = probed1[last];
        assert(probed1.contains(k));
        assert(probed1.to_multiset().count(k) > 0);
        assert(probed2.contains(k));
        let i = choose|i: int| 0 <= i < probed2.len() && probed2[i] == k;
        lemma_keys_without_a_probe(file, vectors, width, query, probed1, last, bound);
        lemma_keys_without_a_probe(file, vectors, width, query, probed2, i, bound);
        lemma_keys_of_reordered_probes(
            file,
            vectors,
            width,
            query,
            probed1.remove(last),
            probed2.remove(i),
            bound,
        );
    }
}

/// The order in which clusters are probed makes no difference to the distances of
/// the candidates.
pub proof fn probe_order_keeps_distances(
    file: Seq<u8>,
    vectors: Seq<[i16; 16]>,
    width: DiffWidth,
    query: Seq<i16>,
    probed1: Seq<u16>,
    probed2: Seq<u16>,
    t: int,
)
    requires
        probed1.to_multiset() == probed2.to_multiset(),
        0 <= t < CANDIDATES,
    ensures
        candidate_list(file, vectors, width, query, probed1)[t].0 == candidate_list(
            file,
            vectors,
            width,
            query,
            probed2,
        )[t].0,
{
    let entries1 = probed_entries(file, vectors, width, query, probed1);
    let entries2 = probed_entries(file, vectors, width, query, probed2);
    assert forall|bound: i64| #[trigger]
        crate::ranking::ahead(entries1, bound, 0) == crate::ranking::ahead(entries2, bound, 0) by {
        lemma_keys_of_reordered_probes(file, vectors, width, query, probed1, probed2, bound);
    }
    crate::ranking::keys_do_not_depend_on_order(
        entries1,
        entries2,
        FARTHEST,
        0,
        CANDIDATES as nat,
        t,
    );
}

proof fn lemma_frauds_bounded(list: Seq<(i64, u8)>)
    ensures
        frauds(list) <= list.len(),
    decreases list.len(),
{
    if list.len() > 0 {
        lemma_frauds_bounded(list.drop_last());
    }
}

/// At most five neighbours are counted, so that each count has an answer of its
/// own.
pub proof fn fraud_count_has_an_answer(file: Seq<u8>, found: Seq<usize>, exact: Seq<u32>)
    ensures
        frauds(neighbour_list(file, found, exact)) <= NEIGHBOURS,
        crate::response::counted(frauds(neighbour_list(file, found, exact))) == frauds(
            neighbour_list(file, found, exact),
        ),
{
    lemma_frauds_bounded(neighbour_list(file, found, exact));
}

/// The neighbours are the nearest candidates: one whose exact distance is a number
/// below the largest is kept, or no neighbour is farther than it.
pub proof fn no_candidate_beats_the_neighbours(
    file: Seq<u8>,
    found: Seq<usize>,
    exact: Seq<u32>,
    i: int,
)
    requires
        0 <= i < found.len(),
        crate::float_bits::less(exact[i], LARGEST),
    ensures
        neighbour_list(file, found, exact).contains(
            (
                crate::float_bits::order(exact[i]) as i64,
                crate::index::label_of(file, found[i] as int),
            ),
        ) || forall|t: int|
            0 <= t < NEIGHBOURS ==> (#[trigger] neighbour_list(file, found, exact)[t]).0
                <= crate::float_bits::order(exact[i]),
{
    let entries = exact_entries(file, found, exact);
    let list = neighbour_list(file, found, exact);
    let limit = crate::float_bits::order(LARGEST) as i64;
    let k = NEIGHBOURS as nat;
    if crate::ranking::rank(entries, i) < k {
        crate::ranking::entry_stands_at_its_rank(entries, limit, 0u8, k, i);
        assert(list[crate::ranking::rank(entries, i) as int] == entries[i]);
    } else {
        assert forall|t: int| 0 <= t < NEIGHBOURS implies (#[trigger] list[t]).0
            <= crate::float_bits::order(exact[i]) by {
            crate::ranking::left_out_is_no_nearer(entries, limit, 0u8, k, i, t);
        }
    }
}

/// A neighbour is a candidate whose exact distance is a number below the largest,
/// or padding, which is no fraud.
pub proof fn neighbours_are_candidates(
    file: Seq<u8>,
    found: Seq<usize>,
    exact: Seq<u32>,
    t: int,
)
    requires
        0 <= t < NEIGHBOURS,
    ensures
        neighbour_list(file, found, exact)[t] == (crate::float_bits::order(LARGEST) as i64, 0u8)
            || exists|i: int|
            #![trigger exact[i]]
            0 <= i < found.len() && crate::float_bits::less(exact[i], LARGEST) && neighbour_list(
                file,
                found,
                exact,
            )[t] == (
                crate::float_bits::order(exact[i]) as i64,
                crate::index::label_of(file, found[i] as int),
            ),
{
    let entries = exact_entries(file, found, exact);
    let list = neighbour_list(file, found, exact);
    let limit = crate::float_bits::order(LARGEST) as i64;
    if t < crate::ranking::accepted(entries, limit) {
        crate::ranking::filled_slot_is_of_the_stream(entries, limit, 0u8, NEIGHBOURS as nat, t);
        let i = choose|i: int| 0 <= i < entries.len() && entries[i] == list[t];
        assert(crate::float_bits::less(exact[i], LARGEST));
    }
}

proof fn lemma_no_frauds(list: Seq<(i64, u8)>)
    requires
        forall|t: int| 0 <= t < list.len() ==> (#[trigger] list[t]).1 != FRAUD,
    ensures
        frauds(list) == 0,
    decreases list.len(),
{
    if list.len() > 0 {
        let init = list.drop_last();
        assert(forall|t: int| 0 <= t < init.len() ==> init[t] == list[t]);
        assert(list.last() == list[list.len() - 1]);
        lemma_no_frauds(init);
    }
}

/// A request for which nothing is found is approved with score zero.
pub proof fn nothing_found_is_approved(file: Seq<u8>, exact: Seq<u32>)
    ensures
        frauds(neighbour_list(file, Seq::empty(), exact)) == 0,
        crate::response::is_approved(frauds(neighbour_list(file, Seq::empty(), exact))),
{
    assert(crate::ranking::accepted(
        exact_entries(file, Seq::empty(), exact),
        crate::float_bits::order(LARGEST) as i64,
    ) == 0);
    lemma_no_frauds(neighbour_list(file, Seq::empty(), exact));
}

/// The fraud count is the number of positions whose label is 1.
pub proof fn frauds_counts_positions(list: Seq<(i64, u8)>)
    ensures
        frauds(list) == Set::new(|t: int| 0 <= t < list.len() && list[t].1 == 1).len(),
    decreases list.len(),
{
    let p = |t: int, e: (i64, u8)| e.1 == 1;
    assert(Set::new(|t: int| 0 <= t < list.len() && list[t].1 == 1) =~= crate::counting::positions(
        list,
        p,
    ));
    crate::counting::positions_step(list, p);
    if list.len() > 0 {
        let init = list.drop_last();
        frauds_counts_positions(init);
        assert(Set::new(|t: int| 0 <= t < init.len() && init[t].1 == 1)
            =~= crate::counting::positions(init, p));
    }
}

/// An entry counts by its own label, however many there are: a fraud raises the
/// count by one, anything else leaves it.
pub proof fn each_fraud_counts_once(list: Seq<(i64, u8)>, entry: (i64, u8))
    ensures
        entry.1 == 1 ==> frauds(list.push(entry)) == frauds(list) + 1,
        entry.1 != 1 ==> frauds(list.push(entry)) == frauds(list),
        frauds(list) <= list.len(),
{
    assert(list.push(entry).drop_last() =~= list);
    lemma_frauds_bounded(list);
}

/// Frauds only: the count is the length of the list. No frauds: it is zero.
pub proof fn all_or_no_frauds(list: Seq<(i64, u8)>)
    ensures
        (forall|t: int| 0 <= t < list.len() ==> (#[trigger] list[t]).1 == 1) ==> frauds(list)
            == list.len(),
        (forall|t: int| 0 <= t < list.len() ==> (#[trigger] list[t]).1 != 1) ==> frauds(list) == 0,
    decreases list.len(),
{
    if list.len() > 0 {
        let init = list.drop_last();
        all_or_no_frauds(init);
        if forall|t: int| 0 <= t < list.len() ==> (#[trigger] list[t]).1 == 1 {
            assert forall|t: int| 0 <= t < init.len() implies (#[trigger] init[t]).1 == 1 by {
                assert(list[t].1 == 1);
            }
            assert(list[list.len() - 1].1 == 1);
        }
        if forall|t: int| 0 <= t < list.len() ==> (#[trigger] list[t]).1 != 1 {
            assert forall|t: int| 0 <= t < init.len() implies (#[trigger] init[t]).1 != 1 by {
                assert(list[t].1 != 1);
            }
            assert(list[list.len() - 1].1 != 1);
        }
    }
}

/// The candidates that are nearer than candidate `i` by exact distance, or as near
/// and found earlier. What is no number is nearer than nothing.
pub open spec fn nearer_candidates(exact: Seq<u32>, i: int) -> Set<int> {
    Set::new(
        |j: int|
            0 <= j < exact.len() && !crate::float_bits::is_nan(exact[j]) && (
            crate::float_bits::order(exact[j]) < crate::float_bits::order(exact[i]) || (
            crate::float_bits::order(exact[j]) == crate::float_bits::order(exact[i]) && j < i)),
    )
}

proof fn lemma_nearer_candidates(file: Seq<u8>, found: Seq<usize>, exact: Seq<u32>, i: int)
    requires
        found.len() == exact.len(),
        0 <= i < found.len(),
        crate::float_bits::less(exact[i], 0x7f7f_ffff),
    ensures
        crate::ranking::nearer_positions(exact_entries(file, found, exact), i)
            == nearer_candidates(exact, i),
{
    let entries = exact_entries(file, found, exact);
    assert forall|j: int| 0 <= j < exact.len() implies (#[trigger] entries[j]).0 == exact_key(
        exact[j],
    ) by {}
    assert(crate::ranking::nearer_positions(entries, i) =~= nearer_candidates(exact, i));
}

/// There are five neighbours, and a candidate whose exact distance is a number below
/// the largest is one of them if fewer than five are nearer: in the slot that
/// their number gives, with the label of its own vector.
pub proof fn neighbour_stands_behind_the_nearer(
    file: Seq<u8>,
    found: Seq<usize>,
    exact: Seq<u32>,
    i: int,
)
    requires
        found.len() == exact.len(),
        0 <= i < found.len(),
        crate::float_bits::less(exact[i], 0x7f7f_ffff),
    ensures
        neighbour_list(file, found, exact).len() == 5,
        nearer_candidates(exact, i).len() < 5 ==> neighbour_list(
            file,
            found,
            exact,
        )[nearer_candidates(exact, i).len() as int] == (
            crate::float_bits::order(exact[i]) as i64,
            crate::index::label_of(file, found[i] as int),
        ),
{
    let entries = exact_entries(file, found, exact);
    let limit = crate::float_bits::order(LARGEST) as i64;
    lemma_nearer_candidates(file, found, exact, i);
    assert(entries[i].0 < limit);
    crate::ranking::slot_is_how_many_are_nearer(entries, limit, 0u8, NEIGHBOURS as nat, i);
    assert(Set::new(
        |j: int|
            0 <= j < entries.len() && (entries[j].0 < entries[i].0 || (entries[j].0 == entries[i].0
                && j < i)),
    ) =~= crate::ranking::nearer_positions(entries, i));
}

/// The vote: each candidate counts whose vector has label 1, whose exact distance is
/// a number below the largest, and than which fewer than five are nearer.
pub proof fn frauds_among_the_five_nearest(file: Seq<u8>, found: Seq<usize>, exact: Seq<u32>)
    requires
        found.len() == exact.len(),
    ensures
        frauds(neighbour_list(file, found, exact)) == Set::new(
            |i: int|
                0 <= i < found.len() && crate::index::label_of(file, found[i] as int) == 1
                    && crate::float_bits::less(exact[i], 0x7f7f_ffff) && nearer_candidates(
                    exact,
                    i,
                ).len() < 5,
        ).len(),
{
    let entries = exact_entries(file, found, exact);
    let limit = crate::float_bits::order(LARGEST) as i64;
    let list = neighbour_list(file, found, exact);
    let p = |label: u8| label == 1;
    crate::ranking::kept_entries_are_those_with_few_nearer(entries, limit, 0u8, 5, p);
    frauds_counts_positions(list);
    assert(Set::new(
        |t: int| 0 <= t < 5 && p(crate::ranking::nearest(entries, limit, 0u8, 5)[t].1),
    ) =~= Set::new(|t: int| 0 <= t < list.len() && list[t].1 == 1));
    let votes = Set::new(
        |i: int|
            0 <= i < found.len() && crate::index::label_of(file, found[i] as int) == 1
                && crate::float_bits::less(exact[i], 0x7f7f_ffff) && nearer_candidates(
                exact,
                i,
            ).len() < 5,
    );
    let kept = Set::new(
        |i: int|
            0 <= i < entries.len() && entries[i].0 < limit && p(entries[i].1)
                && crate::ranking::nearer_positions(entries, i).len() < 5,
    );
    assert forall|i: int| votes.contains(i) <==> kept.contains(i) by {
        if 0 <= i < found.len() && crate::float_bits::less(exact[i], 0x7f7f_ffff) {
            lemma_nearer_candidates(file, found, exact, i);
        }
    }
    assert(votes =~= kept);
}

/// The scan visits the probed clusters one after the other, and in each the `count`
/// vectors from `offset` on, with each the distance from the query to it.
pub proof fn each_probe_adds_its_vectors(
    file: Seq<u8>,
    vectors: Seq<[i16; 16]>,
    width: DiffWidth,
    query: Seq<i16>,
    probed: Seq<u16>,
    k: u16,
    j: int,
)
    requires
        query.len() == 16,
    ensures
        probed_entries(file, vectors, width, query, Seq::empty()).len() == 0,
        ({
            let old = probed_entries(file, vectors, width, query, probed);
            let new = probed_entries(file, vectors, width, query, probed.push(k));
            let info = crate::index::cluster_of(file, k as int);
            &&& new.len() == old.len() + info.count
            &&& 0 <= j < old.len() ==> new[j] == old[j]
            &&& 0 <= j < info.count ==> new[old.len() + j].0 == crate::distance::vector_distance(
                width,
                query,
                vectors[info.offset + j]@,
            )
            &&& 0 <= j < info.count && info.offset + j <= usize::MAX ==> new[old.len() + j].1
                == info.offset + j
        }),
{
    let info = crate::index::cluster_of(file, k as int);
    assert(probed.push(k).drop_last() =~= probed);
    assert(vectors[info.offset + j]@.len() == 16);
    crate::distance::distance_to_itself_is_zero(width, query, vectors[info.offset + j]@);
}

/// There are sixteen slots for candidates. An entry of the scan with a distance below
/// the largest stands in the slot that the number of nearer entries gives, if
/// that is one of the sixteen, and the slots past all such entries are padding.
pub proof fn candidate_stands_behind_the_nearer(
    file: Seq<u8>,
    vectors: Seq<[i16; 16]>,
    width: DiffWidth,
    query: Seq<i16>,
    probed: Seq<u16>,
    e: int,
)
    ensures
        ({
            let entries = probed_entries(file, vectors, width, query, probed);
            let list = candidate_list(file, vectors, width, query, probed);
            let nearer = Set::new(
                |j: int|
                    0 <= j < entries.len() && (entries[j].0 < entries[e].0 || (entries[j].0
                        == entries[e].0 && j < e)),
            );
            &&& list.len() == 16
            &&& 0 <= e < entries.len() && entries[e].0 < 0x7fff_ffff && nearer.len() < 16
                ==> list[nearer.len() as int] == entries[e]
            &&& Set::new(|j: int| 0 <= j < entries.len() && entries[j].0 < 0x7fff_ffff).len() <= e
                < 16 ==> list[e] == (0x7fff_ffffi64, 0usize)
        }),
{
    let entries = probed_entries(file, vectors, width, query, probed);
    if 0 <= e < entries.len() && entries[e].0 < FARTHEST {
        crate::ranking::slot_is_how_many_are_nearer(entries, FARTHEST, 0usize, 16, e);
    }
    crate::ranking::accepted_counts_positions(entries, FARTHEST);
    assert(Set::new(|j: int| 0 <= j < entries.len() && entries[j].0 < 0x7fff_ffff) =~= Set::new(
        |j: int| 0 <= j < entries.len() && entries[j].0 < FARTHEST,
    ));
}

/// As many vectors are found as there are entries with a distance below the largest,
/// sixteen at most, and each by its own number: the one with `n` nearer entries
/// is found at place `n`.
pub proof fn found_vectors_are_the_nearest(
    file: Seq<u8>,
    vectors: Seq<[i16; 16]>,
    width: DiffWidth,
    query: Seq<i16>,
    probed: Seq<u16>,
    e: int,
)
    ensures
        ({
            let entries = probed_entries(file, vectors, width, query, probed);
            let found = found_in(candidate_list(file, vectors, width, query, probed));
            let near = Set::new(|j: int| 0 <= j < entries.len() && entries[j].0 < 0x7fff_ffff);
            let nearer = Set::new(
                |j: int|
                    0 <= j < entries.len() && (entries[j].0 < entries[e].0 || (entries[j].0
                        == entries[e].0 && j < e)),
            );
            &&& found.len() == if near.len() < 16 {
                near.len()
            } else {
                16
            }
            &&& 0 <= e < entries.len() && entries[e].0 < 0x7fff_ffff && nearer.len() < 16
                ==> nearer.len() < found.len() && found[nearer.len() as int] == entries[e].1
        }),
{
    let entries = probed_entries(file, vectors, width, query, probed);
    let list = candidate_list(file, vectors, width, query, probed);
    let near = Set::new(|j: int| 0 <= j < entries.len() && entries[j].0 < 0x7fff_ffff);
    candidate_stands_behind_the_nearer(file, vectors, width, query, probed, e);
    crate::ranking::filled_slots(entries, FARTHEST, 0, CANDIDATES as nat);
    crate::ranking::accepted_counts_positions(entries, FARTHEST);
    assert(near =~= Set::new(|j: int| 0 <= j < entries.len() && entries[j].0 < FARTHEST));
    if 0 <= e < entries.len() && entries[e].0 < 0x7fff_ffff {
        let key = entries[e].0;
        let nearer = Set::new(
            |j: int|
                0 <= j < entries.len() && (entries[j].0 < entries[e].0 || (entries[j].0
                    == entries[e].0 && j < e)),
        );
        crate::ranking::ahead_counts_positions(entries, key, e);
        assert(nearer =~= Set::new(
            |j: int| 0 <= j < entries.len() && (entries[j].0 < key || (entries[j].0 == key && j < e)),
        ));
        if nearer.len() < 16 {
            crate::ranking::entry_stands_at_its_rank(entries, FARTHEST, 0usize, 16, e);
        }
    }
}

/// Of a list, as many vectors are handed out as have a distance below the largest:
/// those of the first slots, in their order.
pub proof fn found_are_the_first_of_the_list(list: Seq<(i64, usize)>, i: int)
    ensures
        found_in(list).len() == Set::new(|t: int| 0 <= t < list.len() && list[t].0 < 0x7fff_ffff).len(),
        found_in(list).len() <= list.len(),
        0 <= i < found_in(list).len() ==> found_in(list)[i] == list[i].1,
{
    crate::ranking::accepted_counts_positions(list, FARTHEST);
    assert(Set::new(|t: int| 0 <= t < list.len() && list[t].0 < 0x7fff_ffff) =~= Set::new(
        |t: int| 0 <= t < list.len() && list[t].0 < FARTHEST,
    ));
    vstd::set_lib::lemma_int_range(0, list.len() as int);
    vstd::set_lib::lemma_len_subset(
        Set::new(|t: int| 0 <= t < list.len() && list[t].0 < FARTHEST),
        vstd::set_lib::set_int_range(0, list.len() as int),
    );
}

/// A cluster can be probed if and only if the index has it, and has each of its
/// vectors.
pub proof fn bounds_are_those_of_the_vectors(file: Seq<u8>, k: u16)
    ensures
        cluster_in_bounds(file, k) <==> k < crate::index::cluster_count(file) && forall|v: int|
            #[trigger] in_cluster(file, k, v) ==> v < crate::index::vector_count(file),
{
    let info = crate::index::cluster_of(file, k as int);
    if info.count > 0 {
        assert(in_cluster(file, k, info.offset + info.count - 1));
    }
}

/// A vector is in a cluster if and only if it is one of the `count` from `offset` on.
pub proof fn cluster_is_a_range(file: Seq<u8>, k: u16, v: int)
    ensures
        in_cluster(file, k, v) <==> exists|j: nat|
            j < crate::index::cluster_of(file, k as int).count && v
                == #[trigger] (crate::index::cluster_of(file, k as int).offset + j),
{
    let info = crate::index::cluster_of(file, k as int);
    if in_cluster(file, k, v) {
        let j = (v - info.offset) as nat;
        assert(v == info.offset + j);
    }
}

/// A scan fails if and only if some probed cluster is out of bounds, and has one
/// outcome only.
pub proof fn scan_fails_only_out_of_bounds(
    file: Seq<u8>,
    vectors: Seq<[i16; 16]>,
    width: DiffWidth,
    query: Seq<i16>,
    probed: Seq<u16>,
    found: Option<Vec<usize>>,
    other: Option<Vec<usize>>,
)
    requires
        is_outcome_of(file, vectors, width, query, probed, found),
        is_outcome_of(file, vectors, width, query, probed, other),
    ensures
        found is None <==> exists|i: int|
            0 <= i < probed.len() && !cluster_in_bounds(file, #[trigger] probed[i]),
        found is Some <==> other is Some,
        found is Some ==> found->0@ == other->0@,
        found is Some ==> found->0@ == found_in(
            candidate_list(file, vectors, width, query, probed),
        ),
{
}

/// The checksum adds up every lane of every vector once.
pub proof fn each_vector_adds_its_lanes(vectors: Seq<[i16; 16]>, v: [i16; 16])
    ensures
        total_sum(Seq::empty()) == 0,
        total_sum(vectors.push(v)) == total_sum(vectors) + v@[0] + v@[1] + v@[2] + v@[3] + v@[4]
            + v@[5] + v@[6] + v@[7] + v@[8] + v@[9] + v@[10] + v@[11] + v@[12] + v@[13] + v@[14]
            + v@[15],
{
    assert(vectors.push(v).drop_last() =~= vectors);
    reveal_with_fuel(lane_sum, 17);
}

/// A request is denied if and only if at least three of the five nearest candidates
/// are frauds, and its answer tells how many are.
pub proof fn answer_goes_by_the_five_nearest(file: Seq<u8>, found: Seq<usize>, exact: Seq<u32>)
    requires
        found.len() == exact.len(),
    ensures
        ({
            let votes = Set::new(
                |i: int|
                    0 <= i < found.len() && crate::index::label_of(file, found[i] as int) == 1
                        && crate::float_bits::less(exact[i], 0x7f7f_ffff) && nearer_candidates(
                        exact,
                        i,
                    ).len() < 5,
            ).len();
            let answer = answer_text(file, found, exact);
            &&& votes <= 5
            &&& votes == 0 ==> answer == "{\"approved\":true,\"fraud_score\":0.0}"@
            &&& votes == 1 ==> answer == "{\"approved\":true,\"fraud_score\":0.2}"@
            &&& votes == 2 ==> answer == "{\"approved\":true,\"fraud_score\":0.4}"@
            &&& votes == 3 ==> answer == "{\"approved\":false,\"fraud_score\":0.6}"@
            &&& votes == 4 ==> answer == "{\"approved\":false,\"fraud_score\":0.8}"@
            &&& votes == 5 ==> answer == "{\"approved\":false,\"fraud_score\":1.0}"@
        }),
{
    frauds_among_the_five_nearest(file, found, exact);
    fraud_count_has_an_answer(file, found, exact);
    crate::response::answer_to_every_count(frauds(neighbour_list(file, found, exact)));
}

} // verus!
