//! The index file: centroids, clusters, vectors and labels.
//!
//! All numbers are little-endian. The file starts with the four bytes `IVFF`, the
//! number of clusters, the number of vectors and four reserved bytes. Then come
//! the centroids (sixteen 32-bit floats each), the clusters (offset and count of
//! their vectors), the vectors (sixteen 32-bit floats each) and one label byte
//! per vector. Floats are handed out as bit patterns.
use vstd::prelude::*;

verus! {

/// Where the first section starts.
pub const HEADER_BYTES: usize = 16;

/// The size of a row of sixteen floats.
pub const ROW_BYTES: usize = 64;

/// The size of a cluster record.
pub const CLUSTER_BYTES: usize = 8;

/// The vectors of a cluster: `count` of them from `offset` on.
#[derive(Clone, Copy, Debug, PartialEq, Eq, Structural)]
pub struct ClusterInfo {
    pub offset: u32,
    pub count: u32,
}

/// Why a file is no index.
#[derive(Clone, Copy, Debug, PartialEq, Eq, Structural)]
pub enum IndexError {
    /// The file ends before the magic bytes or the two counts do.
    Truncated,
    /// The file does not start with the magic bytes.
    BadMagic,
    /// The length is not the one that the two counts call for.
    WrongSize,
}

/// The little-endian number in the four bytes from `at` on.
pub open spec fn u32_at(b: Seq<u8>, at: int) -> int {
    b[at] + b[at + 1] * 0x100 + b[at + 2] * 0x1_0000 + b[at + 3] * 0x100_0000
}

/// The sixteen numbers from `at` on.
pub open spec fn row_at(b: Seq<u8>, at: int) -> Seq<u32> {
    Seq::new(16, |lane: int| u32_at(b, at + 4 * lane) as u32)
}

/// Whether the file starts with `IVFF`.
pub open spec fn has_magic(b: Seq<u8>) -> bool {
    b[0] == 0x49 && b[1] == 0x56 && b[2] == 0x46 && b[3] == 0x46
}

/// How many clusters the header declares.
pub open spec fn cluster_count(b: Seq<u8>) -> int {
    u32_at(b, 4)
}

/// How many vectors the header declares.
pub open spec fn vector_count(b: Seq<u8>) -> int {
    u32_at(b, 8)
}

/// Where the centroid of cluster `k` starts.
pub open spec fn centroid_start(b: Seq<u8>, k: int) -> int {
    HEADER_BYTES + k * ROW_BYTES
}

/// Where the record of cluster `k` starts.
pub open spec fn cluster_start(b: Seq<u8>, k: int) -> int {
    centroid_start(b, cluster_count(b)) + k * CLUSTER_BYTES
}

/// Where vector `i` starts.
pub open spec fn vector_start(b: Seq<u8>, i: int) -> int {
    cluster_start(b, cluster_count(b)) + i * ROW_BYTES
}

/// Where the label of vector `i` is.
pub open spec fn label_start(b: Seq<u8>, i: int) -> int {
    vector_start(b, vector_count(b)) + i
}

/// Where the file has to end.
pub open spec fn declared_size(b: Seq<u8>) -> int {
    label_start(b, vector_count(b))
}

/// What is wrong with a file, if anything: the first thing that a reader meets.
pub open spec fn index_error(b: Seq<u8>) -> Option<IndexError> {
    if b.len() < 4 {
        Some(IndexError::Truncated)
    } else if !has_magic(b) {
        Some(IndexError::BadMagic)
    } else if b.len() < 12 {
        Some(IndexError::Truncated)
    } else if b.len() != declared_size(b) {
        Some(IndexError::WrongSize)
    } else {
        None
    }
}

/// The centroid of cluster `k`.
pub open spec fn centroid_of(b: Seq<u8>, k: int) -> Seq<u32> {
    row_at(b, centroid_start(b, k))
}

/// The record of cluster `k`.
pub open spec fn cluster_of(b: Seq<u8>, k: int) -> ClusterInfo {
    ClusterInfo {
        offset: u32_at(b, cluster_start(b, k)) as u32,
        count: u32_at(b, cluster_start(b, k) + 4) as u32,
    }
}

/// The vector `i`.
pub open spec fn vector_of(b: Seq<u8>, i: int) -> Seq<u32> {
    row_at(b, vector_start(b, i))
}

/// The label of vector `i`.
pub open spec fn label_of(b: Seq<u8>, i: int) -> u8 {
    b[label_start(b, i)]
}

fn read_u32(bytes: &[u8], at: usize) -> (r: u32)
    requires
        at + 4 <= bytes@.len(),
    ensures
        r == u32_at(bytes@, at as int),
{
    bytes[at] as u32 + bytes[at + 1] as u32 * 0x100 + bytes[at + 2] as u32 * 0x1_0000 + bytes[at
        + 3] as u32 * 0x100_0000
}

fn read_row(bytes: &[u8], at: usize) -> (r: [u32; 16])
    requires
        at + ROW_BYTES <= bytes@.len(),
    ensures
        r@ == row_at(bytes@, at as int),
{
    let mut row: [u32; 16] = [0u32; 16];
    let mut lane: usize = 0;
    while lane < 16
        invariant
            lane <= 16,
            at + ROW_BYTES <= bytes.len() == bytes@.len(),
            forall|l: int| 0 <= l < lane ==> #[trigger] row@[l] == row_at(bytes@, at as int)[l],
        decreases 16 - lane,
    {
        row[lane] = read_u32(bytes, at + 4 * lane);
        lane += 1;
    }
    assert(row@ =~= row_at(bytes@, at as int));
    row
}

/// An index file whose header and length have been checked.
pub struct IndexFile<'a> {
    bytes: &'a [u8],
    k_clusters: usize,
    n_vectors: usize,
}

impl<'a> View for IndexFile<'a> {
    type V = Seq<u8>;

    closed spec fn view(&self) -> Seq<u8> {
        self.bytes@
    }
}

impl<'a> IndexFile<'a> {
    #[verifier::type_invariant]
    spec fn checked(&self) -> bool {
        &&& index_error(self.bytes@) is None
        &&& self.k_clusters == cluster_count(self.bytes@)
        &&& self.n_vectors == vector_count(self.bytes@)
    }

    /// Checks the header and the length of a file.
    pub fn parse(bytes: &'a [u8]) -> (r: Result<IndexFile<'a>, IndexError>)
        ensures
            match r {
                Ok(file) => index_error(bytes@) is None && file@ == bytes@,
                Err(error) => index_error(bytes@) == Some(error),
            },
    {
        if bytes.len() < 4 {
            return Err(IndexError::Truncated);
        }
        if bytes[0] != 0x49 || bytes[1] != 0x56 || bytes[2] != 0x46 || bytes[3] != 0x46 {
            return Err(IndexError::BadMagic);
        }
        if bytes.len() < 12 {
            return Err(IndexError::Truncated);
        }
        let k: u32 = read_u32(bytes, 4);
        let n: u32 = read_u32(bytes, 8);
        let centroids_len: u64 = k as u64 * 64;
        let metadata_len: u64 = k as u64 * 8;
        let vectors_len: u64 = n as u64 * 64;
        let size: u64 = 16 + centroids_len + metadata_len + vectors_len + n as u64;
        if bytes.len() as u64 != size {
            return Err(IndexError::WrongSize);
        }
        Ok(IndexFile { bytes, k_clusters: k as usize, n_vectors: n as usize })
    }

    /// How many clusters the index has.
    pub fn k_clusters(&self) -> (r: usize)
        ensures
            r == cluster_count(self@),
    {
        proof {
            use_type_invariant(self);
        }
        self.k_clusters
    }

    /// How many vectors the index has.
    pub fn n_vectors(&self) -> (r: usize)
        ensures
            r == vector_count(self@),
    {
        proof {
            use_type_invariant(self);
        }
        self.n_vectors
    }

    /// The centroid of a cluster.
    pub fn centroid(&self, k: usize) -> (r: [u32; 16])
        requires
            k < cluster_count(self@),
        ensures
            r@ == centroid_of(self@, k as int),
    {
        proof {
            use_type_invariant(self);
            assert(self.bytes.len() == self.bytes@.len());
        }
        read_row(self.bytes, HEADER_BYTES + k * ROW_BYTES)
    }

    /// The record of a cluster.
    pub fn cluster(&self, k: usize) -> (r: ClusterInfo)
        requires
            k < cluster_count(self@),
        ensures
            r == cluster_of(self@, k as int),
    {
        proof {
            use_type_invariant(self);
            assert(self.bytes.len() == self.bytes@.len());
        }
        let at: usize = HEADER_BYTES + self.k_clusters * ROW_BYTES + k * CLUSTER_BYTES;
        ClusterInfo { offset: read_u32(self.bytes, at), count: read_u32(self.bytes, at + 4) }
    }

    /// A vector as it was stored, before quantization.
    pub fn vector(&self, i: usize) -> (r: [u32; 16])
        requires
            i < vector_count(self@),
        ensures
            r@ == vector_of(self@, i as int),
    {
        proof {
            use_type_invariant(self);
            assert(self.bytes.len() == self.bytes@.len());
        }
        let first: usize = HEADER_BYTES + self.k_clusters * ROW_BYTES + self.k_clusters
            * CLUSTER_BYTES;
        read_row(self.bytes, first + i * ROW_BYTES)
    }

    /// The label of a vector: 1 marks a fraud.
    pub fn label(&self, i: usize) -> (r: u8)
        requires
            i < vector_count(self@),
        ensures
            r == label_of(self@, i as int),
    {
        proof {
            use_type_invariant(self);
            assert(self.bytes.len() == self.bytes@.len());
        }
        let first: usize = HEADER_BYTES + self.k_clusters * ROW_BYTES + self.k_clusters
            * CLUSTER_BYTES + self.n_vectors * ROW_BYTES;
        self.bytes[first + i]
    }
}

/// The sections of a file follow one another without gap or overlap, each record
/// right behind the one before it, from the header to the end of the file.
pub proof fn sections_tile_the_file(b: Seq<u8>, i: int)
    requires
        index_error(b) is None,
    ensures
        centroid_start(b, 0) == HEADER_BYTES,
        centroid_start(b, i + 1) == centroid_start(b, i) + ROW_BYTES,
        cluster_start(b, 0) == centroid_start(b, cluster_count(b)),
        cluster_start(b, i + 1) == cluster_start(b, i) + CLUSTER_BYTES,
        vector_start(b, 0) == cluster_start(b, cluster_count(b)),
        vector_start(b, i + 1) == vector_start(b, i) + ROW_BYTES,
        label_start(b, 0) == vector_start(b, vector_count(b)),
        label_start(b, i + 1) == label_start(b, i) + 1,
        label_start(b, vector_count(b)) == b.len(),
        b.len() == 16 + 72 * cluster_count(b) + 65 * vector_count(b),
{
}

/// Whether the four bytes from `at` on are those of `x`, the lowest first.
pub open spec fn holds(b: Seq<u8>, at: int, x: u32) -> bool {
    &&& b[at] == x % 256
    &&& b[at + 1] == x / 256 % 256
    &&& b[at + 2] == x / 65536 % 256
    &&& b[at + 3] == x / 16777216
}

/// Whether sixteen numbers stand one behind the other from `at` on.
pub open spec fn holds_row(b: Seq<u8>, at: int, row: Seq<u32>) -> bool {
    row.len() == 16 && forall|l: int| 0 <= l < 16 ==> holds(b, at + 4 * l, #[trigger] row[l])
}

/// A number that was written lowest byte first is read back, and no other.
pub proof fn written_number_is_read_back(b: Seq<u8>, at: int, x: u32)
    ensures
        holds(b, at, x) <==> u32_at(b, at) == x,
{
}

/// Sixteen numbers written one behind the other are read back in the same order,
/// and lane `l` of a row is the number in the four bytes from `4 * l` on.
pub proof fn written_row_is_read_back(b: Seq<u8>, at: int, row: Seq<u32>)
    requires
        holds_row(b, at, row),
    ensures
        row_at(b, at) == row,
        row_at(b, at).len() == 16,
        forall|l: int| 0 <= l < 16 ==> holds(b, at + 4 * l, #[trigger] row_at(b, at)[l]),
{
    assert forall|l: int| 0 <= l < 16 implies #[trigger] row_at(b, at)[l] == row[l] by {
        written_number_is_read_back(b, at + 4 * l, row[l]);
    }
    assert(row_at(b, at) =~= row);
}

/// Every lane of every row is the number in its own four bytes.
pub proof fn lane_is_in_its_own_bytes(b: Seq<u8>, at: int, l: int)
    requires
        0 <= l < 16,
    ensures
        row_at(b, at).len() == 16,
        holds(b, at + 4 * l, row_at(b, at)[l]),
{
    written_number_is_read_back(b, at + 4 * l, row_at(b, at)[l]);
}

/// The counts of clusters and of vectors are read from bytes 4 to 7 and 8 to 11.
pub proof fn written_counts_are_read_back(b: Seq<u8>, clusters: u32, vectors: u32)
    ensures
        holds(b, 4, clusters) <==> cluster_count(b) == clusters,
        holds(b, 8, vectors) <==> vector_count(b) == vectors,
{
    written_number_is_read_back(b, 4, clusters);
    written_number_is_read_back(b, 8, vectors);
}

/// Centroids stand 64 bytes apart behind the first 16 bytes.
pub proof fn written_centroid_is_read_back(b: Seq<u8>, k: int, row: Seq<u32>)
    requires
        holds_row(b, 16 + 64 * k, row),
    ensures
        centroid_of(b, k) == row,
{
    written_row_is_read_back(b, 16 + 64 * k, row);
}

/// Cluster records stand 8 bytes apart behind the centroids: first the offset, then
/// the count.
pub proof fn written_cluster_is_read_back(
    b: Seq<u8>,
    clusters: u32,
    k: int,
    offset: u32,
    count: u32,
)
    requires
        holds(b, 4, clusters),
        holds(b, 16 + 64 * clusters + 8 * k, offset),
        holds(b, 16 + 64 * clusters + 8 * k + 4, count),
    ensures
        cluster_of(b, k).offset == offset,
        cluster_of(b, k).count == count,
{
    written_number_is_read_back(b, 4, clusters);
    written_number_is_read_back(b, 16 + 64 * clusters + 8 * k, offset);
    written_number_is_read_back(b, 16 + 64 * clusters + 8 * k + 4, count);
    assert(cluster_start(b, k) == 16 + 64 * clusters + 8 * k);
}

/// Vectors stand 64 bytes apart behind the cluster records.
pub proof fn written_vector_is_read_back(b: Seq<u8>, clusters: u32, i: int, row: Seq<u32>)
    requires
        holds(b, 4, clusters),
        holds_row(b, 16 + 72 * clusters + 64 * i, row),
    ensures
        vector_of(b, i) == row,
{
    written_number_is_read_back(b, 4, clusters);
    assert(vector_start(b, i) == 16 + 72 * clusters + 64 * i);
    written_row_is_read_back(b, 16 + 72 * clusters + 64 * i, row);
}

/// Labels stand byte by byte behind the vectors.
pub proof fn written_label_is_read_back(b: Seq<u8>, clusters: u32, vectors: u32, i: int)
    requires
        holds(b, 4, clusters),
        holds(b, 8, vectors),
    ensures
        label_of(b, i) == b[16 + 72 * clusters + 64 * vectors + i],
{
    written_counts_are_read_back(b, clusters, vectors);
    assert(label_start(b, i) == 16 + 72 * clusters + 64 * vectors + i);
}

/// A file is an index if and only if it starts with the letters I, V, F, F and has
/// the length that its two counts call for. A file that ends within the letters
/// is truncated, whatever its bytes; other letters are found before a later end.
pub proof fn only_whole_files_are_indexes(b: Seq<u8>, clusters: u32, vectors: u32)
    requires
        holds(b, 4, clusters),
        holds(b, 8, vectors),
    ensures
        index_error(b) is None <==> b.len() == 16 + 72 * clusters + 65 * vectors && b[0] == 73
            && b[1] == 86 && b[2] == 70 && b[3] == 70,
        index_error(b) == Some(IndexError::BadMagic) <==> b.len() >= 4 && !(b[0] == 73 && b[1] == 86
            && b[2] == 70 && b[3] == 70),
        index_error(b) == Some(IndexError::Truncated) <==> b.len() < 4 || (b.len() < 12 && b[0] == 73
            && b[1] == 86 && b[2] == 70 && b[3] == 70),
        index_error(b) == Some(IndexError::WrongSize) <==> b.len() >= 12 && b[0] == 73 && b[1] == 86
            && b[2] == 70 && b[3] == 70 && b.len() != 16 + 72 * clusters + 65 * vectors,
{
    written_counts_are_read_back(b, clusters, vectors);
    assert(declared_size(b) == 16 + 72 * clusters + 65 * vectors);
}

} // verus!
