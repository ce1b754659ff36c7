//! Raw and Android sparse disk images: normalization, sparse encoding, MBR/GPT partition maps
//! and exact partition materialization.
use vstd::prelude::*;
use crate::bytes::{crc32, crc32_of, le_bytes, le_value, read_le_u16, read_le_u32};
use crate::digest::{sha256_hex, sha256_hex_of};

verus! {

/// Logical block size used by partition-map foundations.
pub const SECTOR_SIZE: u64 = 512;
/// Android sparse image magic.
pub const ANDROID_SPARSE_MAGIC: u32 = 0xed26_ff3a;
/// Sparse RAW chunk type.
pub const SPARSE_CHUNK_RAW: u32 = 0xcac1;
/// Sparse FILL chunk type.
pub const SPARSE_CHUNK_FILL: u32 = 0xcac2;
/// Sparse DONT_CARE chunk type.
pub const SPARSE_CHUNK_DONT_CARE: u32 = 0xcac3;
/// Sparse CRC32 chunk type.
pub const SPARSE_CHUNK_CRC32: u32 = 0xcac4;

/// Bounded disk-image interpretation limits.
#[derive(Debug, Clone, Copy, PartialEq, Eq)]
pub struct DiskImageLimits {
    /// Maximum expanded/normalized image bytes.
    pub max_output_bytes: u64,
    /// Maximum Android sparse chunks accepted.
    pub max_sparse_chunks: u32,
    /// Maximum partition-table entries inspected.
    pub max_partition_entries: u32,
}

impl Default for DiskImageLimits {
    fn default() -> (r: Self)
        ensures
            r.max_output_bytes == 16 * 1024 * 1024 * 1024,
            r.max_sparse_chunks == 1_000_000,
            r.max_partition_entries == 16_384,
    {
        DiskImageLimits {
            max_output_bytes: 16 * 1024 * 1024 * 1024,
            max_sparse_chunks: 1_000_000,
            max_partition_entries: 16_384,
        }
    }
}

/// Source image encoding.
#[derive(Debug, Clone, Copy, PartialEq, Eq, Structural)]
pub enum DiskImageFormat {
    /// Byte-for-byte raw image.
    Raw,
    /// Android sparse image container.
    AndroidSparse,
}

/// Whether normalized bytes are defined by source evidence.
#[derive(Debug, Clone, Copy, PartialEq, Eq, Structural)]
pub enum SourceCoverageKind {
    /// Exact bytes are mechanically defined by the source encoding.
    Defined,
    /// Source encoding intentionally leaves this normalized range unspecified.
    Unspecified,
}

/// One exact non-overlapping normalized byte range.
#[derive(Debug, Clone, Copy, PartialEq, Eq, Structural)]
pub struct SourceCoverageRange {
    /// Inclusive normalized byte start.
    pub byte_start: u64,
    /// Exclusive normalized byte end.
    pub byte_end_exclusive: u64,
    /// Evidence status for the normalized bytes.
    pub kind: SourceCoverageKind,
}

/// Failures while normalizing, encoding, inspecting or materializing disk images.
#[derive(Debug, Clone, PartialEq, Eq)]
pub enum C01Error {
    /// Exact source must be an Object Revision.
    InvalidSourceRevision,
    /// Workspace scope must be canonical.
    InvalidWorkspaceRef,
    /// A configured bound is zero.
    InvalidLimits,
    /// Expanded/normalized image exceeds configured bounds.
    OutputTooLarge,
    /// Sparse chunk count exceeds configured bounds.
    TooManySparseChunks,
    /// Partition table declares too many entries.
    TooManyPartitionEntries,
    /// Sparse encoding is malformed or unsupported.
    MalformedSparse(&'static str),
    /// Sparse CRC evidence disagrees with normalized bytes.
    SparseCrcMismatch,
    /// Raw-to-sparse conversion requires block alignment.
    SparseAlignment,
    /// Numeric byte/LBA accounting overflowed.
    AccountingOverflow,
    /// Requested partition does not exist in the exact report.
    PartitionNotFound,
    /// Report and normalized source are not the same exact projection.
    SourceBindingMismatch,
    /// Materialization range is outside normalized bytes.
    PartitionOutOfBounds,
    /// Materialization would invent bytes from sparse DONT_CARE coverage.
    UnspecifiedPartitionBytes,
    /// A supplied registration has invalid endpoint kinds.
    InvalidPartitionRegistration,
    /// A supplied registration does not describe exact partition bytes.
    PartitionRegistrationMismatch,
}

/// Abstract content of a normalized image.
pub ghost struct DiskImageView {
    /// Lowercase hex SHA-256 of the source encoding.
    pub source_sha256: Seq<char>,
    /// Lowercase hex SHA-256 of the normalized bytes.
    pub normalized_sha256: Seq<char>,
    /// Source encoding.
    pub source_format: DiskImageFormat,
    /// Normalized bytes.
    pub bytes: Seq<u8>,
    /// Source coverage of the normalized bytes.
    pub coverage: Seq<SourceCoverageRange>,
}

/// Immutable normalized disk-image bytes plus exact source-coverage truth.
#[derive(Debug)]
pub struct NormalizedDiskImage {
    source_sha256: String,
    normalized_sha256: String,
    source_format: DiskImageFormat,
    bytes: Vec<u8>,
    source_coverage: Vec<SourceCoverageRange>,
}

impl View for NormalizedDiskImage {
    type V = DiskImageView;

    closed spec fn view(&self) -> DiskImageView {
        DiskImageView {
            source_sha256: self.source_sha256@,
            normalized_sha256: self.normalized_sha256@,
            source_format: self.source_format,
            bytes: self.bytes@,
            coverage: self.source_coverage@,
        }
    }
}

/// `cov` is a sorted, gap-free partition of `[0, len)` into non-empty ranges whose neighbours
/// always differ in kind.
pub open spec fn coverage_wf(len: nat, cov: Seq<SourceCoverageRange>) -> bool {
    &&& (len == 0 <==> cov.len() == 0)
    &&& cov.len() > 0 ==> cov[0].byte_start == 0 && cov.last().byte_end_exclusive == len
    &&& forall|i: int| 0 <= i < cov.len() ==> #[trigger] cov[i].byte_start < cov[i].byte_end_exclusive
        && cov[i].byte_end_exclusive <= len
    &&& forall|i: int| 0 <= i < cov.len() - 1 ==> #[trigger] adjacent_ok(cov, i)
}

/// Range `i` ends where range `i + 1` starts, and their kinds differ.
pub open spec fn adjacent_ok(cov: Seq<SourceCoverageRange>, i: int) -> bool {
    cov[i].byte_end_exclusive == cov[i + 1].byte_start && cov[i].kind != cov[i + 1].kind
}

/// An unspecified range covers only zero bytes.
pub open spec fn range_zero(bytes: Seq<u8>, r: SourceCoverageRange) -> bool {
    r.kind == SourceCoverageKind::Unspecified ==> forall|j: int|
        r.byte_start <= j < r.byte_end_exclusive ==> #[trigger] bytes[j] == 0
}

/// Every byte inside an unspecified range is zero.
pub open spec fn unspecified_zero(bytes: Seq<u8>, cov: Seq<SourceCoverageRange>) -> bool {
    forall|i: int| 0 <= i < cov.len() ==> range_zero(bytes, #[trigger] cov[i])
}

/// The invariant every normalized image satisfies.
pub open spec fn image_wf(v: DiskImageView) -> bool {
    coverage_wf(v.bytes.len(), v.coverage) && unspecified_zero(v.bytes, v.coverage)
}

impl NormalizedDiskImage {
    #[verifier::type_invariant]
    closed spec fn inv(self) -> bool {
        image_wf(self@)
    }
}

impl NormalizedDiskImage {
    /// SHA-256 of the exact original source encoding.
    pub fn source_sha256(&self) -> (r: &str)
        ensures
            r@ == self@.source_sha256,
    {
        self.source_sha256.as_str()
    }

    /// SHA-256 of exact normalized bytes.
    pub fn normalized_sha256(&self) -> (r: &str)
        ensures
            r@ == self@.normalized_sha256,
    {
        self.normalized_sha256.as_str()
    }

    /// Detected source encoding.
    pub fn source_format(&self) -> (r: DiskImageFormat)
        ensures
            r == self@.source_format,
    {
        self.source_format
    }

    /// Read-only normalized bytes.
    pub fn bytes(&self) -> (r: &[u8])
        ensures
            r@ == self@.bytes,
    {
        self.bytes.as_slice()
    }

    /// Exact source-defined/unspecified normalized ranges.
    pub fn source_coverage(&self) -> (r: &[SourceCoverageRange])
        ensures
            r@ == self@.coverage,
            image_wf(self@),
    {
        proof {
            use_type_invariant(self);
        }
        self.source_coverage.as_slice()
    }
}

/// All configured bounds are non-zero.
pub open spec fn limits_valid(limits: DiskImageLimits) -> bool {
    limits.max_output_bytes != 0 && limits.max_sparse_chunks != 0
        && limits.max_partition_entries != 0
}

pub(crate) fn validate_limits(limits: DiskImageLimits) -> (r: Result<(), C01Error>)
    ensures
        r is Ok <==> limits_valid(limits),
        r matches Err(e) ==> e == C01Error::InvalidLimits,
{
    if limits.max_output_bytes == 0 || limits.max_sparse_chunks == 0
        || limits.max_partition_entries == 0 {
        return Err(C01Error::InvalidLimits);
    }
    Ok(())
}

/// Append a coverage range, merging it into the previous range when they touch and agree.
pub open spec fn push_coverage_spec(
    coverage: Seq<SourceCoverageRange>,
    start: u64,
    end: u64,
    kind: SourceCoverageKind,
) -> Seq<SourceCoverageRange> {
    if start == end {
        coverage
    } else if coverage.len() > 0 && coverage.last().byte_end_exclusive == start
        && coverage.last().kind == kind {
        coverage.update(
            coverage.len() - 1,
            SourceCoverageRange { byte_end_exclusive: end, ..coverage.last() },
        )
    } else {
        coverage.push(SourceCoverageRange { byte_start: start, byte_end_exclusive: end, kind })
    }
}

fn push_coverage(
    coverage: &mut Vec<SourceCoverageRange>,
    start: u64,
    end: u64,
    kind: SourceCoverageKind,
)
    ensures
        final(coverage)@ == push_coverage_spec(old(coverage)@, start, end, kind),
{
    if start == end {
        return;
    }
    let n = coverage.len();
    if n > 0 {
        let last = coverage[n - 1];
        if last.byte_end_exclusive == start && last.kind == kind {
            coverage.set(
                n - 1,
                SourceCoverageRange { byte_start: last.byte_start, byte_end_exclusive: end, kind },
            );
            return;
        }
    }
    coverage.push(SourceCoverageRange { byte_start: start, byte_end_exclusive: end, kind });
}


/// Parsed Android sparse file header fields.
#[derive(Debug, Clone, Copy)]
pub struct SparseHeader {
    /// Major format version.
    pub major: u64,
    /// Declared file header size.
    pub file_header_size: u64,
    /// Declared chunk header size.
    pub chunk_header_size: u64,
    /// Output block size.
    pub block_size: u64,
    /// Declared output blocks.
    pub total_blocks: u64,
    /// Declared chunks.
    pub total_chunks: u64,
    /// Declared whole-image CRC-32 (zero when absent).
    pub image_checksum: u64,
}

/// Header fields of a sparse image at their little-endian offsets.
pub open spec fn sparse_header_spec(src: Seq<u8>) -> SparseHeader {
    SparseHeader {
        major: le_value(src, 4, 2) as u64,
        file_header_size: le_value(src, 8, 2) as u64,
        chunk_header_size: le_value(src, 10, 2) as u64,
        block_size: le_value(src, 12, 4) as u64,
        total_blocks: le_value(src, 16, 4) as u64,
        total_chunks: le_value(src, 20, 4) as u64,
        image_checksum: le_value(src, 24, 4) as u64,
    }
}

/// The failure, if any, that the sparse file header alone determines.
pub open spec fn sparse_header_fault(src: Seq<u8>, limits: DiskImageLimits) -> Option<C01Error> {
    let h = sparse_header_spec(src);
    if src.len() < 28 {
        Some(C01Error::MalformedSparse("header is truncated"))
    } else if h.major != 1 {
        Some(C01Error::MalformedSparse("unsupported major version"))
    } else if h.file_header_size < 28 || h.file_header_size > src.len() {
        Some(C01Error::MalformedSparse("invalid file header size"))
    } else if h.chunk_header_size < 12 {
        Some(C01Error::MalformedSparse("invalid chunk header size"))
    } else if h.block_size == 0 {
        Some(C01Error::MalformedSparse("block size is zero"))
    } else if h.total_chunks > limits.max_sparse_chunks {
        Some(C01Error::TooManySparseChunks)
    } else if h.total_blocks * h.block_size > limits.max_output_bytes {
        Some(C01Error::OutputTooLarge)
    } else if h.total_blocks * h.block_size > usize::MAX {
        Some(C01Error::OutputTooLarge)
    } else {
        None
    }
}

/// `n` zero bytes.
pub open spec fn zeros(n: nat) -> Seq<u8> {
    Seq::new(n, |i: int| 0u8)
}

/// `fill` repeated `n` times.
pub open spec fn repeat_fill(fill: Seq<u8>, n: nat) -> Seq<u8>
    decreases n,
{
    if n == 0 {
        Seq::empty()
    } else {
        repeat_fill(fill, (n - 1) as nat) + fill
    }
}

/// Decoder state after a chunk: cursor, output, coverage, produced blocks.
pub type SparseState = (int, Seq<u8>, Seq<SourceCoverageRange>, int);

/// Accept a decoded chunk unless the output grew past the configured bound.
pub open spec fn sparse_accept(
    limits: DiskImageLimits,
    chunk_end: int,
    out: Seq<u8>,
    cov: Seq<SourceCoverageRange>,
    produced: int,
) -> Result<SparseState, C01Error> {
    if out.len() > limits.max_output_bytes {
        Err(C01Error::OutputTooLarge)
    } else {
        Ok((chunk_end, out, cov, produced))
    }
}

/// Decode the one chunk whose header starts at `cursor`.
pub open spec fn sparse_chunk_spec(
    src: Seq<u8>,
    h: SparseHeader,
    limits: DiskImageLimits,
    cursor: int,
    out: Seq<u8>,
    cov: Seq<SourceCoverageRange>,
    produced: int,
) -> Result<SparseState, C01Error> {
    let chs = h.chunk_header_size as int;
    let header_end = cursor + chs;
    if header_end > usize::MAX {
        Err(C01Error::AccountingOverflow)
    } else if header_end > src.len() {
        Err(C01Error::MalformedSparse("chunk header is truncated"))
    } else {
        let chunk_type = le_value(src, cursor, 2);
        let chunk_blocks = le_value(src, cursor + 4, 4);
        let total_size = le_value(src, cursor + 8, 4);
        let chunk_end = cursor + total_size;
        let chunk_bytes = chunk_blocks * h.block_size;
        let range_start = out.len() as int;
        let range_end = range_start + chunk_bytes;
        if total_size < chs {
            Err(C01Error::MalformedSparse("chunk total size is too small"))
        } else if chunk_end > usize::MAX {
            Err(C01Error::AccountingOverflow)
        } else if chunk_end > src.len() {
            Err(C01Error::MalformedSparse("chunk payload is truncated"))
        } else if range_end > u64::MAX {
            Err(C01Error::AccountingOverflow)
        } else if chunk_type == SPARSE_CHUNK_RAW {
            if chunk_bytes > usize::MAX {
                Err(C01Error::OutputTooLarge)
            } else if total_size != chs + chunk_bytes {
                Err(C01Error::MalformedSparse("RAW chunk size mismatch"))
            } else {
                sparse_accept(
                    limits,
                    chunk_end,
                    out + src.subrange(header_end, chunk_end),
                    push_coverage_spec(
                        cov,
                        range_start as u64,
                        range_end as u64,
                        SourceCoverageKind::Defined,
                    ),
                    produced + chunk_blocks,
                )
            }
        } else if chunk_type == SPARSE_CHUNK_FILL {
            if total_size != chs + 4 || chunk_blocks == 0 {
                Err(C01Error::MalformedSparse("FILL chunk size mismatch"))
            } else if chunk_bytes / 4 > usize::MAX {
                Err(C01Error::OutputTooLarge)
            } else if chunk_bytes % 4 != 0 {
                Err(C01Error::MalformedSparse("FILL chunk is not four-byte aligned"))
            } else {
                sparse_accept(
                    limits,
                    chunk_end,
                    out + repeat_fill(src.subrange(header_end, header_end + 4), (chunk_bytes / 4) as nat),
                    push_coverage_spec(
                        cov,
                        range_start as u64,
                        range_end as u64,
                        SourceCoverageKind::Defined,
                    ),
                    produced + chunk_blocks,
                )
            }
        } else if chunk_type == SPARSE_CHUNK_DONT_CARE {
            if total_size != chs || chunk_blocks == 0 {
                Err(C01Error::MalformedSparse("DONT_CARE chunk size mismatch"))
            } else if range_end > usize::MAX {
                Err(C01Error::OutputTooLarge)
            } else {
                sparse_accept(
                    limits,
                    chunk_end,
                    out + zeros(chunk_bytes as nat),
                    push_coverage_spec(
                        cov,
                        range_start as u64,
                        range_end as u64,
                        SourceCoverageKind::Unspecified,
                    ),
                    produced + chunk_blocks,
                )
            }
        } else if chunk_type == SPARSE_CHUNK_CRC32 {
            if total_size != chs + 4 || chunk_blocks != 0 {
                Err(C01Error::MalformedSparse("CRC32 chunk size mismatch"))
            } else if crc32_of(out) != le_value(src, header_end, 4) {
                Err(C01Error::SparseCrcMismatch)
            } else {
                sparse_accept(limits, chunk_end, out, cov, produced)
            }
        } else {
            Err(C01Error::MalformedSparse("unknown chunk type"))
        }
    }
}

/// Checks once every declared chunk has been decoded.
pub open spec fn sparse_finish_spec(
    src: Seq<u8>,
    h: SparseHeader,
    cursor: int,
    out: Seq<u8>,
    cov: Seq<SourceCoverageRange>,
    produced: int,
) -> Result<(Seq<u8>, Seq<SourceCoverageRange>), C01Error> {
    if cursor != src.len() {
        Err(C01Error::MalformedSparse("trailing bytes remain after declared chunks"))
    } else if produced != h.total_blocks || out.len() != h.total_blocks * h.block_size {
        Err(C01Error::MalformedSparse("expanded block count does not match header"))
    } else if h.image_checksum != 0 && crc32_of(out) != h.image_checksum {
        Err(C01Error::SparseCrcMismatch)
    } else {
        Ok((out, cov))
    }
}

/// Decode `remaining` chunks starting at `cursor`, then apply the final checks.
pub open spec fn sparse_chunks_spec(
    src: Seq<u8>,
    h: SparseHeader,
    limits: DiskImageLimits,
    cursor: int,
    remaining: nat,
    out: Seq<u8>,
    cov: Seq<SourceCoverageRange>,
    produced: int,
) -> Result<(Seq<u8>, Seq<SourceCoverageRange>), C01Error>
    decreases remaining,
{
    if remaining == 0 {
        sparse_finish_spec(src, h, cursor, out, cov, produced)
    } else {
        match sparse_chunk_spec(src, h, limits, cursor, out, cov, produced) {
            Err(e) => Err(e),
            Ok(st) => sparse_chunks_spec(src, h, limits, st.0, (remaining - 1) as nat, st.1, st.2, st.3),
        }
    }
}

/// The normalized bytes and coverage that an Android sparse image decodes to, or its failure.
pub open spec fn sparse_decode_spec(src: Seq<u8>, limits: DiskImageLimits) -> Result<
    (Seq<u8>, Seq<SourceCoverageRange>),
    C01Error,
> {
    match sparse_header_fault(src, limits) {
        Some(e) => Err(e),
        None => {
            let h = sparse_header_spec(src);
            sparse_chunks_spec(
                src,
                h,
                limits,
                h.file_header_size as int,
                h.total_chunks as nat,
                Seq::empty(),
                Seq::empty(),
                0,
            )
        },
    }
}


/// Narrow a `u64` to `usize` when it fits.
pub fn u64_to_usize(v: u64) -> (r: Option<usize>)
    ensures
        r is Some <==> v <= usize::MAX,
        r matches Some(x) ==> x == v,
{
    if v <= usize::MAX as u64 {
        Some(v as usize)
    } else {
        None
    }
}

/// Append `src[start..end]`.
pub fn append_range(out: &mut Vec<u8>, src: &[u8], start: usize, end: usize)
    requires
        start <= end <= src@.len(),
    ensures
        final(out)@ == old(out)@ + src@.subrange(start as int, end as int),
{
    let mut i = start;
    while i < end
        invariant
            start <= i <= end <= src@.len(),
            out@ == old(out)@ + src@.subrange(start as int, i as int),
        decreases end - i,
    {
        out.push(src[i]);
        assert(out@ =~= old(out)@ + src@.subrange(start as int, i as int + 1));
        i = i + 1;
    }
}

/// Append `fill` (four bytes) `count` times.
fn append_fill(out: &mut Vec<u8>, fill: &[u8], count: usize)
    requires
        fill@.len() == 4,
    ensures
        final(out)@ == old(out)@ + repeat_fill(fill@, count as nat),
{
    let mut k: usize = 0;
    assert(old(out)@ =~= old(out)@ + repeat_fill(fill@, 0));
    while k < count
        invariant
            k <= count,
            fill@.len() == 4,
            out@ == old(out)@ + repeat_fill(fill@, k as nat),
        decreases count - k,
    {
        let ghost before = out@;
        append_range(out, fill, 0, 4);
        assert(fill@.subrange(0, 4) =~= fill@);
        assert(repeat_fill(fill@, (k + 1) as nat) == repeat_fill(fill@, k as nat) + fill@);
        assert(out@ =~= old(out)@ + repeat_fill(fill@, (k + 1) as nat));
        k = k + 1;
    }
}

/// Append `n` zero bytes.
pub fn append_zeros(out: &mut Vec<u8>, n: usize)
    ensures
        final(out)@ == old(out)@ + zeros(n as nat),
{
    let mut k: usize = 0;
    while k < n
        invariant
            k <= n,
            out@ == old(out)@ + zeros(k as nat),
        decreases n - k,
    {
        out.push(0u8);
        assert(out@ =~= old(out)@ + zeros((k + 1) as nat));
        k = k + 1;
    }
}

fn parse_sparse_header(src: &[u8]) -> (h: SparseHeader)
    requires
        src@.len() >= 28,
    ensures
        h == sparse_header_spec(src@),
        h.chunk_header_size <= 0xffff,
        h.file_header_size <= 0xffff,
        h.block_size <= 0xffff_ffff,
        h.total_blocks <= 0xffff_ffff,
        h.total_chunks <= 0xffff_ffff,
        h.image_checksum <= 0xffff_ffff,
{
    SparseHeader {
        major: read_le_u16(src, 4).unwrap() as u64,
        file_header_size: read_le_u16(src, 8).unwrap() as u64,
        chunk_header_size: read_le_u16(src, 10).unwrap() as u64,
        block_size: read_le_u32(src, 12).unwrap() as u64,
        total_blocks: read_le_u32(src, 16).unwrap() as u64,
        total_chunks: read_le_u32(src, 20).unwrap() as u64,
        image_checksum: read_le_u32(src, 24).unwrap() as u64,
    }
}

fn decode_sparse_chunk(
    src: &[u8],
    h: SparseHeader,
    limits: DiskImageLimits,
    cursor: usize,
    out: &mut Vec<u8>,
    cov: &mut Vec<SourceCoverageRange>,
    produced: u64,
) -> (r: Result<(usize, u64), C01Error>)
    requires
        12 <= h.chunk_header_size <= 0xffff,
        h.block_size <= 0xffff_ffff,
        produced <= u64::MAX - 0xffff_ffff,
    ensures
        r matches Ok((c, p)) ==> sparse_chunk_spec(
            src@,
            h,
            limits,
            cursor as int,
            old(out)@,
            old(cov)@,
            produced as int,
        ) == Ok::<SparseState, C01Error>((c as int, final(out)@, final(cov)@, p as int)),
        r matches Err(e) ==> sparse_chunk_spec(
            src@,
            h,
            limits,
            cursor as int,
            old(out)@,
            old(cov)@,
            produced as int,
        ) == Err::<SparseState, C01Error>(e),
{
    let chs = h.chunk_header_size as usize;
    let header_end = match cursor.checked_add(chs) {
        Some(v) => v,
        None => return Err(C01Error::AccountingOverflow),
    };
    if header_end > src.len() {
        return Err(C01Error::MalformedSparse("chunk header is truncated"));
    }
    let chunk_type = read_le_u16(src, cursor).unwrap() as u32;
    let chunk_blocks = read_le_u32(src, cursor + 4).unwrap() as u64;
    let total_size32 = read_le_u32(src, cursor + 8).unwrap();
    let total_size = total_size32 as u64;
    if total_size < h.chunk_header_size {
        return Err(C01Error::MalformedSparse("chunk total size is too small"));
    }
    let chunk_end = match u64_to_usize(total_size) {
        Some(t) => match cursor.checked_add(t) {
            Some(v) => v,
            None => return Err(C01Error::AccountingOverflow),
        },
        None => return Err(C01Error::AccountingOverflow),
    };
    if chunk_end > src.len() {
        return Err(C01Error::MalformedSparse("chunk payload is truncated"));
    }
    assert(chunk_blocks * h.block_size <= 0xffff_ffff * 0xffff_ffff) by (nonlinear_arith)
        requires
            chunk_blocks <= 0xffff_ffff,
            h.block_size <= 0xffff_ffff,
    ;
    let chunk_bytes = chunk_blocks * h.block_size;
    let range_start = out.len() as u64;
    let range_end = match range_start.checked_add(chunk_bytes) {
        Some(v) => v,
        None => return Err(C01Error::AccountingOverflow),
    };
    let next_produced;
    if chunk_type == SPARSE_CHUNK_RAW {
        if chunk_bytes > usize::MAX as u64 {
            return Err(C01Error::OutputTooLarge);
        }
        if total_size != h.chunk_header_size + chunk_bytes {
            return Err(C01Error::MalformedSparse("RAW chunk size mismatch"));
        }
        append_range(out, src, header_end, chunk_end);
        push_coverage(cov, range_start, range_end, SourceCoverageKind::Defined);
        next_produced = produced + chunk_blocks;
    } else if chunk_type == SPARSE_CHUNK_FILL {
        if total_size != h.chunk_header_size + 4 || chunk_blocks == 0 {
            return Err(C01Error::MalformedSparse("FILL chunk size mismatch"));
        }
        let count = match u64_to_usize(chunk_bytes / 4) {
            Some(c) => c,
            None => return Err(C01Error::OutputTooLarge),
        };
        if chunk_bytes % 4 != 0 {
            return Err(C01Error::MalformedSparse("FILL chunk is not four-byte aligned"));
        }
        let fill = &src[header_end..header_end + 4];
        append_fill(out, fill, count);
        push_coverage(cov, range_start, range_end, SourceCoverageKind::Defined);
        next_produced = produced + chunk_blocks;
    } else if chunk_type == SPARSE_CHUNK_DONT_CARE {
        if total_size != h.chunk_header_size || chunk_blocks == 0 {
            return Err(C01Error::MalformedSparse("DONT_CARE chunk size mismatch"));
        }
        if range_end > usize::MAX as u64 {
            return Err(C01Error::OutputTooLarge);
        }
        append_zeros(out, chunk_bytes as usize);
        push_coverage(cov, range_start, range_end, SourceCoverageKind::Unspecified);
        next_produced = produced + chunk_blocks;
    } else if chunk_type == SPARSE_CHUNK_CRC32 {
        if total_size != h.chunk_header_size + 4 || chunk_blocks != 0 {
            return Err(C01Error::MalformedSparse("CRC32 chunk size mismatch"));
        }
        let expected = read_le_u32(src, header_end).unwrap();
        if crc32(out.as_slice()) != expected {
            return Err(C01Error::SparseCrcMismatch);
        }
        next_produced = produced;
    } else {
        return Err(C01Error::MalformedSparse("unknown chunk type"));
    }
    if out.len() as u64 > limits.max_output_bytes {
        return Err(C01Error::OutputTooLarge);
    }
    Ok((chunk_end, next_produced))
}


/// The sparse magic is present at offset zero.
pub open spec fn has_sparse_magic(src: Seq<u8>) -> bool {
    src.len() >= 4 && le_value(src, 0, 4) == ANDROID_SPARSE_MAGIC
}

/// Coverage of a raw image: one defined range over all bytes, none for an empty image.
pub open spec fn raw_coverage(len: nat) -> Seq<SourceCoverageRange> {
    if len == 0 {
        Seq::empty()
    } else {
        seq![SourceCoverageRange { byte_start: 0, byte_end_exclusive: len as u64, kind: SourceCoverageKind::Defined }]
    }
}

/// What `normalize_disk_image` returns for `src` under `limits`.
pub open spec fn normalize_spec(src: Seq<u8>, limits: DiskImageLimits) -> Result<DiskImageView, C01Error> {
    if !limits_valid(limits) {
        Err(C01Error::InvalidLimits)
    } else if has_sparse_magic(src) {
        match sparse_decode_spec(src, limits) {
            Err(e) => Err(e),
            Ok(d) => Ok(
                DiskImageView {
                    source_sha256: sha256_hex_of(src),
                    normalized_sha256: sha256_hex_of(d.0),
                    source_format: DiskImageFormat::AndroidSparse,
                    bytes: d.0,
                    coverage: d.1,
                },
            ),
        }
    } else if src.len() > limits.max_output_bytes {
        Err(C01Error::OutputTooLarge)
    } else {
        Ok(
            DiskImageView {
                source_sha256: sha256_hex_of(src),
                normalized_sha256: sha256_hex_of(src),
                source_format: DiskImageFormat::Raw,
                bytes: src,
                coverage: raw_coverage(src.len()),
            },
        )
    }
}

fn normalize_android_sparse(src: &[u8], source_sha256: String, limits: DiskImageLimits) -> (r: Result<
    NormalizedDiskImage,
    C01Error,
>)
    ensures
        r matches Ok(img) ==> sparse_decode_spec(src@, limits) == Ok::<
            (Seq<u8>, Seq<SourceCoverageRange>),
            C01Error,
        >((img@.bytes, img@.coverage)) && img@.source_sha256 == source_sha256@
            && img@.normalized_sha256 == sha256_hex_of(img@.bytes) && img@.source_format
            == DiskImageFormat::AndroidSparse && image_wf(img@),
        r matches Err(e) ==> sparse_decode_spec(src@, limits) == Err::<
            (Seq<u8>, Seq<SourceCoverageRange>),
            C01Error,
        >(e),
{
    if src.len() < 28 {
        return Err(C01Error::MalformedSparse("header is truncated"));
    }
    let h = parse_sparse_header(src);
    if h.major != 1 {
        return Err(C01Error::MalformedSparse("unsupported major version"));
    }
    if h.file_header_size < 28 || h.file_header_size > src.len() as u64 {
        return Err(C01Error::MalformedSparse("invalid file header size"));
    }
    if h.chunk_header_size < 12 {
        return Err(C01Error::MalformedSparse("invalid chunk header size"));
    }
    if h.block_size == 0 {
        return Err(C01Error::MalformedSparse("block size is zero"));
    }
    if h.total_chunks > limits.max_sparse_chunks as u64 {
        return Err(C01Error::TooManySparseChunks);
    }
    assert(h.total_blocks * h.block_size <= 0xffff_ffff * 0xffff_ffff) by (nonlinear_arith)
        requires
            h.total_blocks <= 0xffff_ffff,
            h.block_size <= 0xffff_ffff,
    ;
    let expanded_len = h.total_blocks * h.block_size;
    if expanded_len > limits.max_output_bytes {
        return Err(C01Error::OutputTooLarge);
    }
    if expanded_len > usize::MAX as u64 {
        return Err(C01Error::OutputTooLarge);
    }
    let mut output: Vec<u8> = Vec::new();
    let mut coverage: Vec<SourceCoverageRange> = Vec::new();
    let mut cursor = h.file_header_size as usize;
    let mut produced: u64 = 0;
    let total = h.total_chunks;
    let ghost whole = sparse_decode_spec(src@, limits);
    let mut i: u64 = 0;
    while i < total
        invariant
            h == sparse_header_spec(src@),
            12 <= h.chunk_header_size <= 0xffff,
            h.block_size <= 0xffff_ffff,
            total == h.total_chunks,
            total <= 0xffff_ffff,
            i <= total,
            produced <= i * 0xffff_ffff,
            whole == sparse_decode_spec(src@, limits),
            whole == sparse_chunks_spec(
                src@,
                h,
                limits,
                cursor as int,
                (total - i) as nat,
                output@,
                coverage@,
                produced as int,
            ),
        decreases total - i,
    {
        assert(i * 0xffff_ffff + 0xffff_ffff <= 0xffff_ffff * 0xffff_ffff + 0xffff_ffff)
            by (nonlinear_arith)
            requires
                i < 0xffff_ffff,
        ;
        let ghost st_out = output@;
        let ghost st_cov = coverage@;
        let step = decode_sparse_chunk(src, h, limits, cursor, &mut output, &mut coverage, produced);
        match step {
            Ok((c, p)) => {
                assert(p <= produced + 0xffff_ffff) by {
                    let chunk_blocks = le_value(src@, cursor + 4, 4);
                    crate::bytes::lemma_le_value_bounds(src@, cursor + 4, 4);
                    reveal_with_fuel(crate::bytes::pow256, 5);
                }
                cursor = c;
                produced = p;
            },
            Err(e) => {
                assert(sparse_chunk_spec(src@, h, limits, cursor as int, st_out, st_cov, produced as int)
                    == Err::<SparseState, C01Error>(e));
                assert(whole == Err::<(Seq<u8>, Seq<SourceCoverageRange>), C01Error>(e));
                return Err(e);
            },
        }
        assert(produced <= (i + 1) * 0xffff_ffff) by (nonlinear_arith)
            requires
                produced <= i * 0xffff_ffff + 0xffff_ffff,
        ;
        i = i + 1;
    }
    if cursor != src.len() {
        return Err(C01Error::MalformedSparse("trailing bytes remain after declared chunks"));
    }
    if produced != h.total_blocks || output.len() as u64 != expanded_len {
        return Err(C01Error::MalformedSparse("expanded block count does not match header"));
    }
    if h.image_checksum != 0 && crc32(output.as_slice()) as u64 != h.image_checksum {
        return Err(C01Error::SparseCrcMismatch);
    }
    let normalized_sha256 = sha256_hex(output.as_slice());
    proof {
        lemma_sparse_decode_wf(src@, limits);
    }
    Ok(
        NormalizedDiskImage {
            source_sha256,
            normalized_sha256,
            source_format: DiskImageFormat::AndroidSparse,
            bytes: output,
            source_coverage: coverage,
        },
    )
}

/// Normalize a raw or Android sparse image without mutating source bytes.
///
/// Android `DONT_CARE` ranges are expanded as zero bytes only for positional normalization and are
/// retained as [`SourceCoverageKind::Unspecified`]; callers may not materialize those bytes as
/// canonical partition truth. Malformed sparse input, CRC disagreement, overflow and configured
/// bounds fail closed.
pub fn normalize_disk_image(source_bytes: &[u8], limits: DiskImageLimits) -> (r: Result<
    NormalizedDiskImage,
    C01Error,
>)
    ensures
        r matches Ok(img) ==> normalize_spec(source_bytes@, limits) == Ok::<DiskImageView, C01Error>(img@),
        r matches Ok(img) ==> image_wf(img@),
        r matches Err(e) ==> normalize_spec(source_bytes@, limits) == Err::<DiskImageView, C01Error>(e),
{
    validate_limits(limits)?;
    let source_sha256 = sha256_hex(source_bytes);
    if source_bytes.len() >= 4 && read_le_u32(source_bytes, 0).unwrap() == ANDROID_SPARSE_MAGIC {
        let r = normalize_android_sparse(source_bytes, source_sha256, limits);
        r
    } else {
        let output_len = source_bytes.len() as u64;
        if output_len > limits.max_output_bytes {
            return Err(C01Error::OutputTooLarge);
        }
        let mut coverage: Vec<SourceCoverageRange> = Vec::new();
        if output_len > 0 {
            coverage.push(
                SourceCoverageRange {
                    byte_start: 0,
                    byte_end_exclusive: output_len,
                    kind: SourceCoverageKind::Defined,
                },
            );
        }
        let mut bytes: Vec<u8> = Vec::new();
        append_range(&mut bytes, source_bytes, 0, source_bytes.len());
        assert(bytes@ =~= source_bytes@);
        assert(coverage@ =~= raw_coverage(source_bytes@.len()));
        let normalized_sha256 = sha256_hex(source_bytes);
        Ok(
            NormalizedDiskImage {
                source_sha256,
                normalized_sha256,
                source_format: DiskImageFormat::Raw,
                bytes,
                source_coverage: coverage,
            },
        )
    }
}


pub(crate) fn copy_coverage(cov: &[SourceCoverageRange]) -> (r: Vec<SourceCoverageRange>)
    ensures
        r@ == cov@,
{
    let mut r: Vec<SourceCoverageRange> = Vec::new();
    let mut i: usize = 0;
    while i < cov.len()
        invariant
            i <= cov@.len(),
            r@ == cov@.subrange(0, i as int),
        decreases cov@.len() - i,
    {
        r.push(cov[i]);
        assert(r@ =~= cov@.subrange(0, i as int + 1));
        i = i + 1;
    }
    assert(r@ =~= cov@);
    r
}

impl Clone for NormalizedDiskImage {
    fn clone(&self) -> (r: Self)
        ensures
            r@ == self@,
    {
        proof {
            use_type_invariant(self);
        }
        let mut bytes: Vec<u8> = Vec::new();
        append_range(&mut bytes, self.bytes.as_slice(), 0, self.bytes.len());
        assert(bytes@ =~= self.bytes@);
        NormalizedDiskImage {
            source_sha256: self.source_sha256.clone(),
            normalized_sha256: self.normalized_sha256.clone(),
            source_format: self.source_format,
            bytes,
            source_coverage: copy_coverage(self.source_coverage.as_slice()),
        }
    }
}

/// Appending a range at the end of well-formed coverage keeps it well formed, and zero bytes
/// appended under an unspecified range keep unspecified bytes zero.
pub proof fn lemma_push_coverage_wf(
    out: Seq<u8>,
    cov: Seq<SourceCoverageRange>,
    data: Seq<u8>,
    kind: SourceCoverageKind,
)
    requires
        coverage_wf(out.len(), cov),
        unspecified_zero(out, cov),
        out.len() + data.len() <= u64::MAX,
        kind == SourceCoverageKind::Unspecified ==> forall|j: int| 0 <= j < data.len() ==> data[j] == 0,
    ensures
        ({
            let c2 = push_coverage_spec(cov, out.len() as u64, (out.len() + data.len()) as u64, kind);
            coverage_wf((out + data).len(), c2) && unspecified_zero(out + data, c2)
        }),
{
    let o2 = out + data;
    if cov.len() > 1 {
        assert(adjacent_ok(cov, cov.len() - 2));
    }
    let c2 = push_coverage_spec(cov, out.len() as u64, (out.len() + data.len()) as u64, kind);
    if data.len() == 0 {
        assert(o2 =~= out);
    } else {
        let n = out.len() + data.len();
        assert(o2.len() == n);
        if cov.len() > 0 && cov.last().byte_end_exclusive == out.len() && cov.last().kind == kind {
            let upd = SourceCoverageRange { byte_end_exclusive: n as u64, ..cov.last() };
            assert(c2 == cov.update(cov.len() - 1, upd));
            assert(c2.len() == cov.len());
            assert forall|i: int| 0 <= i < c2.len() implies #[trigger] c2[i].byte_start
                < c2[i].byte_end_exclusive && c2[i].byte_end_exclusive <= n by {
                if i < c2.len() - 1 {
                    assert(c2[i] == cov[i]);
                }
            }
            assert forall|i: int| 0 <= i < c2.len() - 1 implies #[trigger] adjacent_ok(c2, i) by {
                assert(c2[i] == cov[i]);
                lemma_coverage_adjacent(out.len(), cov, i);
                if i + 1 < c2.len() - 1 {
                    assert(c2[i + 1] == cov[i + 1]);
                }
            }
        } else {
            let nr = SourceCoverageRange {
                byte_start: out.len() as u64,
                byte_end_exclusive: n as u64,
                kind,
            };
            assert(c2 == cov.push(nr));
            assert(c2.len() == cov.len() + 1);
            if cov.len() > 0 {
                assert(cov.last().byte_end_exclusive == out.len());
            }
            assert forall|i: int| 0 <= i < c2.len() implies #[trigger] c2[i].byte_start
                < c2[i].byte_end_exclusive && c2[i].byte_end_exclusive <= n by {
                if i < cov.len() {
                    assert(c2[i] == cov[i]);
                }
            }
            assert forall|i: int| 0 <= i < c2.len() - 1 implies #[trigger] adjacent_ok(c2, i) by {
                assert(c2[i] == cov[i]);
                if i + 1 < cov.len() {
                    lemma_coverage_adjacent(out.len(), cov, i);
                    assert(c2[i + 1] == cov[i + 1]);
                }
            }
        }
        assert forall|i: int| 0 <= i < cov.len() && i < c2.len() - 1 || (0 <= i < cov.len() && c2.len()
            > cov.len()) implies range_zero(o2, #[trigger] c2[i]) by {
            assert(c2[i] == cov[i]);
            assert(range_zero(out, cov[i]));
            if cov[i].kind == SourceCoverageKind::Unspecified {
                assert forall|j: int| cov[i].byte_start <= j < cov[i].byte_end_exclusive implies #[trigger] o2[j]
                    == 0 by {
                    assert(o2[j] == out[j]);
                }
            }
        }
        let last = c2.len() - 1;
        assert(range_zero(o2, c2[last])) by {
            if c2[last].kind == SourceCoverageKind::Unspecified {
                assert forall|j: int| c2[last].byte_start <= j < c2[last].byte_end_exclusive implies #[trigger] o2[j]
                    == 0 by {
                    if j < out.len() {
                        assert(c2.len() == cov.len());
                        assert(range_zero(out, cov[last]));
                        assert(o2[j] == out[j]);
                    } else {
                        assert(o2[j] == data[j - out.len()]);
                    }
                }
            }
        }
        assert forall|i: int| 0 <= i < c2.len() implies range_zero(o2, #[trigger] c2[i]) by {
            if i != last {
                assert(i < cov.len());
            }
        }
    }
}

/// `repeat_fill` of a four-byte pattern is four bytes per repetition.
pub proof fn lemma_repeat_fill_len(fill: Seq<u8>, n: nat)
    requires
        fill.len() == 4,
    ensures
        repeat_fill(fill, n).len() == 4 * n,
    decreases n,
{
    if n > 0 {
        lemma_repeat_fill_len(fill, (n - 1) as nat);
    }
}

proof fn lemma_repeat_fill_index(fill: Seq<u8>, n: nat, k: int)
    requires
        fill.len() == 4,
        0 <= k < 4 * n,
    ensures
        repeat_fill(fill, n)[k] == fill[k % 4],
    decreases n,
{
    lemma_repeat_fill_len(fill, n);
    lemma_repeat_fill_len(fill, (n - 1) as nat);
    if k < 4 * (n - 1) {
        lemma_repeat_fill_index(fill, (n - 1) as nat, k);
    } else {
        assert(k % 4 == k - 4 * (n - 1)) by (nonlinear_arith)
            requires
                4 * (n - 1) <= k < 4 * n,
        ;
    }
}

/// A FILL chunk (type 0xCAC2 in the first two little-endian bytes of its header) keeps the
/// output produced so far and appends `blocks * block_size` bytes (blocks: the little-endian word
/// at header byte 4), each equal to the byte of the four-byte value after the chunk header at
/// the same position modulo 4.
pub proof fn lemma_fill_chunk_output(
    src: Seq<u8>,
    h: SparseHeader,
    limits: DiskImageLimits,
    cursor: int,
    out: Seq<u8>,
    cov: Seq<SourceCoverageRange>,
    produced: int,
)
    requires
        0 <= cursor,
        le_value(src, cursor, 2) == 0xcac2,
        sparse_chunk_spec(src, h, limits, cursor, out, cov, produced) is Ok,
    ensures
        ({
            let o = sparse_chunk_spec(src, h, limits, cursor, out, cov, produced)->Ok_0.1;
            let header_end = cursor + h.chunk_header_size;
            &&& o.len() == out.len() + le_value(src, cursor + 4, 4) * h.block_size
            &&& o.subrange(0, out.len() as int) == out
            &&& header_end + 4 <= src.len()
            &&& forall|k: int| 0 <= k < o.len() - out.len() ==> #[trigger] o[out.len() + k] == src[header_end + k % 4]
        }),
{
    let chs = h.chunk_header_size as int;
    let header_end = cursor + chs;
    let chunk_blocks = le_value(src, cursor + 4, 4);
    let chunk_bytes = chunk_blocks * h.block_size;
    let fill = src.subrange(header_end, header_end + 4);
    let n = (chunk_bytes / 4) as nat;
    crate::bytes::lemma_le_value_bounds(src, cursor + 4, 4);
    assert(chunk_bytes >= 0) by (nonlinear_arith)
        requires
            chunk_bytes == chunk_blocks * h.block_size,
            chunk_blocks >= 0,
            h.block_size >= 0,
    ;
    assert(chunk_bytes == 4 * n);
    lemma_repeat_fill_len(fill, n);
    let o = sparse_chunk_spec(src, h, limits, cursor, out, cov, produced)->Ok_0.1;
    assert(o == out + repeat_fill(fill, n));
    assert forall|k: int| 0 <= k < o.len() - out.len() implies #[trigger] o[out.len() + k] == src[header_end + k % 4] by {
        lemma_repeat_fill_index(fill, n, k);
        assert(0 <= k % 4 < 4);
    }
    assert(o.subrange(0, out.len() as int) =~= out);
}

/// A RAW chunk (type 0xCAC1) keeps the output produced so far and appends exactly the chunk's
/// payload bytes: the source bytes from the end of its header to `cursor + total_size` (the
/// little-endian word at header byte 8), which number `blocks * block_size`.
pub proof fn lemma_raw_chunk_output(
    src: Seq<u8>,
    h: SparseHeader,
    limits: DiskImageLimits,
    cursor: int,
    out: Seq<u8>,
    cov: Seq<SourceCoverageRange>,
    produced: int,
)
    requires
        0 <= cursor,
        le_value(src, cursor, 2) == 0xcac1,
        sparse_chunk_spec(src, h, limits, cursor, out, cov, produced) is Ok,
    ensures
        ({
            let o = sparse_chunk_spec(src, h, limits, cursor, out, cov, produced)->Ok_0.1;
            let header_end = cursor + h.chunk_header_size;
            let chunk_end = cursor + le_value(src, cursor + 8, 4);
            &&& header_end <= chunk_end <= src.len()
            &&& chunk_end - header_end == le_value(src, cursor + 4, 4) * h.block_size
            &&& o == out + src.subrange(header_end, chunk_end)
        }),
{
}

/// A DONT_CARE chunk (type 0xCAC3) keeps the output produced so far and appends
/// `blocks * block_size` zero bytes.
pub proof fn lemma_dont_care_chunk_output(
    src: Seq<u8>,
    h: SparseHeader,
    limits: DiskImageLimits,
    cursor: int,
    out: Seq<u8>,
    cov: Seq<SourceCoverageRange>,
    produced: int,
)
    requires
        0 <= cursor,
        le_value(src, cursor, 2) == 0xcac3,
        sparse_chunk_spec(src, h, limits, cursor, out, cov, produced) is Ok,
    ensures
        ({
            let o = sparse_chunk_spec(src, h, limits, cursor, out, cov, produced)->Ok_0.1;
            &&& o.len() == out.len() + le_value(src, cursor + 4, 4) * h.block_size
            &&& o.subrange(0, out.len() as int) == out
            &&& forall|k: int| out.len() <= k < o.len() ==> #[trigger] o[k] == 0
        }),
{
    let chunk_blocks = le_value(src, cursor + 4, 4);
    let chunk_bytes = chunk_blocks * h.block_size;
    crate::bytes::lemma_le_value_bounds(src, cursor + 4, 4);
    assert(chunk_bytes >= 0) by (nonlinear_arith)
        requires
            chunk_bytes == chunk_blocks * h.block_size,
            chunk_blocks >= 0,
            h.block_size >= 0,
    ;
    let o = sparse_chunk_spec(src, h, limits, cursor, out, cov, produced)->Ok_0.1;
    assert(o == out + zeros(chunk_bytes as nat));
    assert(o.subrange(0, out.len() as int) =~= out);
}

/// Decoding one chunk keeps the image invariant.
pub proof fn lemma_sparse_chunk_wf(
    src: Seq<u8>,
    h: SparseHeader,
    limits: DiskImageLimits,
    cursor: int,
    out: Seq<u8>,
    cov: Seq<SourceCoverageRange>,
    produced: int,
)
    requires
        0 <= cursor,
        coverage_wf(out.len(), cov),
        unspecified_zero(out, cov),
        sparse_chunk_spec(src, h, limits, cursor, out, cov, produced) is Ok,
    ensures
        ({
            let st = sparse_chunk_spec(src, h, limits, cursor, out, cov, produced)->Ok_0;
            coverage_wf(st.1.len(), st.2) && unspecified_zero(st.1, st.2) && cursor <= st.0
        }),
{
    let chs = h.chunk_header_size as int;
    let header_end = cursor + chs;
    let chunk_type = le_value(src, cursor, 2);
    let chunk_blocks = le_value(src, cursor + 4, 4);
    let total_size = le_value(src, cursor + 8, 4);
    let chunk_end = cursor + total_size;
    let chunk_bytes = chunk_blocks * h.block_size;
    assert(header_end <= src.len());
    assert(total_size >= chs);
    assert(chunk_end <= src.len());
    assert(out.len() + chunk_bytes <= u64::MAX);
    crate::bytes::lemma_le_value_bounds(src, cursor + 4, 4);
    assert(chunk_bytes >= 0) by (nonlinear_arith)
        requires
            chunk_bytes == chunk_blocks * h.block_size,
            chunk_blocks >= 0,
            h.block_size >= 0,
    ;
    if chunk_type == SPARSE_CHUNK_RAW {
        let data = src.subrange(header_end, chunk_end);
        assert(data.len() == chunk_bytes);
        lemma_push_coverage_wf(out, cov, data, SourceCoverageKind::Defined);
    } else if chunk_type == SPARSE_CHUNK_FILL {
        assert(total_size == chs + 4);
        assert(src.subrange(header_end, header_end + 4).len() == 4);
        let data = repeat_fill(src.subrange(header_end, header_end + 4), (chunk_bytes / 4) as nat);
        lemma_repeat_fill_len(src.subrange(header_end, header_end + 4), (chunk_bytes / 4) as nat);
        assert(data.len() == chunk_bytes);
        lemma_push_coverage_wf(out, cov, data, SourceCoverageKind::Defined);
    } else if chunk_type == SPARSE_CHUNK_DONT_CARE {
        assert(zeros(chunk_bytes as nat).len() == chunk_bytes);
        lemma_push_coverage_wf(out, cov, zeros(chunk_bytes as nat), SourceCoverageKind::Unspecified);
    }
}

/// Decoding any number of chunks keeps the image invariant.
pub proof fn lemma_sparse_chunks_wf(
    src: Seq<u8>,
    h: SparseHeader,
    limits: DiskImageLimits,
    cursor: int,
    remaining: nat,
    out: Seq<u8>,
    cov: Seq<SourceCoverageRange>,
    produced: int,
)
    requires
        0 <= cursor,
        coverage_wf(out.len(), cov),
        unspecified_zero(out, cov),
        sparse_chunks_spec(src, h, limits, cursor, remaining, out, cov, produced) is Ok,
    ensures
        ({
            let d = sparse_chunks_spec(src, h, limits, cursor, remaining, out, cov, produced)->Ok_0;
            coverage_wf(d.0.len(), d.1) && unspecified_zero(d.0, d.1)
        }),
    decreases remaining,
{
    if remaining > 0 {
        lemma_sparse_chunk_wf(src, h, limits, cursor, out, cov, produced);
        let st = sparse_chunk_spec(src, h, limits, cursor, out, cov, produced)->Ok_0;
        lemma_sparse_chunks_wf(src, h, limits, st.0, (remaining - 1) as nat, st.1, st.2, st.3);
    }
}

/// Every successful sparse decoding satisfies the image invariant.
pub proof fn lemma_sparse_decode_wf(src: Seq<u8>, limits: DiskImageLimits)
    requires
        sparse_decode_spec(src, limits) is Ok,
    ensures
        coverage_wf(sparse_decode_spec(src, limits)->Ok_0.0.len(), sparse_decode_spec(src, limits)->Ok_0.1),
        unspecified_zero(sparse_decode_spec(src, limits)->Ok_0.0, sparse_decode_spec(src, limits)->Ok_0.1),
{
    let h = sparse_header_spec(src);
    lemma_sparse_chunks_wf(
        src,
        h,
        limits,
        h.file_header_size as int,
        h.total_chunks as nat,
        Seq::empty(),
        Seq::empty(),
        0,
    );
}

/// Every image that `normalize_spec` accepts satisfies the image invariant.
pub proof fn lemma_normalize_wf(src: Seq<u8>, limits: DiskImageLimits)
    requires
        normalize_spec(src, limits) is Ok,
    ensures
        image_wf(normalize_spec(src, limits)->Ok_0),
{
    if limits_valid(limits) && has_sparse_magic(src) {
        lemma_sparse_decode_wf(src, limits);
    }
}


/// Neighbouring ranges of well-formed coverage touch and differ in kind.
pub proof fn lemma_coverage_adjacent(len: nat, cov: Seq<SourceCoverageRange>, i: int)
    requires
        coverage_wf(len, cov),
        0 <= i < cov.len() - 1,
    ensures
        cov[i].byte_end_exclusive == cov[i + 1].byte_start,
        cov[i].kind != cov[i + 1].kind,
{
    assert(adjacent_ok(cov, i));
}


/// Sparse file header for an encoded image.
pub open spec fn sparse_file_header_bytes(block: int, total_blocks: int, chunks: int, crc: int) -> Seq<u8> {
    le_bytes(ANDROID_SPARSE_MAGIC as int, 4) + le_bytes(1, 2) + le_bytes(0, 2) + le_bytes(28, 2)
        + le_bytes(12, 2) + le_bytes(block, 4) + le_bytes(total_blocks, 4) + le_bytes(chunks, 4)
        + le_bytes(crc, 4)
}

/// One encoded chunk: RAW for a defined range, DONT_CARE for an unspecified one.
pub open spec fn sparse_chunk_bytes(bytes: Seq<u8>, r: SourceCoverageRange, block: int) -> Seq<u8> {
    let len = r.byte_end_exclusive - r.byte_start;
    match r.kind {
        SourceCoverageKind::Defined => le_bytes(SPARSE_CHUNK_RAW as int, 2) + le_bytes(0, 2)
            + le_bytes(len / block, 4) + le_bytes(12 + len, 4) + bytes.subrange(
            r.byte_start as int,
            r.byte_end_exclusive as int,
        ),
        SourceCoverageKind::Unspecified => le_bytes(SPARSE_CHUNK_DONT_CARE as int, 2) + le_bytes(0, 2)
            + le_bytes(len / block, 4) + le_bytes(12, 4),
    }
}

/// The encoded chunks for `cov`, in order.
pub open spec fn sparse_chunks_bytes(bytes: Seq<u8>, cov: Seq<SourceCoverageRange>, block: int) -> Seq<u8>
    decreases cov.len(),
{
    if cov.len() == 0 {
        Seq::empty()
    } else {
        sparse_chunks_bytes(bytes, cov.drop_last(), block) + sparse_chunk_bytes(bytes, cov.last(), block)
    }
}

/// Some coverage boundary is not a multiple of `block`.
pub open spec fn coverage_misaligned(cov: Seq<SourceCoverageRange>, block: int) -> bool {
    exists|i: int|
        0 <= i < cov.len() && ((#[trigger] cov[i].byte_start) as int % block != 0
            || cov[i].byte_end_exclusive as int % block != 0)
}

/// Some defined range is too long for a RAW chunk's 32-bit size field.
pub open spec fn coverage_raw_too_long(cov: Seq<SourceCoverageRange>) -> bool {
    exists|i: int|
        0 <= i < cov.len() && (#[trigger] cov[i].kind) == SourceCoverageKind::Defined && cov[i].byte_end_exclusive
            - cov[i].byte_start + 12 > u32::MAX
}

/// The failure, if any, of encoding `v` with `block`-byte sparse blocks.
pub open spec fn encode_fault(v: DiskImageView, block: u32, limits: DiskImageLimits) -> Option<C01Error> {
    let len = v.bytes.len();
    if !limits_valid(limits) {
        Some(C01Error::InvalidLimits)
    } else if block == 0 || (len as int) % (block as int) != 0 {
        Some(C01Error::SparseAlignment)
    } else if (len as int) / (block as int) > u32::MAX || v.coverage.len() > u32::MAX {
        Some(C01Error::AccountingOverflow)
    } else if v.coverage.len() > limits.max_sparse_chunks {
        Some(C01Error::TooManySparseChunks)
    } else if coverage_misaligned(v.coverage, block as int) {
        Some(C01Error::SparseAlignment)
    } else if coverage_raw_too_long(v.coverage) {
        Some(C01Error::AccountingOverflow)
    } else {
        None
    }
}

/// The header-level checks of `encode_fault` all pass.
pub open spec fn encode_header_ok(v: DiskImageView, block: u32, limits: DiskImageLimits) -> bool {
    &&& limits_valid(limits)
    &&& block != 0
    &&& (v.bytes.len() as int) % (block as int) == 0
    &&& (v.bytes.len() as int) / (block as int) <= u32::MAX
    &&& v.coverage.len() <= u32::MAX
    &&& v.coverage.len() <= limits.max_sparse_chunks
}

/// The sparse encoding of `v`, when `encode_fault` reports none.
pub open spec fn encode_spec(v: DiskImageView, block: u32) -> Seq<u8> {
    sparse_file_header_bytes(
        block as int,
        (v.bytes.len() as int) / (block as int),
        v.coverage.len() as int,
        crc32_of(v.bytes) as int,
    ) + sparse_chunks_bytes(v.bytes, v.coverage, block as int)
}

/// The result of encoding `v`: the first header or coverage fault, else the encoding when it
/// fits the configured output bound, else `OutputTooLarge`.
pub open spec fn encode_result(v: DiskImageView, block: u32, limits: DiskImageLimits) -> Result<Seq<u8>, C01Error> {
    match encode_fault(v, block, limits) {
        Some(e) => Err(e),
        None => if encode_spec(v, block).len() > limits.max_output_bytes {
            Err(C01Error::OutputTooLarge)
        } else {
            Ok(encode_spec(v, block))
        },
    }
}

/// Encode normalized bytes into Android sparse format while preserving source-coverage semantics.
///
/// Defined ranges become RAW chunks and unspecified ranges become DONT_CARE chunks. Requires
/// block-aligned normalized size and coverage, plus configured chunk/output bounds.
#[verifier::rlimit(50)]
pub fn encode_android_sparse(image: &NormalizedDiskImage, block_size: u32, limits: DiskImageLimits) -> (r:
    Result<Vec<u8>, C01Error>)
    ensures
        match encode_result(image@, block_size, limits) {
            Ok(bytes) => r matches Ok(out) && out@ == bytes,
            Err(e) => r == Err::<Vec<u8>, C01Error>(e),
        },
{
    proof {
        use_type_invariant(image);
    }
    let ghost v = image@;
    validate_limits(limits)?;
    if block_size == 0 {
        return Err(C01Error::SparseAlignment);
    }
    let block = block_size as u64;
    let total_len = image.bytes.len() as u64;
    if total_len % block != 0 {
        return Err(C01Error::SparseAlignment);
    }
    let total_blocks = total_len / block;
    if total_blocks > u32::MAX as u64 || image.source_coverage.len() as u64 > u32::MAX as u64 {
        return Err(C01Error::AccountingOverflow);
    }
    let chunks = image.source_coverage.len() as u32;
    if chunks > limits.max_sparse_chunks {
        return Err(C01Error::TooManySparseChunks);
    }
    let n = image.source_coverage.len();
    assert(encode_header_ok(v, block_size, limits));
    let mut i: usize = 0;
    while i < n
        invariant
            n == v.coverage.len(),
            v == image@,
            block == block_size,
            block > 0,
            i <= n,
            encode_header_ok(v, block_size, limits),
            forall|k: int|
                0 <= k < i ==> (#[trigger] v.coverage[k]).byte_start as int % (block as int) == 0
                    && v.coverage[k].byte_end_exclusive as int % (block as int) == 0,
        decreases n - i,
    {
        let range = image.source_coverage[i];
        if range.byte_start % block != 0 || range.byte_end_exclusive % block != 0 {
            assert(v.coverage[i as int] == range);
            assert(coverage_misaligned(v.coverage, block_size as int));
            return Err(C01Error::SparseAlignment);
        }
        i = i + 1;
    }
    assert(!coverage_misaligned(v.coverage, block_size as int));
    let mut i: usize = 0;
    while i < n
        invariant
            n == v.coverage.len(),
            v == image@,
            i <= n,
            encode_header_ok(v, block_size, limits),
            !coverage_misaligned(v.coverage, block_size as int),
            forall|k: int|
                0 <= k < i ==> !((#[trigger] v.coverage[k]).kind == SourceCoverageKind::Defined
                    && v.coverage[k].byte_end_exclusive - v.coverage[k].byte_start + 12 > u32::MAX),
            image_wf(v),
        decreases n - i,
    {
        let range = image.source_coverage[i];
        assert(range.byte_start < range.byte_end_exclusive);
        if range.kind == SourceCoverageKind::Defined && range.byte_end_exclusive - range.byte_start
            > (u32::MAX - 12) as u64 {
            assert(v.coverage[i as int] == range);
            assert(coverage_raw_too_long(v.coverage));
            return Err(C01Error::AccountingOverflow);
        }
        i = i + 1;
    }
    assert(!coverage_misaligned(v.coverage, block_size as int));
    let mut output: Vec<u8> = Vec::new();
    crate::bytes::push_le_u32(&mut output, ANDROID_SPARSE_MAGIC);
    crate::bytes::push_le_u16(&mut output, 1);
    crate::bytes::push_le_u16(&mut output, 0);
    crate::bytes::push_le_u16(&mut output, 28);
    crate::bytes::push_le_u16(&mut output, 12);
    crate::bytes::push_le_u32(&mut output, block_size);
    crate::bytes::push_le_u32(&mut output, total_blocks as u32);
    crate::bytes::push_le_u32(&mut output, chunks);
    crate::bytes::push_le_u32(&mut output, crc32(image.bytes.as_slice()));
    let ghost header = output@;
    assert(header =~= sparse_file_header_bytes(
        block_size as int,
        (v.bytes.len() as int) / (block_size as int),
        v.coverage.len() as int,
        crc32_of(v.bytes) as int,
    ));
    let mut i: usize = 0;
    assert(v.coverage.take(0) =~= Seq::<SourceCoverageRange>::empty());
    while i < n
        invariant
            n == v.coverage.len(),
            v == image@,
            block == block_size,
            block > 0,
            i <= n,
            image_wf(v),
            v.bytes.len() <= usize::MAX,
            forall|k: int|
                0 <= k < n ==> !((#[trigger] v.coverage[k]).kind == SourceCoverageKind::Defined
                    && v.coverage[k].byte_end_exclusive - v.coverage[k].byte_start + 12 > u32::MAX),
            forall|k: int|
                0 <= k < n ==> (#[trigger] v.coverage[k]).byte_start as int % (block as int) == 0
                    && v.coverage[k].byte_end_exclusive as int % (block as int) == 0,
            (v.bytes.len() as int) / (block as int) <= u32::MAX,
            output@ == header + sparse_chunks_bytes(v.bytes, v.coverage.take(i as int), block as int),
        decreases n - i,
    {
        let range = image.source_coverage[i];
        assert(range == v.coverage[i as int]);
        assert(range.byte_start < range.byte_end_exclusive && range.byte_end_exclusive <= v.bytes.len());
        let range_len = range.byte_end_exclusive - range.byte_start;
        assert(range_len / block <= (v.bytes.len() as int) / (block as int)) by (nonlinear_arith)
            requires
                range_len <= v.bytes.len(),
                block > 0,
        ;
        let chunk_blocks = (range_len / block) as u32;
        let ghost before = output@;
        match range.kind {
            SourceCoverageKind::Defined => {
                crate::bytes::push_le_u16(&mut output, SPARSE_CHUNK_RAW as u16);
                crate::bytes::push_le_u16(&mut output, 0);
                crate::bytes::push_le_u32(&mut output, chunk_blocks);
                crate::bytes::push_le_u32(&mut output, 12 + range_len as u32);
                append_range(
                    &mut output,
                    image.bytes.as_slice(),
                    range.byte_start as usize,
                    range.byte_end_exclusive as usize,
                );
            },
            SourceCoverageKind::Unspecified => {
                crate::bytes::push_le_u16(&mut output, SPARSE_CHUNK_DONT_CARE as u16);
                crate::bytes::push_le_u16(&mut output, 0);
                crate::bytes::push_le_u32(&mut output, chunk_blocks);
                crate::bytes::push_le_u32(&mut output, 12);
            },
        }
        assert(output@ =~= before + sparse_chunk_bytes(v.bytes, v.coverage[i as int], block as int));
        assert(v.coverage.take(i as int + 1).drop_last() =~= v.coverage.take(i as int));
        i = i + 1;
    }
    assert(v.coverage.take(n as int) =~= v.coverage);
    proof {
        if coverage_misaligned(v.coverage, block_size as int) {
            let k = choose|k: int|
                0 <= k < v.coverage.len() && ((#[trigger] v.coverage[k].byte_start) as int % (block_size as int) != 0
                    || v.coverage[k].byte_end_exclusive as int % (block_size as int) != 0);
            assert(v.coverage[k].byte_start as int % (block as int) == 0);
        }
        if coverage_raw_too_long(v.coverage) {
            let k = choose|k: int|
                0 <= k < v.coverage.len() && (#[trigger] v.coverage[k].kind) == SourceCoverageKind::Defined
                    && v.coverage[k].byte_end_exclusive - v.coverage[k].byte_start + 12 > u32::MAX;
            assert(v.coverage[k].kind == SourceCoverageKind::Defined);
        }
    }
    if output.len() as u64 > limits.max_output_bytes {
        return Err(C01Error::OutputTooLarge);
    }
    Ok(output)
}

} // verus!
