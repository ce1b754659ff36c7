//! Filesystem signatures, provider-observation validation, read coverage and exact file
//! materialization over immutable filesystem images.
use vstd::prelude::*;
use crate::bytes::{le_value, read_le_u16, read_le_u32};
use crate::identity::EntityRef;
use crate::partition_map::{push_string, string_views};
use crate::text::{decimal, owned, push_decimal};
use crate::text_map::{key_bytes, TextMap};
use crate::android::{lemma_run_steps_err, run_steps};

verus! {

/// Longest declared name accepted for a recovered file.
pub const MAX_DECLARED_NAME_BYTES: usize = 8_192;

/// Filesystem families a provider may implement.
#[derive(Debug, Clone, Copy, PartialEq, Eq, Structural)]
pub enum FilesystemKind {
    /// Linux ext2/3/4 family, delivered as ext4 provider capability.
    Ext4,
    /// Enhanced Read-Only File System.
    Erofs,
    /// Flash-Friendly File System.
    F2fs,
    /// SquashFS.
    SquashFs,
    /// UBI container layer.
    Ubi,
    /// UBIFS filesystem layer.
    Ubifs,
    /// FAT12/16/32 family.
    Fat,
    /// NTFS.
    Ntfs,
    /// ISO-9660 optical filesystem.
    Iso9660,
    /// No supported signature was mechanically recognized.
    Unknown,
}

/// Stable family name of a filesystem kind.
pub open spec fn filesystem_kind_name(k: FilesystemKind) -> Seq<char> {
    match k {
        FilesystemKind::Ext4 => "ext4"@,
        FilesystemKind::Erofs => "erofs"@,
        FilesystemKind::F2fs => "f2fs"@,
        FilesystemKind::SquashFs => "squashfs"@,
        FilesystemKind::Ubi => "ubi"@,
        FilesystemKind::Ubifs => "ubifs"@,
        FilesystemKind::Fat => "fat"@,
        FilesystemKind::Ntfs => "ntfs"@,
        FilesystemKind::Iso9660 => "iso9660"@,
        FilesystemKind::Unknown => "unknown"@,
    }
}

impl FilesystemKind {
    /// Stable human-readable provider family name.
    pub fn as_str(self) -> (r: &'static str)
        ensures
            r@ == filesystem_kind_name(self),
    {
        match self {
            FilesystemKind::Ext4 => "ext4",
            FilesystemKind::Erofs => "erofs",
            FilesystemKind::F2fs => "f2fs",
            FilesystemKind::SquashFs => "squashfs",
            FilesystemKind::Ubi => "ubi",
            FilesystemKind::Ubifs => "ubifs",
            FilesystemKind::Fat => "fat",
            FilesystemKind::Ntfs => "ntfs",
            FilesystemKind::Iso9660 => "iso9660",
            FilesystemKind::Unknown => "unknown",
        }
    }
}

/// Truth status of one filesystem interpretation.
#[derive(Debug, Clone, Copy, PartialEq, Eq, Structural)]
pub enum FilesystemAssessment {
    /// Provider evidence covers the filesystem without unsupported or unknown regions.
    Complete,
    /// Useful filesystem evidence exists but coverage or feature support is incomplete.
    Partial,
    /// No trustworthy filesystem inventory could be established.
    Inconclusive,
}

/// Mechanically detected source filesystem evidence.
#[derive(Debug)]
pub struct FilesystemDetection {
    /// Detected filesystem family.
    pub kind: FilesystemKind,
    /// Exact signature observation used for the classification.
    pub evidence: Vec<String>,
}

/// Read-coverage classification over exact source bytes.
#[derive(Debug, Clone, Copy, PartialEq, Eq, Structural)]
pub enum FilesystemCoverageKind {
    /// Bytes were mechanically interpreted by the provider and may back exact file extents.
    Read,
    /// Bytes are mechanically classified as free or unallocated space.
    Unallocated,
    /// The provider did not establish ownership or meaning for this range.
    Unknown,
    /// The provider identified a range whose feature or encoding it cannot safely interpret.
    Unsupported,
}

/// One exact source byte range in a coverage projection.
#[derive(Debug, Clone, Copy, PartialEq, Eq, Structural)]
pub struct FilesystemCoverageRange {
    /// Inclusive source byte start.
    pub byte_start: u64,
    /// Exclusive source byte end.
    pub byte_end_exclusive: u64,
    /// Coverage classification.
    pub kind: FilesystemCoverageKind,
}

/// Filesystem entry kind.
#[derive(Debug, Clone, Copy, PartialEq, Eq, Structural)]
pub enum FilesystemEntryKind {
    /// Regular file.
    File,
    /// Directory.
    Directory,
    /// Symbolic-link-like entry, never followed while materializing.
    Symlink,
    /// Device, socket, FIFO or other special entry.
    Special,
}

/// How much file content a provider has established.
#[derive(Debug, Clone, Copy, PartialEq, Eq, Structural)]
pub enum FilesystemContentState {
    /// Exact regular-file bytes are reconstructable from the retained extents.
    Exact,
    /// Metadata is retained but exact file bytes are not established.
    MetadataOnly,
    /// The provider encountered an unsupported content feature.
    Unsupported,
}

/// One logical file extent in reconstruction order.
#[derive(Debug, Clone, Copy, PartialEq, Eq, Structural)]
pub enum FilesystemExtent {
    /// Exact source bytes.
    Data {
        /// Inclusive source byte start.
        source_start: u64,
        /// Exclusive source byte end.
        source_end_exclusive: u64,
    },
    /// Filesystem-defined zero or hole bytes.
    Zero {
        /// Logical zero-byte length.
        length: u64,
    },
}

/// The logical length of an extent, when it is a non-empty range or a non-empty hole.
pub open spec fn extent_len_spec(x: FilesystemExtent) -> Option<u64> {
    match x {
        FilesystemExtent::Data { source_start, source_end_exclusive } => if source_end_exclusive > source_start {
            Some((source_end_exclusive - source_start) as u64)
        } else {
            None
        },
        FilesystemExtent::Zero { length } => if length > 0 {
            Some(length)
        } else {
            None
        },
    }
}

impl FilesystemExtent {
    /// Logical length of the extent; `InvalidExtent` for an empty or inverted one.
    pub fn logical_len(&self) -> (r: Result<u64, C02Error>)
        ensures
            r matches Ok(n) ==> extent_len_spec(*self) == Some(n),
            r matches Err(e) ==> extent_len_spec(*self) is None && e == C02Error::InvalidExtent,
    {
        match *self {
            FilesystemExtent::Data { source_start, source_end_exclusive } => if source_end_exclusive > source_start {
                Ok(source_end_exclusive - source_start)
            } else {
                Err(C02Error::InvalidExtent)
            },
            FilesystemExtent::Zero { length } => if length > 0 {
                Ok(length)
            } else {
                Err(C02Error::InvalidExtent)
            },
        }
    }
}

/// Filesystem validation and safety failures.
#[derive(Debug, Clone, PartialEq, Eq)]
pub enum C02Error {
    /// Workspace context is not canonical.
    InvalidWorkspaceRef,
    /// Source must be an exact object revision.
    InvalidSourceRevision,
    /// One or more configured bounds are zero or inconsistent.
    InvalidLimits,
    /// Source bytes exceed configured bounds.
    SourceTooLarge,
    /// Provider alias evidence is malformed.
    InvalidProviderAlias,
    /// The provider does not support the mechanically detected filesystem.
    ProviderUnsupported,
    /// Provider invocation failed.
    Provider(String),
    /// The provider's filesystem family disagrees with mechanical detection.
    ProviderKindMismatch,
    /// A complete claim while unknown or unsupported evidence remains.
    FalseCompletenessClaim,
    /// Provider coverage is malformed, overlapping or out of source bounds.
    InvalidCoverage,
    /// Provider inventory exceeded configured bounds.
    TooManyEntries,
    /// Provider coverage exceeded configured bounds.
    TooManyCoverageRanges,
    /// Entry path violates traversal or canonicalization policy.
    UnsafePath,
    /// Two entries use the same canonical path.
    DuplicatePath,
    /// Metadata or limitation strings exceed configured bounds.
    MetadataTooLarge,
    /// File extent declaration is malformed or out of bounds.
    InvalidExtent,
    /// Exact file extent is not fully backed by `Read` coverage.
    ExtentNotReadable,
    /// Exact file size, extents or digest are inconsistent.
    ExactFileMismatch,
    /// Requested entry is absent.
    EntryNotFound,
    /// Requested entry is not an exact materializable regular file.
    EntryNotMaterializable,
    /// Materialization exceeds configured output bound.
    MaterializationTooLarge,
    /// Materialized digest disagrees with retained exact evidence.
    MaterializedDigestMismatch,
    /// Source, report and context do not describe the same exact revision and bytes.
    SourceBindingMismatch,
    /// Report fields were mutated after inspection.
    ReportIntegrityMismatch,
    /// Registration endpoints are not canonical object/object-revision references.
    InvalidFileRegistration,
    /// Registration digest or size does not match exact materialized bytes.
    FileRegistrationMismatch,
    /// Numeric accounting overflowed.
    AccountingOverflow,
}

/// Bounded resource limits.
#[derive(Debug, Clone, Copy, PartialEq, Eq, Structural)]
pub struct FilesystemLimits {
    /// Maximum accepted filesystem source bytes.
    pub max_source_bytes: u64,
    /// Maximum retained entries.
    pub max_entries: usize,
    /// Maximum retained coverage ranges before gap canonicalization.
    pub max_coverage_ranges: usize,
    /// Maximum extents retained for one file.
    pub max_extents_per_file: usize,
    /// Maximum exact file bytes materialized in one call.
    pub max_materialize_bytes: u64,
    /// Maximum canonical path length in bytes.
    pub max_path_bytes: usize,
    /// Maximum metadata or limitation string length in bytes.
    pub max_string_bytes: usize,
    /// Maximum metadata pairs on a report or entry.
    pub max_metadata_pairs: usize,
}

impl Default for FilesystemLimits {
    fn default() -> (r: Self)
        ensures
            r.max_source_bytes == 16 * 1024 * 1024 * 1024,
            r.max_entries == 1_000_000,
            r.max_coverage_ranges == 1_000_000,
            r.max_extents_per_file == 262_144,
            r.max_materialize_bytes == 4 * 1024 * 1024 * 1024,
            r.max_path_bytes == MAX_DECLARED_NAME_BYTES,
            r.max_string_bytes == 16 * 1024,
            r.max_metadata_pairs == 4_096,
    {
        FilesystemLimits {
            max_source_bytes: 16 * 1024 * 1024 * 1024,
            max_entries: 1_000_000,
            max_coverage_ranges: 1_000_000,
            max_extents_per_file: 262_144,
            max_materialize_bytes: 4 * 1024 * 1024 * 1024,
            max_path_bytes: MAX_DECLARED_NAME_BYTES,
            max_string_bytes: 16 * 1024,
            max_metadata_pairs: 4_096,
        }
    }
}

/// All bounds are non-zero and the path bound does not exceed the declared-name bound.
pub open spec fn filesystem_limits_valid(l: FilesystemLimits) -> bool {
    &&& l.max_source_bytes != 0
    &&& l.max_entries != 0
    &&& l.max_coverage_ranges != 0
    &&& l.max_extents_per_file != 0
    &&& l.max_materialize_bytes != 0
    &&& l.max_path_bytes != 0
    &&& l.max_path_bytes <= MAX_DECLARED_NAME_BYTES
    &&& l.max_string_bytes != 0
    &&& l.max_metadata_pairs != 0
}

/// Reject zero or inconsistent bounds.
pub fn validate_filesystem_limits(limits: FilesystemLimits) -> (r: Result<(), C02Error>)
    ensures
        r is Ok <==> filesystem_limits_valid(limits),
        r matches Err(e) ==> e == C02Error::InvalidLimits,
{
    if limits.max_source_bytes == 0 || limits.max_entries == 0 || limits.max_coverage_ranges == 0
        || limits.max_extents_per_file == 0 || limits.max_materialize_bytes == 0 || limits.max_path_bytes == 0
        || limits.max_path_bytes > MAX_DECLARED_NAME_BYTES || limits.max_string_bytes == 0
        || limits.max_metadata_pairs == 0 {
        return Err(C02Error::InvalidLimits);
    }
    Ok(())
}

/// Exact context for one immutable filesystem source revision.
#[derive(Debug)]
pub struct FilesystemContext {
    /// Workspace owning the source object revision.
    pub workspace_ref: EntityRef,
    /// Authority used for derived plans.
    pub authority_ref: EntityRef,
    /// Exact filesystem source object revision.
    pub source_revision_ref: EntityRef,
}

/// The failure of context validation, if any.
pub open spec fn filesystem_context_fault(c: FilesystemContext) -> Option<C02Error> {
    if c.workspace_ref.entity_kind@ != "core.workspace"@ {
        Some(C02Error::InvalidWorkspaceRef)
    } else if c.source_revision_ref.entity_kind@ != "object.revision"@ {
        Some(C02Error::InvalidSourceRevision)
    } else {
        None
    }
}

/// Reject a context that does not name a workspace and an exact object revision.
pub fn validate_filesystem_context(context: &FilesystemContext) -> (r: Result<(), C02Error>)
    ensures
        r is Ok <==> filesystem_context_fault(*context) is None,
        r matches Err(e) ==> filesystem_context_fault(*context) == Some(e),
{
    if !context.workspace_ref.has_kind("core.workspace") {
        return Err(C02Error::InvalidWorkspaceRef);
    }
    if !context.source_revision_ref.has_kind("object.revision") {
        return Err(C02Error::InvalidSourceRevision);
    }
    Ok(())
}

// ---------------------------------------------------------------------------------------------
// Signature detection
// ---------------------------------------------------------------------------------------------

/// `expected` occurs in `s` at `off`.
pub open spec fn has_bytes_at(s: Seq<u8>, off: int, expected: Seq<u8>) -> bool {
    off + expected.len() <= s.len() && s.subrange(off, off + expected.len()) == expected
}

fn bytes_at(s: &[u8], off: usize, expected: &Vec<u8>) -> (r: bool)
    ensures
        r == has_bytes_at(s@, off as int, expected@),
{
    let n = s.len();
    if off > n || expected.len() > n - off {
        return false;
    }
    let mut i: usize = 0;
    while i < expected.len()
        invariant
            n == s@.len(),
            off + expected@.len() <= s@.len(),
            i <= expected@.len(),
            forall|j: int| 0 <= j < i ==> s@[off + j] == expected@[j],
        decreases expected.len() - i,
    {
        if s[off + i] != expected[i] {
            assert(s@.subrange(off as int, off + expected@.len())[i as int] != expected@[i as int]);
            return false;
        }
        i = i + 1;
    }
    assert(s@.subrange(off as int, off + expected@.len()) =~= expected@);
    true
}

/// The DOS boot signature `55 aa` at bytes 510..512.
pub open spec fn has_boot_signature(s: Seq<u8>) -> bool {
    s.len() >= 512 && s[510] == 0x55 && s[511] == 0xaa
}

fn boot_signature(s: &[u8]) -> (r: bool)
    ensures
        r == has_boot_signature(s@),
{
    s.len() >= 512 && s[510] == 0x55 && s[511] == 0xaa
}

/// Filesystem detection as plain values: kind and evidence lines.
pub ghost struct DetectionView {
    /// Detected family.
    pub kind: FilesystemKind,
    /// Evidence lines.
    pub evidence: Seq<Seq<char>>,
}

impl View for FilesystemDetection {
    type V = DetectionView;

    open spec fn view(&self) -> DetectionView {
        DetectionView { kind: self.kind, evidence: string_views(self.evidence@) }
    }
}

/// A sectors-per-cluster count: a power of two up to 128.
pub open spec fn cluster_size_ok(n: int) -> bool {
    n == 1 || n == 2 || n == 4 || n == 8 || n == 16 || n == 32 || n == 64 || n == 128
}

/// FAT variant for a data-cluster count.
pub open spec fn fat_variant(clusters: int) -> Seq<char> {
    if clusters < 4085 {
        "FAT12"@
    } else if clusters < 65525 {
        "FAT16"@
    } else {
        "FAT32"@
    }
}

/// The FAT detection a validated BIOS parameter block yields, if it is one.
pub open spec fn fat_spec(s: Seq<u8>) -> Option<DetectionView> {
    if !has_boot_signature(s) {
        None
    } else {
        let bps = le_value(s, 11, 2);
        let spc = s[13] as int;
        let reserved = le_value(s, 14, 2);
        let fats = s[16] as int;
        let root = le_value(s, 17, 2);
        let total16 = le_value(s, 19, 2);
        let fatsz16 = le_value(s, 22, 2);
        let total32 = le_value(s, 32, 4);
        let fatsz32 = le_value(s, 36, 4);
        let total = if total16 != 0 { total16 } else { total32 };
        let fatsz = if fatsz16 != 0 { fatsz16 } else { fatsz32 };
        let root_dir_sectors = (root * 32 + bps - 1) / bps;
        let non_data = reserved + fats * fatsz + root_dir_sectors;
        let data = total - non_data;
        let clusters = data / spc;
        if !(bps == 512 || bps == 1024 || bps == 2048 || bps == 4096) || !cluster_size_ok(spc) {
            None
        } else if reserved == 0 || !(fats == 1 || fats == 2) || total == 0 || fatsz == 0 {
            None
        } else if data <= 0 || total > (s.len() as int) / bps || clusters == 0 {
            None
        } else if clusters >= 65525 && (root != 0 || fatsz16 != 0 || fatsz32 == 0) {
            None
        } else if clusters < 65525 && (root == 0 || fatsz16 == 0) {
            None
        } else {
            Some(DetectionView {
                kind: FilesystemKind::Fat,
                evidence: seq![fat_variant(clusters) + " validated BPB geometry with "@ + decimal(clusters as nat) + " data clusters"@],
            })
        }
    }
}

/// Validate a FAT12/16/32 BIOS parameter block and classify the variant by cluster count.
#[verifier::rlimit(30)]
pub fn detect_fat(source: &[u8]) -> (r: Option<FilesystemDetection>)
    ensures
        r is None <==> fat_spec(source@) is None,
        r matches Some(d) ==> fat_spec(source@) == Some(d@),
{
    if !boot_signature(source) {
        return None;
    }
    let bps = read_le_u16(source, 11).unwrap() as u64;
    if !(bps == 512 || bps == 1024 || bps == 2048 || bps == 4096) {
        return None;
    }
    let spc = source[13] as u64;
    if !(spc == 1 || spc == 2 || spc == 4 || spc == 8 || spc == 16 || spc == 32 || spc == 64 || spc == 128) {
        return None;
    }
    let reserved = read_le_u16(source, 14).unwrap() as u64;
    let fats = source[16] as u64;
    let root = read_le_u16(source, 17).unwrap() as u64;
    let total16 = read_le_u16(source, 19).unwrap() as u64;
    let fatsz16 = read_le_u16(source, 22).unwrap() as u64;
    let total32 = read_le_u32(source, 32).unwrap() as u64;
    let fatsz32 = read_le_u32(source, 36).unwrap() as u64;
    if reserved == 0 || !(fats == 1 || fats == 2) {
        return None;
    }
    let total = if total16 != 0 { total16 } else { total32 };
    let fatsz = if fatsz16 != 0 { fatsz16 } else { fatsz32 };
    if total == 0 || fatsz == 0 {
        return None;
    }
    assert(fats * fatsz <= 2 * 0xffff_ffff) by (nonlinear_arith)
        requires
            fats <= 2,
            fatsz <= 0xffff_ffff,
    ;
    let root_dir_sectors = (root * 32 + bps - 1) / bps;
    assert(root_dir_sectors <= root * 32 + bps) by (nonlinear_arith)
        requires
            root_dir_sectors as int == (root * 32 + bps - 1) as int / (bps as int),
            bps >= 1,
    ;
    let non_data = reserved + fats * fatsz + root_dir_sectors;
    if total < non_data {
        return None;
    }
    let data = total - non_data;
    let source_sectors = source.len() as u64 / bps;
    if data == 0 || total > source_sectors {
        return None;
    }
    let clusters = data / spc;
    if clusters == 0 {
        return None;
    }
    if clusters >= 65525 {
        if root != 0 || fatsz16 != 0 || fatsz32 == 0 {
            return None;
        }
    } else if root == 0 || fatsz16 == 0 {
        return None;
    }
    let mut text = if clusters < 4085 {
        owned("FAT12")
    } else if clusters < 65525 {
        owned("FAT16")
    } else {
        owned("FAT32")
    };
    assert(text@ == fat_variant(clusters as int));
    text.append(" validated BPB geometry with ");
    push_decimal(&mut text, clusters);
    text.append(" data clusters");
    assert(text@ =~= fat_variant(clusters as int) + " validated BPB geometry with "@ + decimal(clusters as nat)
        + " data clusters"@);
    let mut evidence: Vec<String> = Vec::new();
    push_string(&mut evidence, text);
    assert(string_views(evidence@) =~= seq![text@]);
    Some(FilesystemDetection { kind: FilesystemKind::Fat, evidence })
}

/// A one-line detection.
pub open spec fn detection_of(kind: FilesystemKind, line: Seq<char>) -> DetectionView {
    DetectionView { kind, evidence: seq![line] }
}

fn detection(kind: FilesystemKind, line: &str) -> (d: FilesystemDetection)
    ensures
        d@ == detection_of(kind, line@),
{
    let mut evidence: Vec<String> = Vec::new();
    push_string(&mut evidence, owned(line));
    assert(string_views(evidence@) =~= seq![line@]);
    FilesystemDetection { kind, evidence }
}

/// The detection the signatures of `s` yield, checked in a fixed order.
pub open spec fn detect_spec(s: Seq<u8>) -> DetectionView {
    if has_bytes_at(s, 3, seq![0x4eu8, 0x54, 0x46, 0x53, 0x20, 0x20, 0x20, 0x20]) && has_boot_signature(s) {
        detection_of(FilesystemKind::Ntfs, "NTFS OEM ID at bytes 3..11"@)
    } else if has_bytes_at(s, 32769, seq![0x43u8, 0x44, 0x30, 0x30, 0x31]) && s.len() > 32768 && s[32768] == 1 {
        detection_of(FilesystemKind::Iso9660, "ISO-9660 primary volume descriptor at sector 16"@)
    } else if has_bytes_at(s, 0, seq![0x68u8, 0x73, 0x71, 0x73]) {
        detection_of(FilesystemKind::SquashFs, "SquashFS magic at byte 0"@)
    } else if has_bytes_at(s, 0, seq![0x55u8, 0x42, 0x49, 0x23]) {
        detection_of(FilesystemKind::Ubi, "UBI erase-counter header magic at byte 0"@)
    } else if has_bytes_at(s, 0, seq![0x31u8, 0x18, 0x10, 0x06]) {
        detection_of(FilesystemKind::Ubifs, "UBIFS node magic at byte 0"@)
    } else if has_bytes_at(s, 1024, seq![0xe2u8, 0xe1, 0xf5, 0xe0]) {
        detection_of(FilesystemKind::Erofs, "EROFS superblock magic at byte 1024"@)
    } else if has_bytes_at(s, 1024, seq![0x10u8, 0x20, 0xf5, 0xf2]) {
        detection_of(FilesystemKind::F2fs, "F2FS superblock magic at byte 1024"@)
    } else if has_bytes_at(s, 1080, seq![0x53u8, 0xef]) {
        detection_of(FilesystemKind::Ext4, "ext filesystem magic at superblock+0x38"@)
    } else {
        match fat_spec(s) {
            Some(d) => d,
            None => detection_of(FilesystemKind::Unknown, "no required C02 filesystem signature recognized"@),
        }
    }
}

/// Detect a filesystem family from exact source signature evidence: NTFS, ISO-9660, SquashFS,
/// UBI, UBIFS, EROFS, F2FS, ext and FAT are tried in that order.
#[verifier::rlimit(30)]
pub fn detect_filesystem(source: &[u8]) -> (d: FilesystemDetection)
    ensures
        d@ == detect_spec(source@),
{
    let ntfs: Vec<u8> = vec![0x4e, 0x54, 0x46, 0x53, 0x20, 0x20, 0x20, 0x20];
    assert(ntfs@ =~= seq![0x4eu8, 0x54, 0x46, 0x53, 0x20, 0x20, 0x20, 0x20]);
    if bytes_at(source, 3, &ntfs) && boot_signature(source) {
        return detection(FilesystemKind::Ntfs, "NTFS OEM ID at bytes 3..11");
    }
    let iso: Vec<u8> = vec![0x43, 0x44, 0x30, 0x30, 0x31];
    assert(iso@ =~= seq![0x43u8, 0x44, 0x30, 0x30, 0x31]);
    if bytes_at(source, 32769, &iso) && source.len() > 32768 && source[32768] == 1 {
        return detection(FilesystemKind::Iso9660, "ISO-9660 primary volume descriptor at sector 16");
    }
    let squash: Vec<u8> = vec![0x68, 0x73, 0x71, 0x73];
    assert(squash@ =~= seq![0x68u8, 0x73, 0x71, 0x73]);
    if bytes_at(source, 0, &squash) {
        return detection(FilesystemKind::SquashFs, "SquashFS magic at byte 0");
    }
    let ubi: Vec<u8> = vec![0x55, 0x42, 0x49, 0x23];
    assert(ubi@ =~= seq![0x55u8, 0x42, 0x49, 0x23]);
    if bytes_at(source, 0, &ubi) {
        return detection(FilesystemKind::Ubi, "UBI erase-counter header magic at byte 0");
    }
    let ubifs: Vec<u8> = vec![0x31, 0x18, 0x10, 0x06];
    assert(ubifs@ =~= seq![0x31u8, 0x18, 0x10, 0x06]);
    if bytes_at(source, 0, &ubifs) {
        return detection(FilesystemKind::Ubifs, "UBIFS node magic at byte 0");
    }
    let erofs: Vec<u8> = vec![0xe2, 0xe1, 0xf5, 0xe0];
    assert(erofs@ =~= seq![0xe2u8, 0xe1, 0xf5, 0xe0]);
    if bytes_at(source, 1024, &erofs) {
        return detection(FilesystemKind::Erofs, "EROFS superblock magic at byte 1024");
    }
    let f2fs: Vec<u8> = vec![0x10, 0x20, 0xf5, 0xf2];
    assert(f2fs@ =~= seq![0x10u8, 0x20, 0xf5, 0xf2]);
    if bytes_at(source, 1024, &f2fs) {
        return detection(FilesystemKind::F2fs, "F2FS superblock magic at byte 1024");
    }
    let ext: Vec<u8> = vec![0x53, 0xef];
    assert(ext@ =~= seq![0x53u8, 0xef]);
    if bytes_at(source, 1080, &ext) {
        return detection(FilesystemKind::Ext4, "ext filesystem magic at superblock+0x38");
    }
    match detect_fat(source) {
        Some(d) => d,
        None => detection(FilesystemKind::Unknown, "no required C02 filesystem signature recognized"),
    }
}

// ---------------------------------------------------------------------------------------------
// Paths, strings and metadata
// ---------------------------------------------------------------------------------------------

/// `[s, e)` is one `/`-separated component of `b`.
pub open spec fn is_segment(b: Seq<u8>, s: int, e: int) -> bool {
    &&& 0 <= s <= e <= b.len()
    &&& (s == 0 || b[s - 1] == 0x2f)
    &&& (e == b.len() || b[e] == 0x2f)
    &&& forall|k: int| s <= k < e ==> #[trigger] b[k] != 0x2f
}

/// Component `[s, e)` is empty, `.` or `..`.
pub open spec fn bad_segment(b: Seq<u8>, s: int, e: int) -> bool {
    is_segment(b, s, e) && (e == s || (e == s + 1 && b[s] == 0x2e) || (e == s + 2 && b[s] == 0x2e && b[s + 1] == 0x2e))
}

/// An ASCII letter.
pub open spec fn ascii_alpha(c: u8) -> bool {
    (65 <= c <= 90) || (97 <= c <= 122)
}

/// A safe canonical relative path: non-empty and bounded; not absolute, not drive-qualified;
/// no backslash or NUL; and no empty, `.` or `..` component.
pub open spec fn path_ok(path: Seq<char>, limits: FilesystemLimits) -> bool {
    let b = key_bytes(path);
    &&& b.len() > 0
    &&& b.len() <= limits.max_path_bytes
    &&& b.len() <= MAX_DECLARED_NAME_BYTES
    &&& b[0] != 0x2f
    &&& forall|k: int| 0 <= k < b.len() ==> #[trigger] b[k] != 0x5c && b[k] != 0
    &&& !(b.len() >= 2 && ascii_alpha(b[0]) && b[1] == 0x3a)
    &&& !(exists|s: int, e: int| bad_segment(b, s, e))
}

proof fn lemma_segment_start_unique(b: Seq<u8>, s1: int, s2: int, e: int)
    requires
        is_segment(b, s1, e),
        is_segment(b, s2, e),
    ensures
        s1 == s2,
{
    if s1 < s2 {
        assert(b[s2 - 1] == 0x2f);
        assert(b[s2 - 1] != 0x2f);
    } else if s2 < s1 {
        assert(b[s1 - 1] == 0x2f);
        assert(b[s1 - 1] != 0x2f);
    }
}

fn segment_bad(b: &[u8], s: usize, e: usize) -> (r: bool)
    requires
        s <= e <= b@.len(),
    ensures
        r == (e == s || (e == s + 1 && b@[s as int] == 0x2e) || (e == s + 2 && b@[s as int] == 0x2e && b@[s + 1] == 0x2e)),
{
    e == s || (e - s == 1 && b[s] == 0x2e) || (e - s == 2 && b[s] == 0x2e && b[s + 1] == 0x2e)
}

/// Reject a path that is not a safe canonical relative path.
pub fn validate_path(path: &str, limits: FilesystemLimits) -> (r: Result<(), C02Error>)
    ensures
        r is Ok <==> path_ok(path@, limits),
        r matches Err(e) ==> e == C02Error::UnsafePath,
{
    let b = path.as_bytes();
    let n = b.len();
    if n == 0 || n > limits.max_path_bytes || n > MAX_DECLARED_NAME_BYTES || b[0] == 0x2f {
        return Err(C02Error::UnsafePath);
    }
    let mut i: usize = 0;
    while i < n
        invariant
            n == b@.len(),
            b@ == key_bytes(path@),
            i <= n,
            forall|k: int| 0 <= k < i ==> #[trigger] b@[k] != 0x5c && b@[k] != 0,
        decreases n - i,
    {
        if b[i] == 0x5c || b[i] == 0 {
            assert(b@[i as int] == 0x5c || b@[i as int] == 0);
            return Err(C02Error::UnsafePath);
        }
        i = i + 1;
    }
    if n >= 2 && ((65 <= b[0] && b[0] <= 90) || (97 <= b[0] && b[0] <= 122)) && b[1] == 0x3a {
        return Err(C02Error::UnsafePath);
    }
    let mut seg: usize = 0;
    let mut i: usize = 0;
    while i < n
        invariant
            n == b@.len(),
            b@ == key_bytes(path@),
            seg <= i <= n,
            seg == 0 || b@[seg - 1] == 0x2f,
            forall|k: int| seg <= k < i ==> #[trigger] b@[k] != 0x2f,
            forall|s: int, e: int| bad_segment(b@, s, e) ==> e >= i,
        decreases n - i,
    {
        if b[i] == 0x2f {
            assert(is_segment(b@, seg as int, i as int));
            if segment_bad(b, seg, i) {
                assert(bad_segment(b@, seg as int, i as int));
                return Err(C02Error::UnsafePath);
            }
            assert forall|s: int, e: int| bad_segment(b@, s, e) implies e >= i + 1 by {
                if e == i {
                    lemma_segment_start_unique(b@, s, seg as int, e);
                }
            }
            seg = i + 1;
        }
        i = i + 1;
    }
    assert(is_segment(b@, seg as int, n as int));
    if segment_bad(b, seg, n) {
        assert(bad_segment(b@, seg as int, n as int));
        return Err(C02Error::UnsafePath);
    }
    assert forall|s: int, e: int| !bad_segment(b@, s, e) by {
        if bad_segment(b@, s, e) {
            lemma_segment_start_unique(b@, s, seg as int, e);
        }
    }
    Ok(())
}

/// A non-empty text of at most `max` UTF-8 bytes.
pub open spec fn bounded_nonempty_spec(s: Seq<char>, max: usize) -> bool {
    key_bytes(s).len() > 0 && key_bytes(s).len() <= max
}

/// Whether `value` is non-empty and at most `max` bytes long.
pub fn bounded_nonempty(value: &str, max: usize) -> (r: bool)
    ensures
        r == bounded_nonempty_spec(value@, max),
{
    let n = value.as_bytes().len();
    n > 0 && n <= max
}

/// Provider and mount identifiers retained strictly as scoped aliases.
#[derive(Debug)]
pub struct FilesystemProviderAlias {
    /// Provider-local identifier.
    pub provider_id: String,
    /// Exact provider revision or version evidence.
    pub provider_revision: String,
    /// Provider generation used for the observation.
    pub generation: u64,
    /// Optional provider-local read-only mount or session handle.
    pub mount_id: Option<String>,
}

/// The alias carries a non-zero generation and bounded non-empty identifiers.
pub open spec fn alias_ok(a: FilesystemProviderAlias, limits: FilesystemLimits) -> bool {
    &&& a.generation != 0
    &&& bounded_nonempty_spec(a.provider_id@, limits.max_string_bytes)
    &&& bounded_nonempty_spec(a.provider_revision@, limits.max_string_bytes)
    &&& (a.mount_id matches Some(m) ==> bounded_nonempty_spec(m@, limits.max_string_bytes))
}

/// Reject malformed provider alias evidence.
pub fn validate_provider_alias(alias: &FilesystemProviderAlias, limits: FilesystemLimits) -> (r: Result<(), C02Error>)
    ensures
        r is Ok <==> alias_ok(*alias, limits),
        r matches Err(e) ==> e == C02Error::InvalidProviderAlias,
{
    let mount_bad = match &alias.mount_id {
        Some(m) => !bounded_nonempty(m.as_str(), limits.max_string_bytes),
        None => false,
    };
    if alias.generation == 0 || !bounded_nonempty(alias.provider_id.as_str(), limits.max_string_bytes)
        || !bounded_nonempty(alias.provider_revision.as_str(), limits.max_string_bytes) || mount_bad {
        return Err(C02Error::InvalidProviderAlias);
    }
    Ok(())
}

/// Bounded metadata: at most the configured number of pairs, non-empty bounded keys and bounded
/// values.
pub open spec fn metadata_ok(m: Seq<(Seq<char>, Seq<char>)>, limits: FilesystemLimits) -> bool {
    &&& m.len() <= limits.max_metadata_pairs
    &&& forall|i: int| 0 <= i < m.len() ==> bounded_nonempty_spec((#[trigger] m[i]).0, limits.max_string_bytes)
        && key_bytes(m[i].1).len() <= limits.max_string_bytes
}

/// Reject oversized metadata.
pub fn validate_metadata(metadata: &TextMap, limits: FilesystemLimits) -> (r: Result<(), C02Error>)
    ensures
        r is Ok <==> metadata_ok(metadata@, limits),
        r matches Err(e) ==> e == C02Error::MetadataTooLarge,
{
    let pairs = metadata.pairs();
    if pairs.len() > limits.max_metadata_pairs {
        return Err(C02Error::MetadataTooLarge);
    }
    let ghost m = metadata@;
    let mut i: usize = 0;
    while i < pairs.len()
        invariant
            i <= pairs@.len(),
            m == metadata@,
            crate::text_map::pair_views(pairs@) == m,
            forall|j: int| 0 <= j < i ==> bounded_nonempty_spec((#[trigger] m[j]).0, limits.max_string_bytes)
                && key_bytes(m[j].1).len() <= limits.max_string_bytes,
        decreases pairs.len() - i,
    {
        assert(m[i as int] == (pairs@[i as int].0@, pairs@[i as int].1@));
        if !bounded_nonempty(pairs[i].0.as_str(), limits.max_string_bytes) || pairs[i].1.as_str().as_bytes().len()
            > limits.max_string_bytes {
            return Err(C02Error::MetadataTooLarge);
        }
        i = i + 1;
    }
    Ok(())
}

/// Bounded limitations: at most the configured number, each non-empty and bounded.
pub open spec fn limitations_ok(l: Seq<Seq<char>>, limits: FilesystemLimits) -> bool {
    &&& l.len() <= limits.max_metadata_pairs
    &&& forall|i: int| 0 <= i < l.len() ==> bounded_nonempty_spec(#[trigger] l[i], limits.max_string_bytes)
}

/// Reject oversized limitations.
pub fn validate_limitations(limitations: &Vec<String>, limits: FilesystemLimits) -> (r: Result<(), C02Error>)
    ensures
        r is Ok <==> limitations_ok(string_views(limitations@), limits),
        r matches Err(e) ==> e == C02Error::MetadataTooLarge,
{
    if limitations.len() > limits.max_metadata_pairs {
        return Err(C02Error::MetadataTooLarge);
    }
    let ghost l = string_views(limitations@);
    let mut i: usize = 0;
    while i < limitations.len()
        invariant
            i <= limitations@.len(),
            l == string_views(limitations@),
            forall|j: int| 0 <= j < i ==> bounded_nonempty_spec(#[trigger] l[j], limits.max_string_bytes),
        decreases limitations.len() - i,
    {
        assert(l[i as int] == limitations@[i as int]@);
        if !bounded_nonempty(limitations[i].as_str(), limits.max_string_bytes) {
            return Err(C02Error::MetadataTooLarge);
        }
        i = i + 1;
    }
    Ok(())
}

// ---------------------------------------------------------------------------------------------
// Coverage
// ---------------------------------------------------------------------------------------------

/// Append a range, merging it into the previous range when they touch and agree in kind.
pub open spec fn push_cov_spec(
    cov: Seq<FilesystemCoverageRange>,
    start: u64,
    end: u64,
    kind: FilesystemCoverageKind,
) -> Seq<FilesystemCoverageRange> {
    if start == end {
        cov
    } else if cov.len() > 0 && cov.last().byte_end_exclusive == start && cov.last().kind == kind {
        cov.update(cov.len() - 1, FilesystemCoverageRange { byte_end_exclusive: end, ..cov.last() })
    } else {
        cov.push(FilesystemCoverageRange { byte_start: start, byte_end_exclusive: end, kind })
    }
}

fn push_cov(cov: &mut Vec<FilesystemCoverageRange>, start: u64, end: u64, kind: FilesystemCoverageKind)
    ensures
        final(cov)@ == push_cov_spec(old(cov)@, start, end, kind),
{
    if start == end {
        return;
    }
    let n = cov.len();
    if n > 0 {
        let last = cov[n - 1];
        if last.byte_end_exclusive == start && last.kind == kind {
            cov.set(n - 1, FilesystemCoverageRange { byte_start: last.byte_start, byte_end_exclusive: end, kind });
            return;
        }
    }
    cov.push(FilesystemCoverageRange { byte_start: start, byte_end_exclusive: end, kind });
}

/// One unknown range over the whole source, or nothing for an empty source.
pub open spec fn unknown_coverage_spec(size: u64) -> Seq<FilesystemCoverageRange> {
    if size == 0 {
        Seq::empty()
    } else {
        seq![FilesystemCoverageRange { byte_start: 0, byte_end_exclusive: size, kind: FilesystemCoverageKind::Unknown }]
    }
}

/// Coverage that claims nothing about the source.
pub fn unknown_coverage(source_size: u64) -> (r: Vec<FilesystemCoverageRange>)
    ensures
        r@ == unknown_coverage_spec(source_size),
{
    let mut v: Vec<FilesystemCoverageRange> = Vec::new();
    if source_size != 0 {
        v.push(FilesystemCoverageRange { byte_start: 0, byte_end_exclusive: source_size, kind: FilesystemCoverageKind::Unknown });
    }
    assert(v@ =~= unknown_coverage_spec(source_size));
    v
}

/// `a` sorts strictly before `b` by `(start, end)`.
pub open spec fn cov_before(a: FilesystemCoverageRange, b: FilesystemCoverageRange) -> bool {
    a.byte_start < b.byte_start || (a.byte_start == b.byte_start && a.byte_end_exclusive < b.byte_end_exclusive)
}

/// Insert `x` before the first range it sorts strictly before.
pub open spec fn insert_cov(s: Seq<FilesystemCoverageRange>, x: FilesystemCoverageRange) -> Seq<FilesystemCoverageRange>
    decreases s.len(),
{
    if s.len() == 0 {
        seq![x]
    } else if cov_before(x, s[0]) {
        seq![x] + s
    } else {
        seq![s[0]] + insert_cov(s.drop_first(), x)
    }
}

/// Stable sort by `(start, end)`.
pub open spec fn sort_cov(s: Seq<FilesystemCoverageRange>) -> Seq<FilesystemCoverageRange>
    decreases s.len(),
{
    if s.len() == 0 {
        Seq::empty()
    } else {
        insert_cov(sort_cov(s.drop_last()), s.last())
    }
}

proof fn lemma_insert_cov_at(s: Seq<FilesystemCoverageRange>, x: FilesystemCoverageRange, p: int)
    requires
        0 <= p <= s.len(),
        forall|k: int| 0 <= k < p ==> !cov_before(x, #[trigger] s[k]),
        p < s.len() ==> cov_before(x, s[p]),
    ensures
        insert_cov(s, x) == s.insert(p, x),
    decreases s.len(),
{
    if s.len() == 0 {
        assert(s.insert(p, x) =~= seq![x]);
    } else if p == 0 {
        assert(s.insert(0, x) =~= seq![x] + s);
    } else {
        assert forall|k: int| 0 <= k < p - 1 implies !cov_before(x, #[trigger] s.drop_first()[k]) by {
            assert(s.drop_first()[k] == s[k + 1]);
        }
        lemma_insert_cov_at(s.drop_first(), x, p - 1);
        assert(s.insert(p, x) =~= seq![s[0]] + s.drop_first().insert(p - 1, x));
    }
}

fn sort_coverage(v: &Vec<FilesystemCoverageRange>) -> (r: Vec<FilesystemCoverageRange>)
    ensures
        r@ == sort_cov(v@),
{
    let mut r: Vec<FilesystemCoverageRange> = Vec::new();
    let n = v.len();
    let mut i: usize = 0;
    assert(v@.take(0) =~= Seq::<FilesystemCoverageRange>::empty());
    while i < n
        invariant
            n == v@.len(),
            i <= n,
            r@ == sort_cov(v@.take(i as int)),
        decreases n - i,
    {
        let x = v[i];
        let ghost sv = r@;
        let mut p: usize = 0;
        let mut found = false;
        while p < r.len() && !found
            invariant
                p <= r@.len(),
                sv == r@,
                x == v@[i as int],
                forall|k: int| 0 <= k < p ==> !cov_before(x, #[trigger] sv[k]),
                found ==> p < r@.len() && cov_before(x, sv[p as int]),
            decreases r@.len() - p + (if found { 0int } else { 1int }),
        {
            let y = r[p];
            if x.byte_start < y.byte_start || (x.byte_start == y.byte_start && x.byte_end_exclusive < y.byte_end_exclusive) {
                found = true;
            } else {
                p = p + 1;
            }
        }
        proof {
            lemma_insert_cov_at(sv, x, p as int);
        }
        r.insert(p, x);
        assert(v@.take(i as int + 1).drop_last() =~= v@.take(i as int));
        i = i + 1;
    }
    assert(v@.take(n as int) =~= v@);
    r
}

/// Add sorted range `k`, filling any gap before it with unknown coverage.
pub open spec fn canon_step(
    sorted: Seq<FilesystemCoverageRange>,
    size: u64,
    st: (int, Seq<FilesystemCoverageRange>),
    k: int,
) -> Result<(int, Seq<FilesystemCoverageRange>), C02Error> {
    let r = sorted[k];
    let (cursor, out) = st;
    if r.byte_start >= r.byte_end_exclusive || r.byte_end_exclusive > size || r.byte_start < cursor {
        Err(C02Error::InvalidCoverage)
    } else {
        let gap = if cursor < r.byte_start {
            push_cov_spec(out, cursor as u64, r.byte_start, FilesystemCoverageKind::Unknown)
        } else {
            out
        };
        Ok((r.byte_end_exclusive as int, push_cov_spec(gap, r.byte_start, r.byte_end_exclusive, r.kind)))
    }
}

/// The canonicalization step over sorted ranges.
pub open spec fn canon_stepper(sorted: Seq<FilesystemCoverageRange>, size: u64) -> spec_fn(
    (int, Seq<FilesystemCoverageRange>),
    int,
) -> Result<(int, Seq<FilesystemCoverageRange>), C02Error> {
    |st: (int, Seq<FilesystemCoverageRange>), k: int| canon_step(sorted, size, st, k)
}

/// Sort provider coverage, reject empty, out-of-bounds or overlapping ranges, fill gaps with
/// unknown coverage and merge touching ranges of one kind.
pub open spec fn canonical_coverage_spec(cov: Seq<FilesystemCoverageRange>, size: u64, limits: FilesystemLimits) -> Result<
    Seq<FilesystemCoverageRange>,
    C02Error,
> {
    if cov.len() > limits.max_coverage_ranges {
        Err(C02Error::TooManyCoverageRanges)
    } else {
        match run_steps_c02((0int, Seq::empty()), canon_stepper(sort_cov(cov), size), cov.len()) {
            Err(e) => Err(e),
            Ok((cursor, out)) => {
                let done = if cursor < size {
                    push_cov_spec(out, cursor as u64, size, FilesystemCoverageKind::Unknown)
                } else {
                    out
                };
                if done.len() > 2 * limits.max_coverage_ranges + 1 && 2 * limits.max_coverage_ranges + 1 <= usize::MAX {
                    Err(C02Error::TooManyCoverageRanges)
                } else {
                    Ok(done)
                }
            },
        }
    }
}

/// Apply `step` to indices `0..n` in order, stopping at the first failure.
pub open spec fn run_steps_c02<S>(init: S, step: spec_fn(S, int) -> Result<S, C02Error>, n: nat) -> Result<S, C02Error>
    decreases n,
{
    if n == 0 {
        Ok(init)
    } else {
        match run_steps_c02(init, step, (n - 1) as nat) {
            Err(e) => Err(e),
            Ok(st) => step(st, n - 1),
        }
    }
}

/// Once a run of steps has failed, every longer run fails the same way.
pub proof fn lemma_run_steps_c02_err<S>(init: S, step: spec_fn(S, int) -> Result<S, C02Error>, n: nat, m: nat)
    requires
        n <= m,
        run_steps_c02(init, step, n) is Err,
    ensures
        run_steps_c02(init, step, m) == run_steps_c02(init, step, n),
    decreases m - n,
{
    if n < m {
        lemma_run_steps_c02_err(init, step, n, (m - 1) as nat);
    }
}

proof fn lemma_sort_cov_len(s: Seq<FilesystemCoverageRange>)
    ensures
        sort_cov(s).len() == s.len(),
    decreases s.len(),
{
    if s.len() > 0 {
        lemma_sort_cov_len(s.drop_last());
        lemma_insert_cov_len(sort_cov(s.drop_last()), s.last());
    }
}

proof fn lemma_insert_cov_len(s: Seq<FilesystemCoverageRange>, x: FilesystemCoverageRange)
    ensures
        insert_cov(s, x).len() == s.len() + 1,
    decreases s.len(),
{
    if s.len() > 0 && !cov_before(x, s[0]) {
        lemma_insert_cov_len(s.drop_first(), x);
    }
}

/// Canonicalize provider coverage against a source of `source_size` bytes.
pub fn canonicalize_coverage(coverage: &Vec<FilesystemCoverageRange>, source_size: u64, limits: FilesystemLimits) -> (r:
    Result<Vec<FilesystemCoverageRange>, C02Error>)
    ensures
        r matches Ok(c) ==> canonical_coverage_spec(coverage@, source_size, limits) == Ok::<Seq<FilesystemCoverageRange>, C02Error>(c@),
        r matches Err(e) ==> canonical_coverage_spec(coverage@, source_size, limits) == Err::<Seq<FilesystemCoverageRange>, C02Error>(e),
{
    if coverage.len() > limits.max_coverage_ranges {
        return Err(C02Error::TooManyCoverageRanges);
    }
    let sorted = sort_coverage(coverage);
    proof { lemma_sort_cov_len(coverage@); }
    let ghost step = canon_stepper(sorted@, source_size);
    let ghost init = (0int, Seq::<FilesystemCoverageRange>::empty());
    let mut cursor: u64 = 0;
    let mut canonical: Vec<FilesystemCoverageRange> = Vec::new();
    let mut k: usize = 0;
    while k < sorted.len()
        invariant
            k <= sorted@.len(),
            sorted@.len() == coverage@.len(),
            coverage@.len() <= limits.max_coverage_ranges,
            sorted@ == sort_cov(coverage@),
            step == canon_stepper(sorted@, source_size),
            init == (0int, Seq::<FilesystemCoverageRange>::empty()),
            run_steps_c02(init, step, k as nat) == Ok::<(int, Seq<FilesystemCoverageRange>), C02Error>((cursor as int, canonical@)),
        decreases sorted@.len() - k,
    {
        let range = sorted[k];
        assert(run_steps_c02(init, step, (k + 1) as nat) == canon_step(sorted@, source_size, (cursor as int, canonical@), k as int));
        if range.byte_start >= range.byte_end_exclusive || range.byte_end_exclusive > source_size || range.byte_start < cursor {
            proof { lemma_run_steps_c02_err(init, step, (k + 1) as nat, sorted@.len()); }
            return Err(C02Error::InvalidCoverage);
        }
        if cursor < range.byte_start {
            push_cov(&mut canonical, cursor, range.byte_start, FilesystemCoverageKind::Unknown);
        }
        push_cov(&mut canonical, range.byte_start, range.byte_end_exclusive, range.kind);
        cursor = range.byte_end_exclusive;
        k = k + 1;
    }
    if cursor < source_size {
        push_cov(&mut canonical, cursor, source_size, FilesystemCoverageKind::Unknown);
    }
    if limits.max_coverage_ranges <= (usize::MAX - 1) / 2 && canonical.len() > 2 * limits.max_coverage_ranges + 1 {
        return Err(C02Error::TooManyCoverageRanges);
    }
    Ok(canonical)
}

/// Walk `cov` from position `i`, requiring read ranges to cover `[cursor, end)` without a gap.
pub open spec fn read_walk(cov: Seq<FilesystemCoverageRange>, end: u64, cursor: u64, i: int) -> bool
    decreases cov.len() - i,
{
    if i >= cov.len() || i < 0 {
        false
    } else {
        let r = cov[i];
        if r.byte_end_exclusive <= cursor {
            read_walk(cov, end, cursor, i + 1)
        } else if r.byte_start > cursor || r.kind != FilesystemCoverageKind::Read {
            false
        } else {
            let reach = if r.byte_end_exclusive < end { r.byte_end_exclusive } else { end };
            let c = if cursor > reach { cursor } else { reach };
            if c == end {
                true
            } else {
                read_walk(cov, end, c, i + 1)
            }
        }
    }
}

/// `[start, end)` is non-empty and covered, in order, by read coverage.
pub open spec fn exact_read_spec(cov: Seq<FilesystemCoverageRange>, start: u64, end: u64) -> bool {
    start < end && read_walk(cov, end, start, 0)
}

/// Whether `[start, end)` is non-empty and fully backed by read coverage.
pub fn range_is_exact_read(coverage: &[FilesystemCoverageRange], start: u64, end: u64) -> (r: bool)
    ensures
        r == exact_read_spec(coverage@, start, end),
{
    if start >= end {
        return false;
    }
    let mut cursor = start;
    let mut i: usize = 0;
    while i < coverage.len()
        invariant
            i <= coverage@.len(),
            start < end,
            read_walk(coverage@, end, start, 0) == read_walk(coverage@, end, cursor, i as int),
        decreases coverage.len() - i,
    {
        let range = coverage[i];
        if range.byte_end_exclusive <= cursor {
            i = i + 1;
            continue;
        }
        if range.byte_start > cursor || range.kind != FilesystemCoverageKind::Read {
            return false;
        }
        let reach = if range.byte_end_exclusive < end { range.byte_end_exclusive } else { end };
        cursor = if cursor > reach { cursor } else { reach };
        if cursor == end {
            return true;
        }
        i = i + 1;
    }
    false
}

// ---------------------------------------------------------------------------------------------
// Entries
// ---------------------------------------------------------------------------------------------

/// One provider-reported filesystem entry.
#[derive(Debug)]
pub struct FilesystemEntry {
    /// Canonical relative path; absolute paths and traversal components are forbidden.
    pub path: String,
    /// Entry kind.
    pub kind: FilesystemEntryKind,
    /// Logical file size; non-file entries use zero.
    pub size: u64,
    /// Exact-content availability state.
    pub content_state: FilesystemContentState,
    /// Logical reconstruction extents; only exact regular files may retain extents.
    pub extents: Vec<FilesystemExtent>,
    /// Exact content digest for an exact regular file.
    pub content_sha256: Option<String>,
    /// Bounded passive metadata.
    pub metadata: TextMap,
    /// Entry-specific unsupported or partial limitations.
    pub limitations: Vec<String>,
}

/// Abstract value of an entry.
pub ghost struct EntryView {
    /// Path.
    pub path: Seq<char>,
    /// Kind.
    pub kind: FilesystemEntryKind,
    /// Logical size.
    pub size: u64,
    /// Content state.
    pub content_state: FilesystemContentState,
    /// Extents.
    pub extents: Seq<FilesystemExtent>,
    /// Content digest text.
    pub content_sha256: Option<Seq<char>>,
    /// Metadata pairs.
    pub metadata: Seq<(Seq<char>, Seq<char>)>,
    /// Limitations.
    pub limitations: Seq<Seq<char>>,
}

/// The view of an optional string.
pub open spec fn opt_text(s: Option<String>) -> Option<Seq<char>> {
    match s {
        Some(v) => Some(v@),
        None => None,
    }
}

impl View for FilesystemEntry {
    type V = EntryView;

    open spec fn view(&self) -> EntryView {
        EntryView {
            path: self.path@,
            kind: self.kind,
            size: self.size,
            content_state: self.content_state,
            extents: self.extents@,
            content_sha256: opt_text(self.content_sha256),
            metadata: self.metadata@,
            limitations: string_views(self.limitations@),
        }
    }
}

/// Views of entries.
pub open spec fn entry_views(s: Seq<FilesystemEntry>) -> Seq<EntryView> {
    s.map_values(|e: FilesystemEntry| e@)
}

/// Add extent `k` of an exact file to the logical size, checking its range is readable.
pub open spec fn exact_extent_step(
    xs: Seq<FilesystemExtent>,
    cov: Seq<FilesystemCoverageRange>,
    size: u64,
    total: int,
    k: int,
) -> Result<int, C02Error> {
    match extent_len_spec(xs[k]) {
        None => Err(C02Error::InvalidExtent),
        Some(len) => if total + len > u64::MAX {
            Err(C02Error::AccountingOverflow)
        } else {
            match xs[k] {
                FilesystemExtent::Data { source_start, source_end_exclusive } => if source_end_exclusive > size {
                    Err(C02Error::InvalidExtent)
                } else if !exact_read_spec(cov, source_start, source_end_exclusive) {
                    Err(C02Error::ExtentNotReadable)
                } else {
                    Ok(total + len)
                },
                FilesystemExtent::Zero { .. } => Ok(total + len),
            }
        },
    }
}

/// The exact-extent step.
pub open spec fn exact_extent_stepper(xs: Seq<FilesystemExtent>, cov: Seq<FilesystemCoverageRange>, size: u64) -> spec_fn(
    int,
    int,
) -> Result<int, C02Error> {
    |total: int, k: int| exact_extent_step(xs, cov, size, total, k)
}

/// An exact file carries a 64-character digest and readable extents whose lengths add up to its
/// size.
pub open spec fn exact_file_spec(e: EntryView, cov: Seq<FilesystemCoverageRange>, size: u64) -> Result<(), C02Error> {
    if !(e.content_sha256 matches Some(d) && d.len() == 64) {
        Err(C02Error::ExactFileMismatch)
    } else if e.size > 0 && e.extents.len() == 0 {
        Err(C02Error::ExactFileMismatch)
    } else {
        match run_steps_c02(0int, exact_extent_stepper(e.extents, cov, size), e.extents.len()) {
            Err(x) => Err(x),
            Ok(total) => if total != e.size {
                Err(C02Error::ExactFileMismatch)
            } else {
                Ok(())
            },
        }
    }
}

/// Check an exact regular file against the canonical coverage.
pub fn validate_exact_file(entry: &FilesystemEntry, coverage: &[FilesystemCoverageRange], source_size: u64) -> (r: Result<
    (),
    C02Error,
>)
    ensures
        r == exact_file_spec(entry@, coverage@, source_size),
{
    let digest_ok = match &entry.content_sha256 {
        Some(d) => d.as_str().unicode_len() == 64,
        None => false,
    };
    if !digest_ok {
        return Err(C02Error::ExactFileMismatch);
    }
    if entry.size > 0 && entry.extents.len() == 0 {
        return Err(C02Error::ExactFileMismatch);
    }
    let ghost xs = entry.extents@;
    let ghost step = exact_extent_stepper(xs, coverage@, source_size);
    let mut total: u64 = 0;
    let mut k: usize = 0;
    while k < entry.extents.len()
        invariant
            k <= xs.len(),
            xs == entry.extents@,
            step == exact_extent_stepper(xs, coverage@, source_size),
            run_steps_c02(0int, step, k as nat) == Ok::<int, C02Error>(total as int),
            exact_file_spec(entry@, coverage@, source_size) == (match run_steps_c02(0int, step, xs.len()) {
                Err(x) => Err(x),
                Ok(t) => if t != entry.size {
                    Err(C02Error::ExactFileMismatch)
                } else {
                    Ok(())
                },
            }),
        decreases xs.len() - k,
    {
        let x = entry.extents[k];
        assert(run_steps_c02(0int, step, (k + 1) as nat) == exact_extent_step(xs, coverage@, source_size, total as int, k as int));
        let len = match x.logical_len() {
            Ok(n) => n,
            Err(e) => {
                proof { lemma_run_steps_c02_err(0int, step, (k + 1) as nat, xs.len()); }
                return Err(e);
            },
        };
        if total > u64::MAX - len {
            proof { lemma_run_steps_c02_err(0int, step, (k + 1) as nat, xs.len()); }
            return Err(C02Error::AccountingOverflow);
        }
        match x {
            FilesystemExtent::Data { source_start, source_end_exclusive } => {
                if source_end_exclusive > source_size {
                    proof { lemma_run_steps_c02_err(0int, step, (k + 1) as nat, xs.len()); }
                    return Err(C02Error::InvalidExtent);
                }
                if !range_is_exact_read(coverage, source_start, source_end_exclusive) {
                    proof { lemma_run_steps_c02_err(0int, step, (k + 1) as nat, xs.len()); }
                    return Err(C02Error::ExtentNotReadable);
                }
            },
            FilesystemExtent::Zero { .. } => {},
        }
        total = total + len;
        k = k + 1;
    }
    if total != entry.size {
        return Err(C02Error::ExactFileMismatch);
    }
    Ok(())
}

/// The size, extent and digest contract of one entry.
pub open spec fn entry_contract_spec(e: EntryView, cov: Seq<FilesystemCoverageRange>, size: u64, limits: FilesystemLimits) -> Result<
    (),
    C02Error,
> {
    if e.extents.len() > limits.max_extents_per_file {
        Err(C02Error::InvalidExtent)
    } else if e.kind != FilesystemEntryKind::File {
        if e.size != 0 || e.extents.len() != 0 || e.content_sha256 is Some {
            Err(C02Error::ExactFileMismatch)
        } else {
            Ok(())
        }
    } else if e.content_state == FilesystemContentState::Exact {
        exact_file_spec(e, cov, size)
    } else if e.extents.len() != 0 || e.content_sha256 is Some || e.limitations.len() == 0 {
        Err(C02Error::ExactFileMismatch)
    } else {
        Ok(())
    }
}

/// Check the size, extent and digest contract of one entry.
pub fn validate_entry_contract(entry: &FilesystemEntry, coverage: &[FilesystemCoverageRange], source_size: u64, limits: FilesystemLimits) -> (r:
    Result<(), C02Error>)
    ensures
        r == entry_contract_spec(entry@, coverage@, source_size, limits),
{
    if entry.extents.len() > limits.max_extents_per_file {
        return Err(C02Error::InvalidExtent);
    }
    if entry.kind != FilesystemEntryKind::File {
        if entry.size != 0 || entry.extents.len() != 0 || entry.content_sha256.is_some() {
            return Err(C02Error::ExactFileMismatch);
        }
        return Ok(());
    }
    match entry.content_state {
        FilesystemContentState::Exact => validate_exact_file(entry, coverage, source_size),
        _ => {
            if entry.extents.len() != 0 || entry.content_sha256.is_some() || entry.limitations.len() == 0 {
                return Err(C02Error::ExactFileMismatch);
            }
            Ok(())
        },
    }
}

/// Some earlier entry uses the path of entry `i`.
pub open spec fn earlier_path(es: Seq<EntryView>, i: int) -> bool {
    exists|j: int| 0 <= j < i && (#[trigger] es[j]).path == es[i].path
}

/// Check entry `i`: its path, uniqueness, metadata, limitations and content contract.
pub open spec fn entry_step(
    es: Seq<EntryView>,
    cov: Seq<FilesystemCoverageRange>,
    size: u64,
    limits: FilesystemLimits,
    u: (),
    i: int,
) -> Result<(), C02Error> {
    let e = es[i];
    if !path_ok(e.path, limits) {
        Err(C02Error::UnsafePath)
    } else if earlier_path(es, i) {
        Err(C02Error::DuplicatePath)
    } else if !metadata_ok(e.metadata, limits) {
        Err(C02Error::MetadataTooLarge)
    } else if !limitations_ok(e.limitations, limits) {
        Err(C02Error::MetadataTooLarge)
    } else {
        entry_contract_spec(e, cov, size, limits)
    }
}

/// The entry step.
pub open spec fn entry_stepper(es: Seq<EntryView>, cov: Seq<FilesystemCoverageRange>, size: u64, limits: FilesystemLimits) -> spec_fn(
    (),
    int,
) -> Result<(), C02Error> {
    |u: (), i: int| entry_step(es, cov, size, limits, u, i)
}

/// The inventory is bounded and every entry is valid, in order.
pub open spec fn entries_spec(es: Seq<EntryView>, cov: Seq<FilesystemCoverageRange>, size: u64, limits: FilesystemLimits) -> Result<
    (),
    C02Error,
> {
    if es.len() > limits.max_entries {
        Err(C02Error::TooManyEntries)
    } else {
        run_steps_c02((), entry_stepper(es, cov, size, limits), es.len())
    }
}

fn earlier_path_exec(entries: &Vec<FilesystemEntry>, i: usize) -> (r: bool)
    requires
        i < entries@.len(),
    ensures
        r == earlier_path(entry_views(entries@), i as int),
{
    let ghost es = entry_views(entries@);
    let mut j: usize = 0;
    while j < i
        invariant
            j <= i < entries@.len(),
            es == entry_views(entries@),
            forall|k: int| 0 <= k < j ==> (#[trigger] es[k]).path != es[i as int].path,
        decreases i - j,
    {
        assert(es[j as int] == entries@[j as int]@ && es[i as int] == entries@[i as int]@);
        if entries[j].path == entries[i].path {
            return true;
        }
        j = j + 1;
    }
    false
}

/// Validate the whole inventory against the canonical coverage.
pub fn validate_entries(entries: &Vec<FilesystemEntry>, coverage: &[FilesystemCoverageRange], source_size: u64, limits: FilesystemLimits) -> (r:
    Result<(), C02Error>)
    ensures
        r == entries_spec(entry_views(entries@), coverage@, source_size, limits),
{
    if entries.len() > limits.max_entries {
        return Err(C02Error::TooManyEntries);
    }
    let ghost es = entry_views(entries@);
    let ghost step = entry_stepper(es, coverage@, source_size, limits);
    let mut i: usize = 0;
    while i < entries.len()
        invariant
            i <= es.len(),
            es == entry_views(entries@),
            es.len() <= limits.max_entries,
            step == entry_stepper(es, coverage@, source_size, limits),
            run_steps_c02((), step, i as nat) == Ok::<(), C02Error>(()),
        decreases es.len() - i,
    {
        let e = &entries[i];
        assert(es[i as int] == e@);
        assert(run_steps_c02((), step, (i + 1) as nat) == entry_step(es, coverage@, source_size, limits, (), i as int));
        let r = if validate_path(e.path.as_str(), limits).is_err() {
            Err(C02Error::UnsafePath)
        } else if earlier_path_exec(entries, i) {
            Err(C02Error::DuplicatePath)
        } else if validate_metadata(&e.metadata, limits).is_err() {
            Err(C02Error::MetadataTooLarge)
        } else if validate_limitations(&e.limitations, limits).is_err() {
            Err(C02Error::MetadataTooLarge)
        } else {
            validate_entry_contract(e, coverage, source_size, limits)
        };
        match r {
            Ok(_) => {},
            Err(x) => {
                proof { lemma_run_steps_c02_err((), step, (i + 1) as nat, es.len()); }
                return Err(x);
            },
        }
        i = i + 1;
    }
    Ok(())
}

/// The retained evidence can support a complete claim: no limitations anywhere, every file exact,
/// and coverage spanning the whole source with only read or unallocated ranges.
pub open spec fn complete_supported_spec(
    es: Seq<EntryView>,
    cov: Seq<FilesystemCoverageRange>,
    limitations: Seq<Seq<char>>,
    size: u64,
) -> bool {
    &&& limitations.len() == 0
    &&& forall|i: int| 0 <= i < es.len() ==> (#[trigger] es[i]).limitations.len() == 0
        && es[i].content_state != FilesystemContentState::Unsupported
        && !(es[i].kind == FilesystemEntryKind::File && es[i].content_state != FilesystemContentState::Exact)
    &&& (if size == 0 {
        cov.len() == 0
    } else {
        cov.len() > 0 && cov[0].byte_start == 0 && cov.last().byte_end_exclusive == size
    })
    &&& forall|i: int| 0 <= i < cov.len() ==> ((#[trigger] cov[i]).kind == FilesystemCoverageKind::Read
        || cov[i].kind == FilesystemCoverageKind::Unallocated)
}

/// Whether the retained evidence can support a complete claim.
pub fn complete_evidence_supported(
    entries: &Vec<FilesystemEntry>,
    coverage: &Vec<FilesystemCoverageRange>,
    limitations: &Vec<String>,
    source_size: u64,
) -> (r: bool)
    ensures
        r == complete_supported_spec(entry_views(entries@), coverage@, string_views(limitations@), source_size),
{
    if limitations.len() != 0 {
        return false;
    }
    let ghost es = entry_views(entries@);
    let mut i: usize = 0;
    while i < entries.len()
        invariant
            i <= es.len(),
            es == entry_views(entries@),
            forall|k: int| 0 <= k < i ==> (#[trigger] es[k]).limitations.len() == 0
                && es[k].content_state != FilesystemContentState::Unsupported
                && !(es[k].kind == FilesystemEntryKind::File && es[k].content_state != FilesystemContentState::Exact),
        decreases es.len() - i,
    {
        let e = &entries[i];
        assert(es[i as int] == e@);
        if e.limitations.len() != 0 || e.content_state == FilesystemContentState::Unsupported || (e.kind
            == FilesystemEntryKind::File && e.content_state != FilesystemContentState::Exact) {
            return false;
        }
        i = i + 1;
    }
    let full = if source_size == 0 {
        coverage.len() == 0
    } else {
        coverage.len() > 0 && coverage[0].byte_start == 0 && coverage[coverage.len() - 1].byte_end_exclusive == source_size
    };
    if !full {
        return false;
    }
    let mut k: usize = 0;
    while k < coverage.len()
        invariant
            k <= coverage@.len(),
            forall|j: int| 0 <= j < k ==> ((#[trigger] coverage@[j]).kind == FilesystemCoverageKind::Read
                || coverage@[j].kind == FilesystemCoverageKind::Unallocated),
        decreases coverage.len() - k,
    {
        if !(coverage[k].kind == FilesystemCoverageKind::Read || coverage[k].kind == FilesystemCoverageKind::Unallocated) {
            return false;
        }
        k = k + 1;
    }
    true
}

} // verus!
