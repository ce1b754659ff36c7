//! Generic Android image framing: shared types, byte-range components and the boot, vendor_boot,
//! DTBO and vbmeta layouts.
use vstd::prelude::*;
use crate::bytes::{be_value, le_value, read_be_u32, read_be_u64, read_le_u16, read_le_u32, read_le_u64};

use crate::digest::{sha256_hex, sha256_hex_of};
use crate::identity::EntityRef;
use crate::partition_map::string_views;
use crate::text::{decimal, numbered_message};

verus! {

/// DTBO table magic (big-endian).
pub const DTBO_MAGIC: u32 = 0xd7b7_ab1e;
/// AVB header size.
pub const AVB_HEADER_SIZE: u64 = 256;
/// Boot header v0 size.
pub const BOOT_V0_SIZE: u64 = 1632;
/// Boot header v1 size.
pub const BOOT_V1_SIZE: u64 = 1648;
/// Boot header v2 size.
pub const BOOT_V2_SIZE: u64 = 1660;
/// Boot header v3 size.
pub const BOOT_V3_SIZE: u64 = 1580;
/// Boot header v4 size.
pub const BOOT_V4_SIZE: u64 = 1584;
/// Vendor boot header v3 size.
pub const VENDOR_BOOT_V3_SIZE: u64 = 2112;
/// Vendor boot header v4 size.
pub const VENDOR_BOOT_V4_SIZE: u64 = 2128;
/// Vendor ramdisk table entry v4 size.
pub const VENDOR_RAMDISK_TABLE_ENTRY_V4_SIZE: u64 = 108;

/// Bounded resource limits for one Android inspection.
#[derive(Debug, Clone, Copy, PartialEq, Eq)]
pub struct AndroidLimits {
    /// Maximum source bytes accepted by one inspection.
    pub max_source_bytes: u64,
    /// Maximum retained source-backed components.
    pub max_components: usize,
    /// Maximum liblp metadata slots.
    pub max_metadata_slots: u32,
    /// Maximum retained dynamic partitions.
    pub max_dynamic_partitions: usize,
    /// Maximum retained extents across one report.
    pub max_extents: usize,
    /// Maximum retained dynamic groups.
    pub max_dynamic_groups: usize,
    /// Maximum OTA manifest bytes accepted before provider work.
    pub max_manifest_bytes: u64,
    /// Maximum OTA partition updates.
    pub max_ota_partitions: usize,
    /// Maximum OTA install operations.
    pub max_ota_operations: usize,
    /// Maximum bytes retained for any one string.
    pub max_string_bytes: usize,
    /// Maximum bytes materialized for one child or logical partition.
    pub max_materialized_bytes: u64,
}

impl Default for AndroidLimits {
    fn default() -> (r: Self)
        ensures
            r.max_source_bytes == 16 * 1024 * 1024 * 1024,
            r.max_components == 65_536,
            r.max_metadata_slots == 32,
            r.max_dynamic_partitions == 16_384,
            r.max_extents == 1_000_000,
            r.max_dynamic_groups == 4096,
            r.max_manifest_bytes == 64 * 1024 * 1024,
            r.max_ota_partitions == 16_384,
            r.max_ota_operations == 1_000_000,
            r.max_string_bytes == 4096,
            r.max_materialized_bytes == 2 * 1024 * 1024 * 1024,
    {
        AndroidLimits {
            max_source_bytes: 16 * 1024 * 1024 * 1024,
            max_components: 65_536,
            max_metadata_slots: 32,
            max_dynamic_partitions: 16_384,
            max_extents: 1_000_000,
            max_dynamic_groups: 4096,
            max_manifest_bytes: 64 * 1024 * 1024,
            max_ota_partitions: 16_384,
            max_ota_operations: 1_000_000,
            max_string_bytes: 4096,
            max_materialized_bytes: 2 * 1024 * 1024 * 1024,
        }
    }
}

/// All configured bounds are non-zero.
pub open spec fn android_limits_valid(l: AndroidLimits) -> bool {
    &&& l.max_source_bytes != 0
    &&& l.max_components != 0
    &&& l.max_metadata_slots != 0
    &&& l.max_dynamic_partitions != 0
    &&& l.max_extents != 0
    &&& l.max_dynamic_groups != 0
    &&& l.max_manifest_bytes != 0
    &&& l.max_ota_partitions != 0
    &&& l.max_ota_operations != 0
    &&& l.max_string_bytes != 0
    &&& l.max_materialized_bytes != 0
}

/// Reject limits with a zero bound.
pub fn validate_android_limits(limits: AndroidLimits) -> (r: Result<(), C03Error>)
    ensures
        r is Ok <==> android_limits_valid(limits),
        r matches Err(e) ==> e == C03Error::InvalidLimits,
{
    if limits.max_source_bytes == 0 || limits.max_components == 0 || limits.max_metadata_slots == 0
        || limits.max_dynamic_partitions == 0 || limits.max_extents == 0
        || limits.max_dynamic_groups == 0 || limits.max_manifest_bytes == 0
        || limits.max_ota_partitions == 0 || limits.max_ota_operations == 0
        || limits.max_string_bytes == 0 || limits.max_materialized_bytes == 0 {
        return Err(C03Error::InvalidLimits);
    }
    Ok(())
}

/// Exact immutable source and production context.
#[derive(Debug)]
pub struct AndroidContext {
    /// Workspace owning source and derived plans.
    pub workspace_ref: EntityRef,
    /// Authority for canonical plans.
    pub authority_ref: EntityRef,
    /// Exact immutable source object revision.
    pub source_revision_ref: EntityRef,
}

/// The failure of context validation, if any.
pub open spec fn android_context_fault(c: AndroidContext) -> Option<C03Error> {
    if c.workspace_ref.entity_kind@ != "core.workspace"@ {
        Some(C03Error::InvalidWorkspaceRef)
    } else if c.source_revision_ref.entity_kind@ != "object.revision"@ {
        Some(C03Error::InvalidSourceRevision)
    } else {
        None
    }
}

/// Reject a context that does not name a workspace and an exact object revision.
pub fn validate_android_context(context: &AndroidContext) -> (r: Result<(), C03Error>)
    ensures
        r is Ok <==> android_context_fault(*context) is None,
        r matches Err(e) ==> android_context_fault(*context) == Some(e),
{
    if !context.workspace_ref.has_kind("core.workspace") {
        return Err(C03Error::InvalidWorkspaceRef);
    }
    if !context.source_revision_ref.has_kind("object.revision") {
        return Err(C03Error::InvalidSourceRevision);
    }
    Ok(())
}

/// Generic Android artifact family.
#[derive(Debug, Clone, Copy, PartialEq, Eq, Structural)]
pub enum AndroidArtifactKind {
    /// Android boot partition image.
    Boot,
    /// Android 13+ init_boot image.
    InitBoot,
    /// Android vendor_boot image.
    VendorBoot,
    /// Device-tree overlay table image.
    Dtbo,
    /// AVB vbmeta image.
    Vbmeta,
    /// Dynamic-partition super image.
    Super,
    /// Android update_engine payload.bin.
    OtaPayload,
}

/// Optional caller declaration needed when bytes alone are ambiguous.
#[derive(Debug, Clone, Copy, PartialEq, Eq, Structural)]
pub struct AndroidInspectRequest {
    /// Required for `ANDROID!` images to distinguish boot from init_boot.
    pub declared_kind: Option<AndroidArtifactKind>,
}

impl Default for AndroidInspectRequest {
    fn default() -> (r: Self)
        ensures
            r.declared_kind is None,
    {
        AndroidInspectRequest { declared_kind: None }
    }
}

/// Truth status of one structural inspection.
#[derive(Debug, Clone, Copy, PartialEq, Eq, Structural)]
pub enum AndroidAssessment {
    /// All supported structures for this artifact were validated.
    Complete,
    /// Exact supported structures exist but limitations remain.
    Partial,
    /// A trustworthy structural projection could not be established.
    Inconclusive,
}

/// Mechanical integrity evidence.
#[derive(Debug, Clone, Copy, PartialEq, Eq, Structural)]
pub enum AndroidIntegrityAssessment {
    /// Structural framing and bounds only.
    StructureChecked,
    /// Format-defined SHA-256 checksums were also verified.
    ChecksumsVerified,
}

/// Trust state deliberately separate from structural parsing.
#[derive(Debug, Clone, Copy, PartialEq, Eq, Structural)]
pub enum AndroidTrustAssessment {
    /// Boot, signing or update trust has not been established.
    NotEstablished,
}

/// Exact source-backed component class.
#[derive(Debug, Clone, Copy, PartialEq, Eq, Structural)]
pub enum AndroidComponentKind {
    /// Format header bytes.
    Header,
    /// Boot kernel.
    Kernel,
    /// Generic or legacy ramdisk.
    Ramdisk,
    /// Legacy second-stage payload.
    SecondStage,
    /// Legacy recovery DTBO/ACPIO payload.
    RecoveryDtbo,
    /// Device-tree blob.
    Dtb,
    /// Boot v4 signature region.
    BootSignature,
    /// Whole vendor ramdisk section.
    VendorRamdisk,
    /// One vendor ramdisk fragment.
    VendorRamdiskFragment,
    /// Vendor ramdisk table.
    VendorRamdiskTable,
    /// Vendor bootconfig.
    Bootconfig,
    /// One DTBO table entry payload.
    DtboEntry,
    /// vbmeta authentication block.
    VbmetaAuthentication,
    /// vbmeta auxiliary block.
    VbmetaAuxiliary,
    /// vbmeta descriptor subrange.
    VbmetaDescriptors,
    /// liblp geometry copy.
    SuperGeometry,
    /// liblp metadata copy.
    SuperMetadata,
    /// OTA manifest protobuf bytes.
    OtaManifest,
    /// OTA metadata signature bytes.
    OtaMetadataSignature,
    /// OTA payload-data bytes.
    OtaPayloadData,
}

/// One exact immutable source byte range.
#[derive(Debug)]
pub struct AndroidComponent {
    /// Stable component class.
    pub kind: AndroidComponentKind,
    /// Deterministic component name.
    pub name: String,
    /// Inclusive source byte start.
    pub byte_start: u64,
    /// Exclusive source byte end.
    pub byte_end_exclusive: u64,
    /// SHA-256 of exact component bytes.
    pub sha256: String,
}

/// Abstract value of a component.
pub ghost struct AndroidComponentView {
    /// Component class.
    pub kind: AndroidComponentKind,
    /// Component name.
    pub name: Seq<char>,
    /// Inclusive start.
    pub byte_start: u64,
    /// Exclusive end.
    pub byte_end_exclusive: u64,
    /// Digest text.
    pub sha256: Seq<char>,
}

impl View for AndroidComponent {
    type V = AndroidComponentView;

    open spec fn view(&self) -> AndroidComponentView {
        AndroidComponentView {
            kind: self.kind,
            name: self.name@,
            byte_start: self.byte_start,
            byte_end_exclusive: self.byte_end_exclusive,
            sha256: self.sha256@,
        }
    }
}

/// Views of a sequence of components.
pub open spec fn component_views(s: Seq<AndroidComponent>) -> Seq<AndroidComponentView> {
    s.map_values(|c: AndroidComponent| c@)
}

/// Android inspection failures.
#[derive(Debug, Clone, PartialEq, Eq)]
pub enum C03Error {
    /// Workspace reference is not canonical.
    InvalidWorkspaceRef,
    /// Source must bind an exact object revision.
    InvalidSourceRevision,
    /// One configured resource limit is zero.
    InvalidLimits,
    /// Source exceeds configured bytes.
    SourceTooLarge,
    /// Source signature is not a supported Android artifact family.
    UnsupportedArtifact,
    /// `ANDROID!` framing requires an explicit boot/init_boot declaration.
    BootRoleRequired,
    /// Caller-declared family disagrees with source framing.
    DeclaredKindMismatch,
    /// Header/version is malformed or unsupported.
    Malformed(&'static str),
    /// Numeric accounting overflowed.
    AccountingOverflow,
    /// Component count exceeds configured bound.
    TooManyComponents,
    /// Dynamic partition count exceeds configured bound.
    TooManyPartitions,
    /// Extent count exceeds configured bound.
    TooManyExtents,
    /// Dynamic group count exceeds configured bound.
    TooManyGroups,
    /// OTA operation count exceeds configured bound.
    TooManyOperations,
    /// String exceeds configured bounds or violates format grammar.
    InvalidString,
    /// OTA manifest exceeds configured bytes.
    ManifestTooLarge,
    /// OTA provider failed.
    OtaProvider(String),
    /// OTA provider output is structurally inconsistent.
    InvalidOtaObservation,
    /// Report/source/context binding mismatch.
    SourceBindingMismatch,
    /// Report was mutated after inspection.
    ReportIntegrityMismatch,
    /// Requested child does not exist.
    ChildNotFound,
    /// Requested logical partition cannot be materialized from this source.
    PartitionNotMaterializable,
    /// Materialization exceeds configured bound.
    MaterializationTooLarge,
    /// Registered endpoints have invalid kinds.
    InvalidRegistration,
    /// Registration bytes do not match exact recovered child.
    RegistrationMismatch,
}

/// Little-endian `u16` at `off`, or the failure of reading it.
pub open spec fn rd_le16(s: Seq<u8>, off: int) -> Result<int, C03Error> {
    if off + 2 > usize::MAX {
        Err(C03Error::AccountingOverflow)
    } else if off + 2 > s.len() {
        Err(C03Error::Malformed("truncated little-endian u16"))
    } else {
        Ok(le_value(s, off, 2))
    }
}

/// Little-endian `u32` at `off`, or the failure of reading it.
pub open spec fn rd_le32(s: Seq<u8>, off: int) -> Result<int, C03Error> {
    if off + 4 > usize::MAX {
        Err(C03Error::AccountingOverflow)
    } else if off + 4 > s.len() {
        Err(C03Error::Malformed("truncated little-endian u32"))
    } else {
        Ok(le_value(s, off, 4))
    }
}

/// Little-endian `u64` at `off`, or the failure of reading it.
pub open spec fn rd_le64(s: Seq<u8>, off: int) -> Result<int, C03Error> {
    if off + 8 > usize::MAX {
        Err(C03Error::AccountingOverflow)
    } else if off + 8 > s.len() {
        Err(C03Error::Malformed("truncated little-endian u64"))
    } else {
        Ok(le_value(s, off, 8))
    }
}

/// Big-endian `u32` at `off`, or the failure of reading it.
pub open spec fn rd_be32(s: Seq<u8>, off: int) -> Result<int, C03Error> {
    if off + 4 > usize::MAX {
        Err(C03Error::AccountingOverflow)
    } else if off + 4 > s.len() {
        Err(C03Error::Malformed("truncated big-endian u32"))
    } else {
        Ok(be_value(s, off, 4))
    }
}

/// Big-endian `u64` at `off`, or the failure of reading it.
pub open spec fn rd_be64(s: Seq<u8>, off: int) -> Result<int, C03Error> {
    if off + 8 > usize::MAX {
        Err(C03Error::AccountingOverflow)
    } else if off + 8 > s.len() {
        Err(C03Error::Malformed("truncated big-endian u64"))
    } else {
        Ok(be_value(s, off, 8))
    }
}

/// Read a little-endian `u16` field.
pub fn le16(bytes: &[u8], offset: usize) -> (r: Result<u16, C03Error>)
    ensures
        r matches Ok(v) ==> rd_le16(bytes@, offset as int) == Ok::<int, C03Error>(v as int),
        r matches Err(e) ==> rd_le16(bytes@, offset as int) == Err::<int, C03Error>(e),
{
    if offset > usize::MAX - 2 {
        return Err(C03Error::AccountingOverflow);
    }
    match read_le_u16(bytes, offset) {
        Some(v) => Ok(v),
        None => Err(C03Error::Malformed("truncated little-endian u16")),
    }
}

/// Read a little-endian `u32` field.
pub fn le32(bytes: &[u8], offset: usize) -> (r: Result<u32, C03Error>)
    ensures
        r matches Ok(v) ==> rd_le32(bytes@, offset as int) == Ok::<int, C03Error>(v as int),
        r matches Err(e) ==> rd_le32(bytes@, offset as int) == Err::<int, C03Error>(e),
{
    if offset > usize::MAX - 4 {
        return Err(C03Error::AccountingOverflow);
    }
    match read_le_u32(bytes, offset) {
        Some(v) => Ok(v),
        None => Err(C03Error::Malformed("truncated little-endian u32")),
    }
}

/// Read a little-endian `u64` field.
pub fn le64(bytes: &[u8], offset: usize) -> (r: Result<u64, C03Error>)
    ensures
        r matches Ok(v) ==> rd_le64(bytes@, offset as int) == Ok::<int, C03Error>(v as int),
        r matches Err(e) ==> rd_le64(bytes@, offset as int) == Err::<int, C03Error>(e),
{
    if offset > usize::MAX - 8 {
        return Err(C03Error::AccountingOverflow);
    }
    match read_le_u64(bytes, offset) {
        Some(v) => Ok(v),
        None => Err(C03Error::Malformed("truncated little-endian u64")),
    }
}

/// Read a big-endian `u32` field.
pub fn be32(bytes: &[u8], offset: usize) -> (r: Result<u32, C03Error>)
    ensures
        r matches Ok(v) ==> rd_be32(bytes@, offset as int) == Ok::<int, C03Error>(v as int),
        r matches Err(e) ==> rd_be32(bytes@, offset as int) == Err::<int, C03Error>(e),
{
    if offset > usize::MAX - 4 {
        return Err(C03Error::AccountingOverflow);
    }
    match read_be_u32(bytes, offset) {
        Some(v) => Ok(v),
        None => Err(C03Error::Malformed("truncated big-endian u32")),
    }
}

/// Read a big-endian `u64` field.
pub fn be64(bytes: &[u8], offset: usize) -> (r: Result<u64, C03Error>)
    ensures
        r matches Ok(v) ==> rd_be64(bytes@, offset as int) == Ok::<int, C03Error>(v as int),
        r matches Err(e) ==> rd_be64(bytes@, offset as int) == Err::<int, C03Error>(e),
{
    if offset > usize::MAX - 8 {
        return Err(C03Error::AccountingOverflow);
    }
    match read_be_u64(bytes, offset) {
        Some(v) => Ok(v),
        None => Err(C03Error::Malformed("truncated big-endian u64")),
    }
}

/// Round `value` up to a multiple of `alignment`, or the failure of doing so in 64 bits.
pub open spec fn align_up_spec(value: int, alignment: int) -> Result<int, C03Error> {
    if alignment == 0 {
        Err(C03Error::AccountingOverflow)
    } else if value + alignment - 1 > u64::MAX {
        Err(C03Error::AccountingOverflow)
    } else {
        Ok((value + alignment - 1) / alignment * alignment)
    }
}

/// Round `value` up to a multiple of `alignment`.
pub fn align_up(value: u64, alignment: u64) -> (r: Result<u64, C03Error>)
    ensures
        r matches Ok(v) ==> align_up_spec(value as int, alignment as int) == Ok::<int, C03Error>(
            v as int,
        ),
        r matches Err(e) ==> align_up_spec(value as int, alignment as int) == Err::<int, C03Error>(e),
{
    if alignment == 0 {
        return Err(C03Error::AccountingOverflow);
    }
    if value > u64::MAX - (alignment - 1) {
        return Err(C03Error::AccountingOverflow);
    }
    let v = value + (alignment - 1);
    let q = v / alignment;
    assert(q * alignment <= v) by (nonlinear_arith)
        requires
            q == v / alignment,
            alignment > 0,
    ;
    Ok(q * alignment)
}

/// Number of UTF-8 bytes of a text.
pub open spec fn text_len(s: Seq<char>) -> nat {
    vstd::utf8::encode_utf8(s).len()
}

/// The component for `[start, end)` of `src`.
pub open spec fn component_at(
    src: Seq<u8>,
    kind: AndroidComponentKind,
    name: Seq<char>,
    start: int,
    end: int,
) -> AndroidComponentView {
    AndroidComponentView {
        kind,
        name,
        byte_start: start as u64,
        byte_end_exclusive: end as u64,
        sha256: sha256_hex_of(src.subrange(start, end)),
    }
}

/// Append one component, or the failure of doing so.
pub open spec fn push_spec(
    src: Seq<u8>,
    limits: AndroidLimits,
    comps: Seq<AndroidComponentView>,
    kind: AndroidComponentKind,
    name: Seq<char>,
    start: int,
    end: int,
) -> Result<Seq<AndroidComponentView>, C03Error> {
    if comps.len() >= limits.max_components || text_len(name) > limits.max_string_bytes {
        Err(C03Error::TooManyComponents)
    } else if start < 0 || end < start || end > src.len() {
        Err(C03Error::Malformed("Android component range exceeds source"))
    } else {
        Ok(comps.push(component_at(src, kind, name, start, end)))
    }
}

/// A component whose range lies inside `src` and whose digest is that of the bytes in its range.
pub open spec fn component_backed_by(src: Seq<u8>, c: AndroidComponentView) -> bool {
    &&& c.byte_start <= c.byte_end_exclusive <= src.len()
    &&& c.sha256 == sha256_hex_of(src.subrange(c.byte_start as int, c.byte_end_exclusive as int))
}

/// Every component is backed by `src`.
pub open spec fn components_backed_by(src: Seq<u8>, cs: Seq<AndroidComponentView>) -> bool {
    forall|i: int| 0 <= i < cs.len() ==> component_backed_by(src, #[trigger] cs[i])
}

/// Appending a component keeps every component backed by the source.
pub broadcast proof fn lemma_push_backed(
    src: Seq<u8>,
    limits: AndroidLimits,
    comps: Seq<AndroidComponentView>,
    kind: AndroidComponentKind,
    name: Seq<char>,
    start: int,
    end: int,
)
    requires
        src.len() <= u64::MAX,
        components_backed_by(src, comps),
    ensures
        #[trigger] push_spec(src, limits, comps, kind, name, start, end) matches Ok(c) ==> components_backed_by(src, c),
{
    if let Ok(c) = push_spec(src, limits, comps, kind, name, start, end) {
        assert forall|i: int| 0 <= i < c.len() implies component_backed_by(src, #[trigger] c[i]) by {
            if i < comps.len() {
                assert(c[i] == comps[i]);
            }
        }
    }
}

/// Appending vendor ramdisk fragments keeps every component backed by the source.
pub broadcast proof fn lemma_fragments_backed(
    src: Seq<u8>,
    limits: AndroidLimits,
    table_start: int,
    entry_size: int,
    ramdisk_start: int,
    ramdisk_size: int,
    comps: Seq<AndroidComponentView>,
    n: nat,
)
    requires
        src.len() <= u64::MAX,
        components_backed_by(src, comps),
    ensures
        #[trigger] fragments_spec(src, limits, table_start, entry_size, ramdisk_start, ramdisk_size, comps, n) matches Ok(
            c,
        ) ==> components_backed_by(src, c),
    decreases n,
{
    broadcast use lemma_push_backed;
    if n > 0 {
        lemma_fragments_backed(src, limits, table_start, entry_size, ramdisk_start, ramdisk_size, comps, (n - 1) as nat);
    }
}

/// Appending DTBO entries keeps every component backed by the source.
pub broadcast proof fn lemma_dtbo_entries_backed(
    src: Seq<u8>,
    limits: AndroidLimits,
    entries_offset: int,
    entry_size: int,
    header_size: int,
    total_size: int,
    comps: Seq<AndroidComponentView>,
    n: nat,
)
    requires
        src.len() <= u64::MAX,
        components_backed_by(src, comps),
    ensures
        #[trigger] dtbo_entries_spec(src, limits, entries_offset, entry_size, header_size, total_size, comps, n)
            matches Ok(c) ==> components_backed_by(src, c),
    decreases n,
{
    broadcast use lemma_push_backed;
    if n > 0 {
        lemma_dtbo_entries_backed(src, limits, entries_offset, entry_size, header_size, total_size, comps, (n - 1) as nat);
    }
}

/// Every component of a vendor_boot layout is backed by the source.
pub proof fn lemma_vendor_boot_backed(src: Seq<u8>, limits: AndroidLimits)
    requires
        src.len() <= u64::MAX,
    ensures
        vendor_boot_spec(src, limits) matches Ok(c) ==> components_backed_by(src, c),
{
    broadcast use lemma_push_backed, lemma_fragments_backed;
    assert(components_backed_by(src, Seq::empty()));
}

/// Every component of a DTBO layout is backed by the source.
pub proof fn lemma_dtbo_backed(src: Seq<u8>, limits: AndroidLimits)
    requires
        src.len() <= u64::MAX,
    ensures
        dtbo_spec(src, limits) matches Ok(c) ==> components_backed_by(src, c),
{
    broadcast use lemma_push_backed, lemma_dtbo_entries_backed;
    assert(components_backed_by(src, Seq::empty()));
}

/// Every component of a vbmeta layout is backed by the source.
pub proof fn lemma_vbmeta_backed(src: Seq<u8>, limits: AndroidLimits)
    requires
        src.len() <= u64::MAX,
    ensures
        vbmeta_spec(src, limits) matches Ok(c) ==> components_backed_by(src, c),
{
    broadcast use lemma_push_backed;
    assert(components_backed_by(src, Seq::empty()));
}

/// Every component of a boot or init_boot layout is backed by the source.
pub proof fn lemma_boot_backed(src: Seq<u8>, kind: AndroidArtifactKind, limits: AndroidLimits)
    requires
        src.len() <= u64::MAX,
    ensures
        boot_spec(src, kind, limits) matches Ok(x) ==> components_backed_by(src, x.0),
{
    broadcast use lemma_push_backed;
    assert(components_backed_by(src, Seq::empty()));
}

/// Append the component of `size` bytes at `start` and return the aligned end, or the failure.
pub open spec fn push_aligned_spec(
    src: Seq<u8>,
    limits: AndroidLimits,
    comps: Seq<AndroidComponentView>,
    kind: AndroidComponentKind,
    name: Seq<char>,
    start: int,
    size: int,
    alignment: int,
) -> Result<(Seq<AndroidComponentView>, int), C03Error> {
    if start + size > u64::MAX {
        Err(C03Error::AccountingOverflow)
    } else {
        match push_spec(src, limits, comps, kind, name, start, start + size) {
            Err(e) => Err(e),
            Ok(c) => match align_up_spec(start + size, alignment) {
                Err(e) => Err(e),
                Ok(n) => Ok((c, n)),
            },
        }
    }
}

/// Append one exact source component after checking the count, name and range bounds.
pub fn push_component(
    source: &[u8],
    components: &mut Vec<AndroidComponent>,
    kind: AndroidComponentKind,
    name: &str,
    start: u64,
    end: u64,
    limits: AndroidLimits,
) -> (r: Result<(), C03Error>)
    ensures
        r matches Ok(_) ==> push_spec(
            source@,
            limits,
            component_views(old(components)@),
            kind,
            name@,
            start as int,
            end as int,
        ) == Ok::<Seq<AndroidComponentView>, C03Error>(component_views(final(components)@)),
        r matches Err(e) ==> push_spec(
            source@,
            limits,
            component_views(old(components)@),
            kind,
            name@,
            start as int,
            end as int,
        ) == Err::<Seq<AndroidComponentView>, C03Error>(e),
{
    if components.len() >= limits.max_components || name.as_bytes().len() > limits.max_string_bytes {
        return Err(C03Error::TooManyComponents);
    }
    if end < start || end > source.len() as u64 {
        return Err(C03Error::Malformed("Android component range exceeds source"));
    }
    let bytes = vstd::slice::slice_subrange(source, start as usize, end as usize);
    let sha256 = sha256_hex(bytes);
    let ghost before = components@;
    components.push(
        AndroidComponent {
            kind,
            name: String::from_str(name),
            byte_start: start,
            byte_end_exclusive: end,
            sha256,
        },
    );
    assert(component_views(components@) =~= component_views(before).push(
        component_at(source@, kind, name@, start as int, end as int),
    ));
    Ok(())
}

/// Append the component of `size` bytes at `start`; return its end rounded up to `alignment`.
pub fn push_aligned_component(
    source: &[u8],
    components: &mut Vec<AndroidComponent>,
    kind: AndroidComponentKind,
    name: &str,
    start: u64,
    size: u64,
    alignment: u64,
    limits: AndroidLimits,
) -> (r: Result<u64, C03Error>)
    ensures
        r matches Ok(n) ==> push_aligned_spec(
            source@,
            limits,
            component_views(old(components)@),
            kind,
            name@,
            start as int,
            size as int,
            alignment as int,
        ) == Ok::<(Seq<AndroidComponentView>, int), C03Error>(
            (component_views(final(components)@), n as int),
        ),
        r matches Err(e) ==> push_aligned_spec(
            source@,
            limits,
            component_views(old(components)@),
            kind,
            name@,
            start as int,
            size as int,
            alignment as int,
        ) == Err::<(Seq<AndroidComponentView>, int), C03Error>(e),
{
    if start > u64::MAX - size {
        return Err(C03Error::AccountingOverflow);
    }
    let end = start + size;
    push_component(source, components, kind, name, start, end, limits)?;
    align_up(end, alignment)
}

/// A byte sequence begins with `magic`.
pub open spec fn starts_with(s: Seq<u8>, magic: Seq<u8>) -> bool {
    magic.len() <= s.len() && s.subrange(0, magic.len() as int) == magic
}

/// `ANDROID!`
pub open spec fn boot_magic() -> Seq<u8> {
    seq![0x41u8, 0x4e, 0x44, 0x52, 0x4f, 0x49, 0x44, 0x21]
}

/// `VNDRBOOT`
pub open spec fn vendor_boot_magic() -> Seq<u8> {
    seq![0x56u8, 0x4e, 0x44, 0x52, 0x42, 0x4f, 0x4f, 0x54]
}

/// `AVB0`
pub open spec fn avb_magic() -> Seq<u8> {
    seq![0x41u8, 0x56, 0x42, 0x30]
}

/// `CrAU`
pub open spec fn ota_magic() -> Seq<u8> {
    seq![0x43u8, 0x72, 0x41, 0x55]
}

fn has_prefix(s: &[u8], magic: &Vec<u8>) -> (r: bool)
    ensures
        r == starts_with(s@, magic@),
{
    if magic.len() > s.len() {
        return false;
    }
    let mut i: usize = 0;
    while i < magic.len()
        invariant
            magic@.len() <= s@.len(),
            i <= magic@.len(),
            forall|j: int| 0 <= j < i ==> s@[j] == magic@[j],
        decreases magic.len() - i,
    {
        if s[i] != magic[i] {
            assert(s@.subrange(0, magic@.len() as int)[i as int] != magic@[i as int]);
            return false;
        }
        i = i + 1;
    }
    assert(s@.subrange(0, magic@.len() as int) =~= magic@);
    true
}

/// The source starts with `ANDROID!`.
pub fn is_boot_framing(s: &[u8]) -> (r: bool)
    ensures
        r == starts_with(s@, boot_magic()),
{
    let m: Vec<u8> = vec![0x41, 0x4e, 0x44, 0x52, 0x4f, 0x49, 0x44, 0x21];
    assert(m@ =~= boot_magic());
    has_prefix(s, &m)
}

/// The source starts with `VNDRBOOT`.
pub fn is_vendor_boot_framing(s: &[u8]) -> (r: bool)
    ensures
        r == starts_with(s@, vendor_boot_magic()),
{
    let m: Vec<u8> = vec![0x56, 0x4e, 0x44, 0x52, 0x42, 0x4f, 0x4f, 0x54];
    assert(m@ =~= vendor_boot_magic());
    has_prefix(s, &m)
}

/// The source starts with `AVB0`.
pub fn is_vbmeta_framing(s: &[u8]) -> (r: bool)
    ensures
        r == starts_with(s@, avb_magic()),
{
    let m: Vec<u8> = vec![0x41, 0x56, 0x42, 0x30];
    assert(m@ =~= avb_magic());
    has_prefix(s, &m)
}

/// The source starts with `CrAU`.
pub fn is_ota_framing(s: &[u8]) -> (r: bool)
    ensures
        r == starts_with(s@, ota_magic()),
{
    let m: Vec<u8> = vec![0x43, 0x72, 0x41, 0x55];
    assert(m@ =~= ota_magic());
    has_prefix(s, &m)
}

/// A legacy boot page size: a power of two from 512 to 65536.
pub open spec fn legacy_page_ok(p: int) -> bool {
    p == 512 || p == 1024 || p == 2048 || p == 4096 || p == 8192 || p == 16384 || p == 32768
        || p == 65536
}

fn page_size_ok(p: u64) -> (r: bool)
    ensures
        r == legacy_page_ok(p as int),
{
    p == 512 || p == 1024 || p == 2048 || p == 4096 || p == 8192 || p == 16384 || p == 32768
        || p == 65536
}

/// Limitation recorded when a boot v4 signature region is present.
pub open spec fn boot_signature_limitation() -> Seq<char> {
    "boot_signature presence is structural evidence, not device AVB trust"@
}

/// Recovery DTBO of a v1/v2 legacy boot image, continuing from `cur`.
pub open spec fn boot_recovery_spec(
    src: Seq<u8>,
    limits: AndroidLimits,
    page: int,
    comps: Seq<AndroidComponentView>,
    cur: int,
) -> Result<(Seq<AndroidComponentView>, int), C03Error> {
    match rd_le32(src, 1632) {
        Err(e) => Err(e),
        Ok(size) => match rd_le64(src, 1636) {
            Err(e) => Err(e),
            Ok(offset) => if size > 0 {
                if offset % page != 0 || offset < cur {
                    Err(C03Error::Malformed("invalid recovery DTBO offset"))
                } else if offset + size > u64::MAX {
                    Err(C03Error::AccountingOverflow)
                } else {
                    match push_spec(
                        src,
                        limits,
                        comps,
                        AndroidComponentKind::RecoveryDtbo,
                        "boot.recovery_dtbo"@,
                        offset,
                        offset + size,
                    ) {
                        Err(e) => Err(e),
                        Ok(c) => match align_up_spec(offset + size, page) {
                            Err(e) => Err(e),
                            Ok(n) => Ok((c, n)),
                        },
                    }
                }
            } else {
                Ok((comps, cur))
            },
        },
    }
}

/// DTB of a v2 legacy boot image at `cur`.
pub open spec fn boot_dtb_spec(
    src: Seq<u8>,
    limits: AndroidLimits,
    comps: Seq<AndroidComponentView>,
    cur: int,
) -> Result<Seq<AndroidComponentView>, C03Error> {
    match rd_le32(src, 1648) {
        Err(e) => Err(e),
        Ok(size) => if size == 0 {
            Err(C03Error::Malformed("boot v2 DTB is empty"))
        } else if cur + size > u64::MAX {
            Err(C03Error::AccountingOverflow)
        } else {
            push_spec(src, limits, comps, AndroidComponentKind::Dtb, "boot.dtb"@, cur, cur + size)
        },
    }
}

/// Components of a legacy (v0-v2) boot image after its kernel, ramdisk and second stage.
pub open spec fn boot_legacy_tail_spec(
    src: Seq<u8>,
    limits: AndroidLimits,
    version: int,
    page: int,
    comps: Seq<AndroidComponentView>,
    cur: int,
) -> Result<Seq<AndroidComponentView>, C03Error> {
    match (if version >= 1 {
        boot_recovery_spec(src, limits, page, comps, cur)
    } else {
        Ok((comps, cur))
    }) {
        Err(e) => Err(e),
        Ok(st) => if version == 2 {
            boot_dtb_spec(src, limits, st.0, st.1)
        } else {
            Ok(st.0)
        },
    }
}

/// Components of a legacy (v0-v2) boot image.
pub open spec fn boot_legacy_spec(src: Seq<u8>, limits: AndroidLimits, version: int) -> Result<
    Seq<AndroidComponentView>,
    C03Error,
> {
    let page = le_value(src, 36, 4);
    if !legacy_page_ok(page) {
        Err(C03Error::Malformed("invalid legacy boot page size"))
    } else {
        let header_size = if version == 0 {
            BOOT_V0_SIZE as int
        } else if version == 1 {
            BOOT_V1_SIZE as int
        } else {
            BOOT_V2_SIZE as int
        };
        match push_spec(
            src,
            limits,
            Seq::empty(),
            AndroidComponentKind::Header,
            "boot.header"@,
            0,
            header_size,
        ) {
            Err(e) => Err(e),
            Ok(c0) => {
                let kernel = le_value(src, 8, 4);
                let ramdisk = le_value(src, 16, 4);
                let second = le_value(src, 24, 4);
                if kernel == 0 || ramdisk == 0 {
                    Err(C03Error::Malformed("legacy boot kernel/ramdisk is empty"))
                } else {
                    match push_aligned_spec(
                        src,
                        limits,
                        c0,
                        AndroidComponentKind::Kernel,
                        "boot.kernel"@,
                        page,
                        kernel,
                        page,
                    ) {
                        Err(e) => Err(e),
                        Ok(s1) => match push_aligned_spec(
                            src,
                            limits,
                            s1.0,
                            AndroidComponentKind::Ramdisk,
                            "boot.ramdisk"@,
                            s1.1,
                            ramdisk,
                            page,
                        ) {
                            Err(e) => Err(e),
                            Ok(s2) => match (if second > 0 {
                                push_aligned_spec(
                                    src,
                                    limits,
                                    s2.0,
                                    AndroidComponentKind::SecondStage,
                                    "boot.second"@,
                                    s2.1,
                                    second,
                                    page,
                                )
                            } else {
                                Ok(s2)
                            }) {
                                Err(e) => Err(e),
                                Ok(s3) => boot_legacy_tail_spec(src, limits, version, page, s3.0, s3.1),
                            },
                        },
                    }
                }
            },
        }
    }
}

/// Signature region of a v4 boot image at `cur`, with the limitation it records.
pub open spec fn boot_signature_spec(
    src: Seq<u8>,
    limits: AndroidLimits,
    comps: Seq<AndroidComponentView>,
    cur: int,
) -> Result<(Seq<AndroidComponentView>, Seq<Seq<char>>), C03Error> {
    match rd_le32(src, 1580) {
        Err(e) => Err(e),
        Ok(size) => if size > 0 {
            if cur + size > u64::MAX {
                Err(C03Error::AccountingOverflow)
            } else {
                match push_spec(
                    src,
                    limits,
                    comps,
                    AndroidComponentKind::BootSignature,
                    "boot.signature"@,
                    cur,
                    cur + size,
                ) {
                    Err(e) => Err(e),
                    Ok(c) => Ok((c, seq![boot_signature_limitation()])),
                }
            }
        } else {
            Ok((comps, Seq::empty()))
        },
    }
}

/// Name of the ramdisk component of a v3/v4 boot or init_boot image.
pub open spec fn boot_ramdisk_name(kind: AndroidArtifactKind) -> Seq<char> {
    if kind == AndroidArtifactKind::InitBoot {
        "init_boot.ramdisk"@
    } else {
        "boot.ramdisk"@
    }
}

/// Components and limitations of a v3/v4 boot or init_boot image.
pub open spec fn boot_modern_spec(
    src: Seq<u8>,
    kind: AndroidArtifactKind,
    version: int,
    limits: AndroidLimits,
) -> Result<(Seq<AndroidComponentView>, Seq<Seq<char>>), C03Error> {
    let expected = if version == 3 { BOOT_V3_SIZE as int } else { BOOT_V4_SIZE as int };
    let declared = le_value(src, 20, 4);
    if declared < expected || declared > 4096 {
        Err(C03Error::Malformed("invalid boot v3/v4 header size"))
    } else {
        match push_spec(
            src,
            limits,
            Seq::empty(),
            AndroidComponentKind::Header,
            "boot.header"@,
            0,
            declared,
        ) {
            Err(e) => Err(e),
            Ok(c0) => {
                let kernel = le_value(src, 8, 4);
                let ramdisk = le_value(src, 12, 4);
                if kind == AndroidArtifactKind::InitBoot && (version != 4 || kernel != 0 || ramdisk
                    == 0) {
                    Err(C03Error::Malformed("init_boot must be v4 ramdisk-only framing"))
                } else if kind != AndroidArtifactKind::InitBoot && kernel == 0 {
                    Err(C03Error::Malformed("boot v3/v4 kernel is empty"))
                } else {
                    match (if kernel > 0 {
                        push_aligned_spec(
                            src,
                            limits,
                            c0,
                            AndroidComponentKind::Kernel,
                            "boot.kernel"@,
                            4096,
                            kernel,
                            4096,
                        )
                    } else {
                        Ok((c0, 4096))
                    }) {
                        Err(e) => Err(e),
                        Ok(s1) => match (if ramdisk > 0 {
                            push_aligned_spec(
                                src,
                                limits,
                                s1.0,
                                AndroidComponentKind::Ramdisk,
                                boot_ramdisk_name(kind),
                                s1.1,
                                ramdisk,
                                4096,
                            )
                        } else {
                            Ok(s1)
                        }) {
                            Err(e) => Err(e),
                            Ok(s2) => if version == 4 {
                                boot_signature_spec(src, limits, s2.0, s2.1)
                            } else {
                                Ok((s2.0, Seq::empty()))
                            },
                        },
                    }
                }
            },
        }
    }
}

proof fn lemma_page_round(v: int)
    requires
        v >= 0,
    ensures
        (v + 4095) / 4096 * 4096 % 4096 == 0,
        (v + 4096 + 4095) / 4096 * 4096 == 4096 + (v + 4095) / 4096 * 4096,
        v <= (v + 4095) / 4096 * 4096,
{
    vstd::arithmetic::div_mod::lemma_mod_multiples_basic((v + 4095) / 4096, 4096);
    assert((v + 4096 + 4095) / 4096 == (v + 4095) / 4096 + 1) by (nonlinear_arith)
        requires
            v >= 0,
    ;
    assert(v <= (v + 4095) / 4096 * 4096) by (nonlinear_arith)
        requires
            v >= 0,
    ;
}

proof fn lemma_round_to(v: int, p: int)
    requires
        v >= 0,
        p > 0,
    ensures
        (v + p - 1) / p * p % p == 0,
        (v + p + p - 1) / p * p == p + (v + p - 1) / p * p,
        v <= (v + p - 1) / p * p,
{
    let q = (v + p - 1) / p;
    vstd::arithmetic::div_mod::lemma_mod_multiples_basic(q, p);
    assert((v + p + p - 1) / p == q + 1) by (nonlinear_arith)
        requires
            v >= 0,
            p > 0,
            q == (v + p - 1) / p,
    ;
    assert((q + 1) * p == p + q * p) by (nonlinear_arith);
    assert(v <= (v + p - 1) / p * p) by (nonlinear_arith)
        requires
            v >= 0,
            p > 0,
    ;
}

/// Every component after the first starts on a multiple of `p`.
pub open spec fn pages_from(c: Seq<AndroidComponentView>, p: int) -> bool {
    forall|i: int| 1 <= i < c.len() ==> #[trigger] (c[i].byte_start as int) % p == 0
}

proof fn lemma_push_on_page(
    src: Seq<u8>,
    limits: AndroidLimits,
    comps: Seq<AndroidComponentView>,
    kind: AndroidComponentKind,
    name: Seq<char>,
    start: int,
    end: int,
    p: int,
)
    requires
        p > 0,
        comps.len() >= 1,
        pages_from(comps, p),
        start % p == 0,
        end <= u64::MAX,
    ensures
        push_spec(src, limits, comps, kind, name, start, end) matches Ok(c) ==> pages_from(c, p) && c.len()
            == comps.len() + 1 && c.subrange(0, comps.len() as int) == comps && c[comps.len() as int].byte_start
            == start && c[comps.len() as int].byte_end_exclusive == end,
{
    if let Ok(c) = push_spec(src, limits, comps, kind, name, start, end) {
        assert forall|i: int| 1 <= i < c.len() implies #[trigger] (c[i].byte_start as int) % p == 0 by {
            if i < comps.len() {
                assert(c[i] == comps[i]);
            }
        }
        assert(c.subrange(0, comps.len() as int) =~= comps);
    }
}

proof fn lemma_legacy_tail_pages(
    src: Seq<u8>,
    limits: AndroidLimits,
    version: int,
    page: int,
    comps: Seq<AndroidComponentView>,
    cur: int,
)
    requires
        page > 0,
        comps.len() >= 1,
        pages_from(comps, page),
        cur >= 0,
        cur % page == 0,
    ensures
        boot_legacy_tail_spec(src, limits, version, page, comps, cur) matches Ok(c) ==> pages_from(c, page)
            && c.len() >= comps.len() && c.subrange(0, comps.len() as int) == comps,
{
    crate::bytes::lemma_le_value_bounds(src, 1632, 4);
    crate::bytes::lemma_le_value_bounds(src, 1636, 8);
    crate::bytes::lemma_le_value_bounds(src, 1648, 4);
    let st: Result<(Seq<AndroidComponentView>, int), C03Error> = if version >= 1 {
        boot_recovery_spec(src, limits, page, comps, cur)
    } else {
        Ok((comps, cur))
    };
    if version >= 1 {
        if let (Ok(size), Ok(offset)) = (rd_le32(src, 1632), rd_le64(src, 1636)) {
            if size > 0 && offset % page == 0 && offset >= cur && offset + size <= u64::MAX {
                lemma_push_on_page(src, limits, comps, AndroidComponentKind::RecoveryDtbo, "boot.recovery_dtbo"@, offset, offset + size, page);
                lemma_round_to(offset + size, page);
            }
        }
    }
    if let Ok(x) = st {
        assert(x.1 % page == 0 && x.1 >= 0 && x.0.len() >= comps.len() && x.0.subrange(0, comps.len() as int) == comps && pages_from(x.0, page));
        if version == 2 {
            if let Ok(size) = rd_le32(src, 1648) {
                if x.1 + size <= u64::MAX {
                    lemma_push_on_page(src, limits, x.0, AndroidComponentKind::Dtb, "boot.dtb"@, x.1, x.1 + size, page);
                    if let Ok(c) = boot_dtb_spec(src, limits, x.0, x.1) {
                        assert(c.subrange(0, comps.len() as int) =~= c.subrange(0, x.0.len() as int).subrange(0, comps.len() as int));
                    }
                }
            }
        }
    }
}

/// `c` begins with the components of `comps`.
pub open spec fn extends_components(c: Seq<AndroidComponentView>, comps: Seq<AndroidComponentView>) -> bool {
    c.len() >= comps.len() && forall|k: int| 0 <= k < comps.len() ==> #[trigger] c[k] == comps[k]
}

/// Appending a component keeps the components before it.
pub broadcast proof fn lemma_push_extends(
    src: Seq<u8>,
    limits: AndroidLimits,
    comps: Seq<AndroidComponentView>,
    kind: AndroidComponentKind,
    name: Seq<char>,
    start: int,
    end: int,
)
    ensures
        #[trigger] push_spec(src, limits, comps, kind, name, start, end) matches Ok(c) ==> extends_components(c, comps),
{
}

proof fn lemma_fragments_extend(
    src: Seq<u8>,
    limits: AndroidLimits,
    table_start: int,
    entry_size: int,
    ramdisk_start: int,
    ramdisk_size: int,
    comps: Seq<AndroidComponentView>,
    n: nat,
)
    ensures
        fragments_spec(src, limits, table_start, entry_size, ramdisk_start, ramdisk_size, comps, n) matches Ok(c)
            ==> extends_components(c, comps),
    decreases n,
{
    broadcast use lemma_push_extends;

    if n > 0 {
        lemma_fragments_extend(src, limits, table_start, entry_size, ramdisk_start, ramdisk_size, comps, (n - 1) as nat);
        if let Ok(c1) = fragments_spec(src, limits, table_start, entry_size, ramdisk_start, ramdisk_size, comps, (n - 1) as nat) {
            if let Ok(c) = fragment_step(src, limits, table_start, entry_size, ramdisk_start, ramdisk_size, c1, n - 1) {
                assert(extends_components(c, c1));
                assert forall|k: int| 0 <= k < comps.len() implies #[trigger] c[k] == comps[k] by {
                    assert(c[k] == c1[k]);
                }
            }
        }
    }
}

proof fn lemma_extends_trans(a: Seq<AndroidComponentView>, b: Seq<AndroidComponentView>, c: Seq<AndroidComponentView>)
    requires
        extends_components(a, b),
        extends_components(b, c),
    ensures
        extends_components(a, c),
{
    assert forall|k: int| 0 <= k < c.len() implies #[trigger] a[k] == c[k] by {
        assert(a[k] == b[k]);
    }
}

proof fn lemma_vendor_v4_extends(
    src: Seq<u8>,
    limits: AndroidLimits,
    page: int,
    ramdisk_start: int,
    ramdisk_size: int,
    comps: Seq<AndroidComponentView>,
    cur: int,
)
    ensures
        vendor_v4_spec(src, limits, page, ramdisk_start, ramdisk_size, comps, cur) matches Ok(c) ==> extends_components(
            c,
            comps,
        ),
{
    broadcast use lemma_push_extends;

    if let (Ok(table_size), Ok(count), Ok(entry_size), Ok(bootconfig)) = (
        rd_le32(src, 2112),
        rd_le32(src, 2116),
        rd_le32(src, 2120),
        rd_le32(src, 2124),
    ) {
        let st: Result<(Seq<AndroidComponentView>, int), C03Error> = if count > 0 {
            if entry_size < VENDOR_RAMDISK_TABLE_ENTRY_V4_SIZE || count * entry_size > table_size {
                Err(C03Error::Malformed("invalid vendor ramdisk table sizing"))
            } else if cur + table_size > u64::MAX {
                Err(C03Error::AccountingOverflow)
            } else {
                match push_spec(src, limits, comps, AndroidComponentKind::VendorRamdiskTable, "vendor_boot.ramdisk_table"@, cur, cur + table_size) {
                    Err(e) => Err(e),
                    Ok(c) => match fragments_spec(src, limits, cur, entry_size, ramdisk_start, ramdisk_size, c, count as nat) {
                        Err(e) => Err(e),
                        Ok(c2) => match align_up_spec(cur + table_size, page) {
                            Err(e) => Err(e),
                            Ok(n) => Ok((c2, n)),
                        },
                    },
                }
            }
        } else if table_size != 0 {
            Err(C03Error::Malformed("vendor ramdisk table count/size mismatch"))
        } else {
            Ok((comps, cur))
        };
        if count > 0 {
            if let Ok(c) = push_spec(src, limits, comps, AndroidComponentKind::VendorRamdiskTable, "vendor_boot.ramdisk_table"@, cur, cur + table_size) {
                lemma_fragments_extend(src, limits, cur, entry_size, ramdisk_start, ramdisk_size, c, count as nat);
                if let Ok(c2) = fragments_spec(src, limits, cur, entry_size, ramdisk_start, ramdisk_size, c, count as nat) {
                    lemma_extends_trans(c2, c, comps);
                }
            }
        }
        if let Ok(x) = st {
            assert(extends_components(x.0, comps));
            if bootconfig > 0 && x.1 + bootconfig <= u64::MAX {
                if let Ok(c3) = push_spec(src, limits, x.0, AndroidComponentKind::Bootconfig, "vendor_boot.bootconfig"@, x.1, x.1 + bootconfig) {
                    lemma_extends_trans(c3, x.0, comps);
                }
            }
        }
    }
}

/// Page framing of a vendor_boot image, whose page size is the little-endian word at byte 12:
/// the vendor ramdisk section (size at byte 24) starts at the first page after the fixed header
/// (2112 bytes for version 3, 2128 for version 4) and the DTB (size at byte 2100) at the first
/// page after the ramdisk section.
pub proof fn lemma_vendor_boot_pages(src: Seq<u8>, limits: AndroidLimits)
    requires
        vendor_boot_spec(src, limits) is Ok,
    ensures
        ({
            let c = vendor_boot_spec(src, limits)->Ok_0;
            let page = le_value(src, 12, 4);
            let ramdisk = le_value(src, 24, 4);
            let dtb = le_value(src, 2100, 4);
            let hdr = if le_value(src, 8, 4) == 3 { 2112int } else { 2128int };
            let rs = (hdr + page - 1) / page * page;
            let ds = (rs + ramdisk + page - 1) / page * page;
            &&& page > 0 && rs % page == 0 && ds % page == 0
            &&& c.len() >= 3
            &&& c[0].byte_start == 0 && c[0].byte_end_exclusive == le_value(src, 2096, 4)
            &&& c[1].byte_start == rs && c[1].byte_end_exclusive == rs + ramdisk
            &&& c[2].byte_start == ds && c[2].byte_end_exclusive == ds + dtb
        }),
{
    broadcast use lemma_push_extends;

    let version = le_value(src, 8, 4);
    let page = le_value(src, 12, 4);
    let ramdisk = le_value(src, 24, 4);
    let dtb = le_value(src, 2100, 4);
    crate::bytes::lemma_le_value_bounds(src, 24, 4);
    crate::bytes::lemma_le_value_bounds(src, 2100, 4);
    let hdr = if version == 3 { 2112int } else { 2128int };
    assert(legacy_page_ok(page));
    lemma_round_to(hdr, page);
    let rs = (hdr + page - 1) / page * page;
    lemma_round_to(rs + ramdisk, page);
    let ds = (rs + ramdisk + page - 1) / page * page;
    lemma_round_to(ds + dtb, page);
    let c0 = push_spec(src, limits, Seq::empty(), AndroidComponentKind::Header, "vendor_boot.header"@, 0, le_value(src, 2096, 4))->Ok_0;
    let s1 = push_aligned_spec(src, limits, c0, AndroidComponentKind::VendorRamdisk, "vendor_boot.ramdisk_section"@, rs, ramdisk, page)->Ok_0;
    let s2 = push_aligned_spec(src, limits, s1.0, AndroidComponentKind::Dtb, "vendor_boot.dtb"@, s1.1, dtb, page)->Ok_0;
    assert(s1.1 == ds);
    assert(s2.0.len() == 3 && s2.0[1] == s1.0[1] && s2.0[0] == c0[0]);
    if version == 4 {
        lemma_vendor_v4_extends(src, limits, page, rs, ramdisk, s2.0, s2.1);
    }
    let c = vendor_boot_spec(src, limits)->Ok_0;
    assert(c[0] == s2.0[0] && c[1] == s2.0[1] && c[2] == s2.0[2]);
}

/// Page framing of a v0-v2 boot image, whose page size is the little-endian word at byte 36:
/// the header starts the image, every later component starts on a page boundary, the kernel
/// (size at byte 8) spans its bytes from the first page, and the ramdisk (size at byte 16)
/// starts at the first page after the kernel bytes.
pub proof fn lemma_boot_legacy_pages(src: Seq<u8>, kind: AndroidArtifactKind, limits: AndroidLimits)
    requires
        boot_spec(src, kind, limits) is Ok,
        le_value(src, 40, 4) <= 2,
    ensures
        ({
            let c = boot_spec(src, kind, limits)->Ok_0.0;
            let page = le_value(src, 36, 4);
            let kernel = le_value(src, 8, 4);
            let ramdisk = le_value(src, 16, 4);
            let rstart = page + (kernel + page - 1) / page * page;
            &&& page > 0
            &&& c.len() >= 3
            &&& c[0].byte_start == 0
            &&& pages_from(c, page)
            &&& c[1].byte_start == page && c[1].byte_end_exclusive == page + kernel
            &&& c[2].byte_start == rstart && c[2].byte_end_exclusive == rstart + ramdisk
        }),
{
    let version = le_value(src, 40, 4);
    let page = le_value(src, 36, 4);
    let kernel = le_value(src, 8, 4);
    let ramdisk = le_value(src, 16, 4);
    let second = le_value(src, 24, 4);
    crate::bytes::lemma_le_value_bounds(src, 8, 4);
    crate::bytes::lemma_le_value_bounds(src, 16, 4);
    crate::bytes::lemma_le_value_bounds(src, 24, 4);
    assert(boot_spec(src, kind, limits) == Ok::<(Seq<AndroidComponentView>, Seq<Seq<char>>), C03Error>(
        (boot_legacy_spec(src, limits, version)->Ok_0, Seq::empty()),
    ));
    assert(legacy_page_ok(page));
    let hs = if version == 0 {
        BOOT_V0_SIZE as int
    } else if version == 1 {
        BOOT_V1_SIZE as int
    } else {
        BOOT_V2_SIZE as int
    };
    let c0 = push_spec(src, limits, Seq::empty(), AndroidComponentKind::Header, "boot.header"@, 0, hs)->Ok_0;
    assert(c0.len() == 1 && c0[0].byte_start == 0);
    assert(pages_from(c0, page));
    lemma_push_on_page(src, limits, c0, AndroidComponentKind::Kernel, "boot.kernel"@, page, page + kernel, page);
    lemma_round_to(kernel, page);
    lemma_round_to(page + kernel, page);
    let rstart = page + (kernel + page - 1) / page * page;
    let s1 = push_aligned_spec(src, limits, c0, AndroidComponentKind::Kernel, "boot.kernel"@, page, kernel, page)->Ok_0;
    assert(s1.1 == rstart);
    lemma_push_on_page(src, limits, s1.0, AndroidComponentKind::Ramdisk, "boot.ramdisk"@, rstart, rstart + ramdisk, page);
    lemma_round_to(rstart + ramdisk, page);
    let s2 = push_aligned_spec(src, limits, s1.0, AndroidComponentKind::Ramdisk, "boot.ramdisk"@, rstart, ramdisk, page)->Ok_0;
    assert(s2.0.len() == 3 && s2.0[1] == s1.0[1] && pages_from(s2.0, page) && s2.1 % page == 0);
    let s3 = if second > 0 {
        lemma_push_on_page(src, limits, s2.0, AndroidComponentKind::SecondStage, "boot.second"@, s2.1, s2.1 + second, page);
        lemma_round_to(s2.1 + second, page);
        push_aligned_spec(src, limits, s2.0, AndroidComponentKind::SecondStage, "boot.second"@, s2.1, second, page)->Ok_0
    } else {
        s2
    };
    assert(s3.0.len() >= 3 && s3.0.subrange(0, 3) == s2.0 && pages_from(s3.0, page) && s3.1 % page == 0 && s3.1 >= 0);
    lemma_legacy_tail_pages(src, limits, version, page, s3.0, s3.1);
    let c = boot_legacy_tail_spec(src, limits, version, page, s3.0, s3.1)->Ok_0;
    assert(c.subrange(0, 3) =~= c.subrange(0, s3.0.len() as int).subrange(0, 3));
    assert(c[1] == c.subrange(0, 3)[1] && c[2] == c.subrange(0, 3)[2] && c[0] == c.subrange(0, 3)[0]);
}

/// Page framing of a v3/v4 boot or init_boot image: the header spans the declared header size
/// (the little-endian word at byte 20), every later component starts on a 4096-byte page, the
/// kernel (size at byte 8), when present, spans its bytes from byte 4096, and the ramdisk (size
/// at byte 12), when present, starts at the first page after the kernel bytes.
pub proof fn lemma_boot_modern_pages(src: Seq<u8>, kind: AndroidArtifactKind, limits: AndroidLimits)
    requires
        boot_spec(src, kind, limits) is Ok,
        le_value(src, 40, 4) == 3 || le_value(src, 40, 4) == 4,
    ensures
        ({
            let c = boot_spec(src, kind, limits)->Ok_0.0;
            let kernel = le_value(src, 8, 4);
            let ramdisk = le_value(src, 12, 4);
            let rstart = 4096 + (kernel + 4095) / 4096 * 4096;
            let ri = if kernel > 0 { 2int } else { 1int };
            &&& c.len() >= 1
            &&& c[0].byte_start == 0
            &&& c[0].byte_end_exclusive == le_value(src, 20, 4)
            &&& forall|i: int| 1 <= i < c.len() ==> #[trigger] c[i].byte_start % 4096 == 0
            &&& kernel > 0 ==> c.len() >= 2 && c[1].byte_start == 4096 && c[1].byte_end_exclusive == 4096 + kernel
            &&& ramdisk > 0 ==> c.len() > ri && c[ri].byte_start == rstart && c[ri].byte_end_exclusive == rstart
                + ramdisk
        }),
{
    let version = le_value(src, 40, 4);
    let kernel = le_value(src, 8, 4);
    let ramdisk = le_value(src, 12, 4);
    crate::bytes::lemma_le_value_bounds(src, 8, 4);
    crate::bytes::lemma_le_value_bounds(src, 12, 4);
    crate::bytes::lemma_le_value_bounds(src, 1580, 4);
    lemma_page_round(kernel);
    lemma_page_round(0);
    let k1 = (4096 + kernel + 4095) / 4096 * 4096;
    let rstart = 4096 + (kernel + 4095) / 4096 * 4096;
    let r1 = if kernel > 0 { k1 } else { 4096 };
    assert(r1 == rstart);
    lemma_page_round(rstart + ramdisk - 4096);
    assert(boot_spec(src, kind, limits) == boot_modern_spec(src, kind, version, limits));
}

/// Components and limitations of a boot (`kind == Boot`) or init_boot image.
pub open spec fn boot_spec(src: Seq<u8>, kind: AndroidArtifactKind, limits: AndroidLimits) -> Result<
    (Seq<AndroidComponentView>, Seq<Seq<char>>),
    C03Error,
> {
    if src.len() < 48 {
        Err(C03Error::Malformed("boot header is truncated"))
    } else {
        let version = le_value(src, 40, 4);
        if version > 4 {
            Err(C03Error::Malformed("unsupported boot header version"))
        } else if kind == AndroidArtifactKind::InitBoot && version != 4 {
            Err(C03Error::DeclaredKindMismatch)
        } else if version <= 2 {
            if kind != AndroidArtifactKind::Boot {
                Err(C03Error::DeclaredKindMismatch)
            } else {
                match boot_legacy_spec(src, limits, version) {
                    Err(e) => Err(e),
                    Ok(c) => Ok((c, Seq::empty())),
                }
            }
        } else {
            boot_modern_spec(src, kind, version, limits)
        }
    }
}

fn boot_recovery(
    source: &[u8],
    components: &mut Vec<AndroidComponent>,
    page: u64,
    cursor: u64,
    limits: AndroidLimits,
) -> (r: Result<u64, C03Error>)
    requires
        page > 0,
    ensures
        r matches Ok(n) ==> boot_recovery_spec(source@, limits, page as int, component_views(old(components)@), cursor as int)
            == Ok::<(Seq<AndroidComponentView>, int), C03Error>((component_views(final(components)@), n as int)),
        r matches Err(e) ==> boot_recovery_spec(source@, limits, page as int, component_views(old(components)@), cursor as int)
            == Err::<(Seq<AndroidComponentView>, int), C03Error>(e),
{
    let size = le32(source, 1632)? as u64;
    let offset = le64(source, 1636)?;
    if size > 0 {
        if offset % page != 0 || offset < cursor {
            return Err(C03Error::Malformed("invalid recovery DTBO offset"));
        }
        if offset > u64::MAX - size {
            return Err(C03Error::AccountingOverflow);
        }
        push_component(source, components, AndroidComponentKind::RecoveryDtbo, "boot.recovery_dtbo", offset, offset + size, limits)?;
        align_up(offset + size, page)
    } else {
        Ok(cursor)
    }
}

fn boot_dtb(source: &[u8], components: &mut Vec<AndroidComponent>, cursor: u64, limits: AndroidLimits) -> (r:
    Result<(), C03Error>)
    ensures
        r matches Ok(_) ==> boot_dtb_spec(source@, limits, component_views(old(components)@), cursor as int)
            == Ok::<Seq<AndroidComponentView>, C03Error>(component_views(final(components)@)),
        r matches Err(e) ==> boot_dtb_spec(source@, limits, component_views(old(components)@), cursor as int)
            == Err::<Seq<AndroidComponentView>, C03Error>(e),
{
    let size = le32(source, 1648)? as u64;
    if size == 0 {
        return Err(C03Error::Malformed("boot v2 DTB is empty"));
    }
    if cursor > u64::MAX - size {
        return Err(C03Error::AccountingOverflow);
    }
    push_component(source, components, AndroidComponentKind::Dtb, "boot.dtb", cursor, cursor + size, limits)
}

#[verifier::rlimit(30)]
fn boot_legacy(source: &[u8], version: u32, limits: AndroidLimits) -> (r: Result<Vec<AndroidComponent>, C03Error>)
    requires
        source@.len() >= 48,
        version <= 2,
    ensures
        r matches Ok(c) ==> boot_legacy_spec(source@, limits, version as int) == Ok::<
            Seq<AndroidComponentView>,
            C03Error,
        >(component_views(c@)),
        r matches Err(e) ==> boot_legacy_spec(source@, limits, version as int) == Err::<
            Seq<AndroidComponentView>,
            C03Error,
        >(e),
{
    let page = read_le_u32(source, 36).unwrap() as u64;
    if !page_size_ok(page) {
        return Err(C03Error::Malformed("invalid legacy boot page size"));
    }
    let header_size = if version == 0 {
        BOOT_V0_SIZE
    } else if version == 1 {
        BOOT_V1_SIZE
    } else {
        BOOT_V2_SIZE
    };
    let mut components: Vec<AndroidComponent> = Vec::new();
    assert(component_views(components@) =~= Seq::<AndroidComponentView>::empty());
    push_component(source, &mut components, AndroidComponentKind::Header, "boot.header", 0, header_size, limits)?;
    let kernel = read_le_u32(source, 8).unwrap() as u64;
    let ramdisk = read_le_u32(source, 16).unwrap() as u64;
    let second = read_le_u32(source, 24).unwrap() as u64;
    if kernel == 0 || ramdisk == 0 {
        return Err(C03Error::Malformed("legacy boot kernel/ramdisk is empty"));
    }
    let mut cursor = push_aligned_component(source, &mut components, AndroidComponentKind::Kernel, "boot.kernel", page, kernel, page, limits)?;
    cursor = push_aligned_component(source, &mut components, AndroidComponentKind::Ramdisk, "boot.ramdisk", cursor, ramdisk, page, limits)?;
    if second > 0 {
        cursor = push_aligned_component(source, &mut components, AndroidComponentKind::SecondStage, "boot.second", cursor, second, page, limits)?;
    }
    if version >= 1 {
        cursor = boot_recovery(source, &mut components, page, cursor, limits)?;
    }
    if version == 2 {
        boot_dtb(source, &mut components, cursor, limits)?;
    }
    Ok(components)
}

#[verifier::rlimit(30)]
fn boot_modern(source: &[u8], kind: AndroidArtifactKind, version: u32, limits: AndroidLimits) -> (r: Result<
    (Vec<AndroidComponent>, Vec<String>),
    C03Error,
>)
    requires
        source@.len() >= 48,
        3 <= version <= 4,
    ensures
        r matches Ok(out) ==> boot_modern_spec(source@, kind, version as int, limits) == Ok::<
            (Seq<AndroidComponentView>, Seq<Seq<char>>),
            C03Error,
        >((component_views(out.0@), string_views(out.1@))),
        r matches Err(e) ==> boot_modern_spec(source@, kind, version as int, limits) == Err::<
            (Seq<AndroidComponentView>, Seq<Seq<char>>),
            C03Error,
        >(e),
{
    let expected = if version == 3 { BOOT_V3_SIZE } else { BOOT_V4_SIZE };
    let declared = read_le_u32(source, 20).unwrap() as u64;
    if declared < expected || declared > 4096 {
        return Err(C03Error::Malformed("invalid boot v3/v4 header size"));
    }
    let mut components: Vec<AndroidComponent> = Vec::new();
    assert(component_views(components@) =~= Seq::<AndroidComponentView>::empty());
    push_component(source, &mut components, AndroidComponentKind::Header, "boot.header", 0, declared, limits)?;
    let kernel = read_le_u32(source, 8).unwrap() as u64;
    let ramdisk = read_le_u32(source, 12).unwrap() as u64;
    let init_boot = match kind {
        AndroidArtifactKind::InitBoot => true,
        _ => false,
    };
    if init_boot {
        if version != 4 || kernel != 0 || ramdisk == 0 {
            return Err(C03Error::Malformed("init_boot must be v4 ramdisk-only framing"));
        }
    } else if kernel == 0 {
        return Err(C03Error::Malformed("boot v3/v4 kernel is empty"));
    }
    let mut cursor: u64 = 4096;
    if kernel > 0 {
        cursor = push_aligned_component(source, &mut components, AndroidComponentKind::Kernel, "boot.kernel", cursor, kernel, 4096, limits)?;
    }
    if ramdisk > 0 {
        let name = if init_boot { "init_boot.ramdisk" } else { "boot.ramdisk" };
        cursor = push_aligned_component(source, &mut components, AndroidComponentKind::Ramdisk, name, cursor, ramdisk, 4096, limits)?;
    }
    let mut limitations: Vec<String> = Vec::new();
    assert(string_views(limitations@) =~= Seq::<Seq<char>>::empty());
    let ghost mid = component_views(components@);
    if version == 4 {
        let size = le32(source, 1580)? as u64;
        if size > 0 {
            if cursor > u64::MAX - size {
                return Err(C03Error::AccountingOverflow);
            }
            push_component(source, &mut components, AndroidComponentKind::BootSignature, "boot.signature", cursor, cursor + size, limits)?;
            limitations.push(String::from_str("boot_signature presence is structural evidence, not device AVB trust"));
            assert(string_views(limitations@) =~= seq![boot_signature_limitation()]);
        }
    }
    Ok((components, limitations))
}

/// Components and limitations of a boot or init_boot image.
pub fn inspect_boot_layout(source: &[u8], kind: AndroidArtifactKind, limits: AndroidLimits) -> (r: Result<
    (Vec<AndroidComponent>, Vec<String>),
    C03Error,
>)
    ensures
        r matches Ok(out) ==> boot_spec(source@, kind, limits) == Ok::<
            (Seq<AndroidComponentView>, Seq<Seq<char>>),
            C03Error,
        >((component_views(out.0@), string_views(out.1@))),
        r matches Err(e) ==> boot_spec(source@, kind, limits) == Err::<
            (Seq<AndroidComponentView>, Seq<Seq<char>>),
            C03Error,
        >(e),
{
    if source.len() < 48 {
        return Err(C03Error::Malformed("boot header is truncated"));
    }
    let version = read_le_u32(source, 40).unwrap();
    if version > 4 {
        return Err(C03Error::Malformed("unsupported boot header version"));
    }
    if kind == AndroidArtifactKind::InitBoot && version != 4 {
        return Err(C03Error::DeclaredKindMismatch);
    }
    if version <= 2 {
        if kind != AndroidArtifactKind::Boot {
            return Err(C03Error::DeclaredKindMismatch);
        }
        let components = boot_legacy(source, version, limits)?;
        let limitations: Vec<String> = Vec::new();
        assert(string_views(limitations@) =~= Seq::<Seq<char>>::empty());
        Ok((components, limitations))
    } else {
        boot_modern(source, kind, version, limits)
    }
}

/// Name of vendor ramdisk fragment `i`.
pub open spec fn fragment_name(i: int) -> Seq<char> {
    "vendor_boot.ramdisk_fragment."@ + decimal(i as nat)
}

/// Append vendor ramdisk fragment `idx`, read from its table entry.
pub open spec fn fragment_step(
    src: Seq<u8>,
    limits: AndroidLimits,
    table_start: int,
    entry_size: int,
    ramdisk_start: int,
    ramdisk_size: int,
    comps: Seq<AndroidComponentView>,
    idx: int,
) -> Result<Seq<AndroidComponentView>, C03Error> {
    let entry = table_start + idx * entry_size;
    match rd_le32(src, entry) {
        Err(e) => Err(e),
        Ok(size) => match rd_le32(src, entry + 4) {
            Err(e) => Err(e),
            Ok(offset) => {
                let start = ramdisk_start + offset;
                let end = start + size;
                if start > u64::MAX || end > u64::MAX || ramdisk_start + ramdisk_size > u64::MAX {
                    Err(C03Error::AccountingOverflow)
                } else if end > ramdisk_start + ramdisk_size {
                    Err(C03Error::Malformed("vendor ramdisk fragment is out of section"))
                } else {
                    push_spec(
                        src,
                        limits,
                        comps,
                        AndroidComponentKind::VendorRamdiskFragment,
                        fragment_name(idx),
                        start,
                        end,
                    )
                }
            },
        },
    }
}

/// Append vendor ramdisk fragments `0..n` in order, stopping at the first failure.
pub open spec fn fragments_spec(
    src: Seq<u8>,
    limits: AndroidLimits,
    table_start: int,
    entry_size: int,
    ramdisk_start: int,
    ramdisk_size: int,
    comps: Seq<AndroidComponentView>,
    n: nat,
) -> Result<Seq<AndroidComponentView>, C03Error>
    decreases n,
{
    if n == 0 {
        Ok(comps)
    } else {
        match fragments_spec(src, limits, table_start, entry_size, ramdisk_start, ramdisk_size, comps, (n - 1) as nat) {
            Err(e) => Err(e),
            Ok(c) => fragment_step(src, limits, table_start, entry_size, ramdisk_start, ramdisk_size, c, n - 1),
        }
    }
}

/// Vendor ramdisk table, fragments and bootconfig of a v4 vendor_boot image, from `cur`.
pub open spec fn vendor_v4_spec(
    src: Seq<u8>,
    limits: AndroidLimits,
    page: int,
    ramdisk_start: int,
    ramdisk_size: int,
    comps: Seq<AndroidComponentView>,
    cur: int,
) -> Result<Seq<AndroidComponentView>, C03Error> {
    match rd_le32(src, 2112) {
        Err(e) => Err(e),
        Ok(table_size) => match rd_le32(src, 2116) {
            Err(e) => Err(e),
            Ok(count) => match rd_le32(src, 2120) {
                Err(e) => Err(e),
                Ok(entry_size) => match rd_le32(src, 2124) {
                    Err(e) => Err(e),
                    Ok(bootconfig) => match (if count > 0 {
                        if entry_size < VENDOR_RAMDISK_TABLE_ENTRY_V4_SIZE || count * entry_size
                            > table_size {
                            Err(C03Error::Malformed("invalid vendor ramdisk table sizing"))
                        } else if cur + table_size > u64::MAX {
                            Err(C03Error::AccountingOverflow)
                        } else {
                            match push_spec(
                                src,
                                limits,
                                comps,
                                AndroidComponentKind::VendorRamdiskTable,
                                "vendor_boot.ramdisk_table"@,
                                cur,
                                cur + table_size,
                            ) {
                                Err(e) => Err(e),
                                Ok(c) => match fragments_spec(
                                    src,
                                    limits,
                                    cur,
                                    entry_size,
                                    ramdisk_start,
                                    ramdisk_size,
                                    c,
                                    count as nat,
                                ) {
                                    Err(e) => Err(e),
                                    Ok(c2) => match align_up_spec(cur + table_size, page) {
                                        Err(e) => Err(e),
                                        Ok(n) => Ok((c2, n)),
                                    },
                                },
                            }
                        }
                    } else if table_size != 0 {
                        Err(C03Error::Malformed("vendor ramdisk table count/size mismatch"))
                    } else {
                        Ok((comps, cur))
                    }) {
                        Err(e) => Err(e),
                        Ok(st) => if bootconfig > 0 {
                            if st.1 + bootconfig > u64::MAX {
                                Err(C03Error::AccountingOverflow)
                            } else {
                                push_spec(
                                    src,
                                    limits,
                                    st.0,
                                    AndroidComponentKind::Bootconfig,
                                    "vendor_boot.bootconfig"@,
                                    st.1,
                                    st.1 + bootconfig,
                                )
                            }
                        } else {
                            Ok(st.0)
                        },
                    },
                },
            },
        },
    }
}

/// Components of a vendor_boot image.
pub open spec fn vendor_boot_spec(src: Seq<u8>, limits: AndroidLimits) -> Result<
    Seq<AndroidComponentView>,
    C03Error,
> {
    if src.len() < VENDOR_BOOT_V3_SIZE {
        Err(C03Error::Malformed("vendor_boot header is truncated"))
    } else {
        let version = le_value(src, 8, 4);
        let page = le_value(src, 12, 4);
        let ramdisk = le_value(src, 24, 4);
        let declared = le_value(src, 2096, 4);
        let expected = if version == 3 {
            VENDOR_BOOT_V3_SIZE as int
        } else {
            VENDOR_BOOT_V4_SIZE as int
        };
        let dtb = le_value(src, 2100, 4);
        if version != 3 && version != 4 {
            Err(C03Error::Malformed("unsupported vendor_boot version"))
        } else if !legacy_page_ok(page) {
            Err(C03Error::Malformed("invalid vendor_boot page size"))
        } else if declared < expected || declared > (if page > expected { page } else { expected }) {
            Err(C03Error::Malformed("invalid vendor_boot header size"))
        } else if ramdisk == 0 || dtb == 0 {
            Err(C03Error::Malformed("vendor_boot ramdisk/DTB is empty"))
        } else {
            match push_spec(
                src,
                limits,
                Seq::empty(),
                AndroidComponentKind::Header,
                "vendor_boot.header"@,
                0,
                declared,
            ) {
                Err(e) => Err(e),
                Ok(c0) => match align_up_spec(expected, page) {
                    Err(e) => Err(e),
                    Ok(ramdisk_start) => match push_aligned_spec(
                        src,
                        limits,
                        c0,
                        AndroidComponentKind::VendorRamdisk,
                        "vendor_boot.ramdisk_section"@,
                        ramdisk_start,
                        ramdisk,
                        page,
                    ) {
                        Err(e) => Err(e),
                        Ok(s1) => match push_aligned_spec(
                            src,
                            limits,
                            s1.0,
                            AndroidComponentKind::Dtb,
                            "vendor_boot.dtb"@,
                            s1.1,
                            dtb,
                            page,
                        ) {
                            Err(e) => Err(e),
                            Ok(s2) => if version == 4 {
                                vendor_v4_spec(src, limits, page, ramdisk_start, ramdisk, s2.0, s2.1)
                            } else {
                                Ok(s2.0)
                            },
                        },
                    },
                },
            }
        }
    }
}

/// A failed fragment step stays the result of every longer fragment run.
proof fn lemma_fragments_err(
    src: Seq<u8>,
    limits: AndroidLimits,
    table_start: int,
    entry_size: int,
    ramdisk_start: int,
    ramdisk_size: int,
    comps: Seq<AndroidComponentView>,
    n: nat,
    m: nat,
)
    requires
        n <= m,
        fragments_spec(src, limits, table_start, entry_size, ramdisk_start, ramdisk_size, comps, n) is Err,
    ensures
        fragments_spec(src, limits, table_start, entry_size, ramdisk_start, ramdisk_size, comps, m)
            == fragments_spec(src, limits, table_start, entry_size, ramdisk_start, ramdisk_size, comps, n),
    decreases m - n,
{
    if n < m {
        lemma_fragments_err(src, limits, table_start, entry_size, ramdisk_start, ramdisk_size, comps, n, (m - 1) as nat);
    }
}

fn vendor_fragment(
    source: &[u8],
    components: &mut Vec<AndroidComponent>,
    entry: u64,
    index: u64,
    ramdisk_start: u64,
    ramdisk_size: u64,
    limits: AndroidLimits,
    Ghost(table_start): Ghost<int>,
    Ghost(entry_size): Ghost<int>,
) -> (r: Result<(), C03Error>)
    requires
        entry == table_start + index * entry_size,
        entry + 8 <= source@.len(),
    ensures
        r matches Ok(_) ==> fragment_step(source@, limits, table_start, entry_size, ramdisk_start as int,
            ramdisk_size as int, component_views(old(components)@), index as int)
            == Ok::<Seq<AndroidComponentView>, C03Error>(component_views(final(components)@)),
        r matches Err(e) ==> fragment_step(source@, limits, table_start, entry_size, ramdisk_start as int,
            ramdisk_size as int, component_views(old(components)@), index as int)
            == Err::<Seq<AndroidComponentView>, C03Error>(e),
{
    let source_len = source.len();
    let size = le32(source, entry as usize)? as u64;
    let offset = le32(source, entry as usize + 4)? as u64;
    if ramdisk_start > u64::MAX - offset {
        return Err(C03Error::AccountingOverflow);
    }
    let start = ramdisk_start + offset;
    if start > u64::MAX - size {
        return Err(C03Error::AccountingOverflow);
    }
    let end = start + size;
    if ramdisk_start > u64::MAX - ramdisk_size {
        return Err(C03Error::AccountingOverflow);
    }
    if end > ramdisk_start + ramdisk_size {
        return Err(C03Error::Malformed("vendor ramdisk fragment is out of section"));
    }
    let name = numbered_message("vendor_boot.ramdisk_fragment.", index, "");
    proof {
        reveal_strlit("");
        assert(name@ =~= fragment_name(index as int));
    }
    push_component(source, components, AndroidComponentKind::VendorRamdiskFragment, name.as_str(), start, end, limits)
}

fn vendor_fragments(
    source: &[u8],
    components: &mut Vec<AndroidComponent>,
    table_start: u64,
    table_size: u64,
    count: u64,
    entry_size: u64,
    ramdisk_start: u64,
    ramdisk_size: u64,
    limits: AndroidLimits,
) -> (r: Result<(), C03Error>)
    requires
        table_start + table_size <= source@.len(),
        count * entry_size <= table_size,
        entry_size >= 8,
    ensures
        r matches Ok(_) ==> fragments_spec(source@, limits, table_start as int, entry_size as int, ramdisk_start as int,
            ramdisk_size as int, component_views(old(components)@), count as nat)
            == Ok::<Seq<AndroidComponentView>, C03Error>(component_views(final(components)@)),
        r matches Err(e) ==> fragments_spec(source@, limits, table_start as int, entry_size as int, ramdisk_start as int,
            ramdisk_size as int, component_views(old(components)@), count as nat)
            == Err::<Seq<AndroidComponentView>, C03Error>(e),
{
    let ghost c0 = component_views(components@);
    let source_len = source.len();
    let mut index: u64 = 0;
    while index < count
        invariant
            index <= count,
            source_len == source@.len(),
            table_start + table_size <= source@.len(),
            count * entry_size <= table_size,
            entry_size >= 8,
            c0 == component_views(old(components)@),
            fragments_spec(source@, limits, table_start as int, entry_size as int, ramdisk_start as int,
                ramdisk_size as int, c0, index as nat) == Ok::<Seq<AndroidComponentView>, C03Error>(
                component_views(components@)),
        decreases count - index,
    {
        assert((index + 1) * entry_size <= count * entry_size) by (nonlinear_arith)
            requires
                index < count,
        ;
        assert(index * entry_size + entry_size == (index + 1) * entry_size) by (nonlinear_arith);
        assert(index * entry_size <= count * entry_size) by (nonlinear_arith)
            requires
                index < count,
        ;
        let entry = table_start + index * entry_size;
        let ghost before = component_views(components@);
        match vendor_fragment(source, components, entry, index, ramdisk_start, ramdisk_size, limits,
            Ghost(table_start as int), Ghost(entry_size as int)) {
            Ok(_) => {},
            Err(e) => {
                proof {
                    lemma_fragments_err(source@, limits, table_start as int, entry_size as int, ramdisk_start as int,
                        ramdisk_size as int, c0, (index + 1) as nat, count as nat);
                }
                return Err(e);
            },
        }
        index = index + 1;
    }
    Ok(())
}

#[verifier::rlimit(40)]
fn vendor_v4(
    source: &[u8],
    components: &mut Vec<AndroidComponent>,
    page: u64,
    ramdisk_start: u64,
    ramdisk_size: u64,
    cursor: u64,
    limits: AndroidLimits,
) -> (r: Result<(), C03Error>)
    requires
        page > 0,
    ensures
        r matches Ok(_) ==> vendor_v4_spec(source@, limits, page as int, ramdisk_start as int, ramdisk_size as int,
            component_views(old(components)@), cursor as int)
            == Ok::<Seq<AndroidComponentView>, C03Error>(component_views(final(components)@)),
        r matches Err(e) ==> vendor_v4_spec(source@, limits, page as int, ramdisk_start as int, ramdisk_size as int,
            component_views(old(components)@), cursor as int)
            == Err::<Seq<AndroidComponentView>, C03Error>(e),
{
    let table_size = le32(source, 2112)? as u64;
    let count = le32(source, 2116)? as u64;
    let entry_size = le32(source, 2120)? as u64;
    let bootconfig = le32(source, 2124)? as u64;
    let mut cur = cursor;
    if count > 0 {
        assert(count * entry_size <= 0xffff_ffff * 0xffff_ffff) by (nonlinear_arith)
            requires
                count <= 0xffff_ffff,
                entry_size <= 0xffff_ffff,
        ;
        if entry_size < VENDOR_RAMDISK_TABLE_ENTRY_V4_SIZE || count * entry_size > table_size {
            return Err(C03Error::Malformed("invalid vendor ramdisk table sizing"));
        }
        if cursor > u64::MAX - table_size {
            return Err(C03Error::AccountingOverflow);
        }
        let table_end = cursor + table_size;
        push_component(source, components, AndroidComponentKind::VendorRamdiskTable, "vendor_boot.ramdisk_table", cursor, table_end, limits)?;
        vendor_fragments(source, components, cursor, table_size, count, entry_size, ramdisk_start, ramdisk_size, limits)?;
        cur = align_up(table_end, page)?;
    } else if table_size != 0 {
        return Err(C03Error::Malformed("vendor ramdisk table count/size mismatch"));
    }
    if bootconfig > 0 {
        if cur > u64::MAX - bootconfig {
            return Err(C03Error::AccountingOverflow);
        }
        push_component(source, components, AndroidComponentKind::Bootconfig, "vendor_boot.bootconfig", cur, cur + bootconfig, limits)?;
    }
    Ok(())
}

/// Components of a vendor_boot image.
#[verifier::rlimit(30)]
pub fn inspect_vendor_boot_layout(source: &[u8], limits: AndroidLimits) -> (r: Result<Vec<AndroidComponent>, C03Error>)
    ensures
        r matches Ok(c) ==> vendor_boot_spec(source@, limits) == Ok::<Seq<AndroidComponentView>, C03Error>(
            component_views(c@),
        ),
        r matches Err(e) ==> vendor_boot_spec(source@, limits) == Err::<Seq<AndroidComponentView>, C03Error>(
            e,
        ),
{
    if source.len() < 2112 {
        return Err(C03Error::Malformed("vendor_boot header is truncated"));
    }
    let version = read_le_u32(source, 8).unwrap();
    if version != 3 && version != 4 {
        return Err(C03Error::Malformed("unsupported vendor_boot version"));
    }
    let page = read_le_u32(source, 12).unwrap() as u64;
    if !page_size_ok(page) {
        return Err(C03Error::Malformed("invalid vendor_boot page size"));
    }
    let ramdisk = read_le_u32(source, 24).unwrap() as u64;
    let declared = read_le_u32(source, 2096).unwrap() as u64;
    let expected = if version == 3 { VENDOR_BOOT_V3_SIZE } else { VENDOR_BOOT_V4_SIZE };
    let bound = if page > expected { page } else { expected };
    if declared < expected || declared > bound {
        return Err(C03Error::Malformed("invalid vendor_boot header size"));
    }
    let dtb = read_le_u32(source, 2100).unwrap() as u64;
    if ramdisk == 0 || dtb == 0 {
        return Err(C03Error::Malformed("vendor_boot ramdisk/DTB is empty"));
    }
    let mut components: Vec<AndroidComponent> = Vec::new();
    assert(component_views(components@) =~= Seq::<AndroidComponentView>::empty());
    push_component(source, &mut components, AndroidComponentKind::Header, "vendor_boot.header", 0, declared, limits)?;
    let ramdisk_start = align_up(expected, page)?;
    let mut cursor = push_aligned_component(source, &mut components, AndroidComponentKind::VendorRamdisk, "vendor_boot.ramdisk_section", ramdisk_start, ramdisk, page, limits)?;
    cursor = push_aligned_component(source, &mut components, AndroidComponentKind::Dtb, "vendor_boot.dtb", cursor, dtb, page, limits)?;
    if version == 4 {
        vendor_v4(source, &mut components, page, ramdisk_start, ramdisk, cursor, limits)?;
    }
    Ok(components)
}

/// Name of DTBO entry `i`.
pub open spec fn dtbo_entry_name(i: int) -> Seq<char> {
    "dtbo.entry."@ + decimal(i as nat)
}

/// Append DTBO entry `idx`, read from its big-endian table entry.
pub open spec fn dtbo_step(
    src: Seq<u8>,
    limits: AndroidLimits,
    entries_offset: int,
    entry_size: int,
    header_size: int,
    total_size: int,
    comps: Seq<AndroidComponentView>,
    idx: int,
) -> Result<Seq<AndroidComponentView>, C03Error> {
    let entry = entries_offset + idx * entry_size;
    match rd_be32(src, entry) {
        Err(e) => Err(e),
        Ok(size) => match rd_be32(src, entry + 4) {
            Err(e) => Err(e),
            Ok(offset) => if size == 0 || offset < header_size || offset + size > total_size {
                Err(C03Error::Malformed("DTBO entry payload is out of bounds"))
            } else {
                push_spec(
                    src,
                    limits,
                    comps,
                    AndroidComponentKind::DtboEntry,
                    dtbo_entry_name(idx),
                    offset,
                    offset + size,
                )
            },
        },
    }
}

/// Append DTBO entries `0..n` in order, stopping at the first failure.
pub open spec fn dtbo_entries_spec(
    src: Seq<u8>,
    limits: AndroidLimits,
    entries_offset: int,
    entry_size: int,
    header_size: int,
    total_size: int,
    comps: Seq<AndroidComponentView>,
    n: nat,
) -> Result<Seq<AndroidComponentView>, C03Error>
    decreases n,
{
    if n == 0 {
        Ok(comps)
    } else {
        match dtbo_entries_spec(src, limits, entries_offset, entry_size, header_size, total_size, comps, (n - 1) as nat) {
            Err(e) => Err(e),
            Ok(c) => dtbo_step(src, limits, entries_offset, entry_size, header_size, total_size, c, n - 1),
        }
    }
}

/// Components of a DTBO table image.
pub open spec fn dtbo_spec(src: Seq<u8>, limits: AndroidLimits) -> Result<Seq<AndroidComponentView>, C03Error> {
    if src.len() < 32 {
        Err(C03Error::Malformed("DTBO header is truncated"))
    } else {
        let total = be_value(src, 4, 4);
        let header = be_value(src, 8, 4);
        let entry_size = be_value(src, 12, 4);
        let count = be_value(src, 16, 4);
        let entries_offset = be_value(src, 20, 4);
        let version = be_value(src, 28, 4);
        if version > 2 {
            Err(C03Error::Malformed("unsupported DTBO table version"))
        } else {
            let required = if version == 2 { 64int } else { 32int };
            if total > src.len() || header < 32 || header > total || entry_size < required
                || entries_offset < header || count > limits.max_components {
                Err(C03Error::Malformed("invalid DTBO table bounds"))
            } else if entries_offset + count * entry_size > total {
                Err(C03Error::Malformed("DTBO entry table is out of bounds"))
            } else {
                match push_spec(
                    src,
                    limits,
                    Seq::empty(),
                    AndroidComponentKind::Header,
                    "dtbo.header"@,
                    0,
                    header,
                ) {
                    Err(e) => Err(e),
                    Ok(c0) => dtbo_entries_spec(src, limits, entries_offset, entry_size, header, total, c0, count as nat),
                }
            }
        }
    }
}

/// A failed DTBO entry stays the result of every longer entry run.
proof fn lemma_dtbo_err(
    src: Seq<u8>,
    limits: AndroidLimits,
    entries_offset: int,
    entry_size: int,
    header_size: int,
    total_size: int,
    comps: Seq<AndroidComponentView>,
    n: nat,
    m: nat,
)
    requires
        n <= m,
        dtbo_entries_spec(src, limits, entries_offset, entry_size, header_size, total_size, comps, n) is Err,
    ensures
        dtbo_entries_spec(src, limits, entries_offset, entry_size, header_size, total_size, comps, m)
            == dtbo_entries_spec(src, limits, entries_offset, entry_size, header_size, total_size, comps, n),
    decreases m - n,
{
    if n < m {
        lemma_dtbo_err(src, limits, entries_offset, entry_size, header_size, total_size, comps, n, (m - 1) as nat);
    }
}

fn dtbo_entry(
    source: &[u8],
    components: &mut Vec<AndroidComponent>,
    entry: u64,
    index: u64,
    header_size: u64,
    total_size: u64,
    limits: AndroidLimits,
    Ghost(entries_offset): Ghost<int>,
    Ghost(entry_size): Ghost<int>,
) -> (r: Result<(), C03Error>)
    requires
        entry == entries_offset + index * entry_size,
        entry + 8 <= source@.len(),
    ensures
        r matches Ok(_) ==> dtbo_step(source@, limits, entries_offset, entry_size, header_size as int,
            total_size as int, component_views(old(components)@), index as int)
            == Ok::<Seq<AndroidComponentView>, C03Error>(component_views(final(components)@)),
        r matches Err(e) ==> dtbo_step(source@, limits, entries_offset, entry_size, header_size as int,
            total_size as int, component_views(old(components)@), index as int)
            == Err::<Seq<AndroidComponentView>, C03Error>(e),
{
    let source_len = source.len();
    let size = be32(source, entry as usize)? as u64;
    let offset = be32(source, entry as usize + 4)? as u64;
    let end = offset + size;
    if size == 0 || offset < header_size || end > total_size {
        return Err(C03Error::Malformed("DTBO entry payload is out of bounds"));
    }
    let name = numbered_message("dtbo.entry.", index, "");
    proof {
        reveal_strlit("");
        assert(name@ =~= dtbo_entry_name(index as int));
    }
    push_component(source, components, AndroidComponentKind::DtboEntry, name.as_str(), offset, end, limits)
}

/// Components of a DTBO table image.
#[verifier::rlimit(30)]
pub fn inspect_dtbo_layout(source: &[u8], limits: AndroidLimits) -> (r: Result<Vec<AndroidComponent>, C03Error>)
    ensures
        r matches Ok(c) ==> dtbo_spec(source@, limits) == Ok::<Seq<AndroidComponentView>, C03Error>(
            component_views(c@),
        ),
        r matches Err(e) ==> dtbo_spec(source@, limits) == Err::<Seq<AndroidComponentView>, C03Error>(e),
{
    let source_len = source.len();
    if source_len < 32 {
        return Err(C03Error::Malformed("DTBO header is truncated"));
    }
    let total = read_be_u32(source, 4).unwrap() as u64;
    let header = read_be_u32(source, 8).unwrap() as u64;
    let entry_size = read_be_u32(source, 12).unwrap() as u64;
    let count = read_be_u32(source, 16).unwrap() as u64;
    let entries_offset = read_be_u32(source, 20).unwrap() as u64;
    let version = read_be_u32(source, 28).unwrap();
    if version > 2 {
        return Err(C03Error::Malformed("unsupported DTBO table version"));
    }
    let required: u64 = if version == 2 { 64 } else { 32 };
    if total > source_len as u64 || header < 32 || header > total || entry_size < required
        || entries_offset < header || count > limits.max_components as u64 {
        return Err(C03Error::Malformed("invalid DTBO table bounds"));
    }
    assert(count * entry_size <= 0xffff_ffff * 0xffff_ffff) by (nonlinear_arith)
        requires
            count <= 0xffff_ffff,
            entry_size <= 0xffff_ffff,
    ;
    let table_bytes = count * entry_size;
    if entries_offset + table_bytes > total {
        return Err(C03Error::Malformed("DTBO entry table is out of bounds"));
    }
    let mut components: Vec<AndroidComponent> = Vec::new();
    assert(component_views(components@) =~= Seq::<AndroidComponentView>::empty());
    push_component(source, &mut components, AndroidComponentKind::Header, "dtbo.header", 0, header, limits)?;
    let ghost c0 = component_views(components@);
    assert(dtbo_spec(source@, limits) == dtbo_entries_spec(source@, limits, entries_offset as int,
        entry_size as int, header as int, total as int, c0, count as nat));
    let mut index: u64 = 0;
    while index < count
        invariant
            index <= count,
            source_len == source@.len(),
            dtbo_spec(source@, limits) == dtbo_entries_spec(source@, limits, entries_offset as int,
                entry_size as int, header as int, total as int, c0, count as nat),
            entries_offset + count * entry_size <= total <= source@.len(),
            entry_size >= 32,
            dtbo_entries_spec(source@, limits, entries_offset as int, entry_size as int, header as int,
                total as int, c0, index as nat) == Ok::<Seq<AndroidComponentView>, C03Error>(
                component_views(components@)),
        decreases count - index,
    {
        assert(index * entry_size + entry_size <= count * entry_size) by (nonlinear_arith)
            requires
                index < count,
        ;
        let entry = entries_offset + index * entry_size;
        match dtbo_entry(source, &mut components, entry, index, header, total, limits,
            Ghost(entries_offset as int), Ghost(entry_size as int)) {
            Ok(_) => {},
            Err(e) => {
                proof {
                    lemma_dtbo_err(source@, limits, entries_offset as int, entry_size as int, header as int,
                        total as int, c0, (index + 1) as nat, count as nat);
                }
                return Err(e);
            },
        }
        index = index + 1;
    }
    Ok(components)
}

/// Limitation recorded for every vbmeta image.
pub open spec fn vbmeta_limitation() -> Seq<char> {
    "vbmeta structure parsed; AVB trust requires independent verification with a known-good key"@
}

/// Components of a vbmeta image.
pub open spec fn vbmeta_spec(src: Seq<u8>, limits: AndroidLimits) -> Result<Seq<AndroidComponentView>, C03Error> {
    if src.len() < AVB_HEADER_SIZE {
        Err(C03Error::Malformed("vbmeta header is truncated"))
    } else {
        let auth = be_value(src, 12, 8);
        let aux = be_value(src, 20, 8);
        let auth_end = 256 + auth;
        let aux_end = auth_end + aux;
        let doff = be_value(src, 96, 8);
        let dsize = be_value(src, 104, 8);
        let dstart = auth_end + doff;
        let dend = dstart + dsize;
        if auth_end > u64::MAX || aux_end > u64::MAX {
            Err(C03Error::AccountingOverflow)
        } else if aux_end > src.len() {
            Err(C03Error::Malformed("vbmeta blocks exceed source"))
        } else if dstart > u64::MAX || dend > u64::MAX {
            Err(C03Error::AccountingOverflow)
        } else if doff > aux || dsize > aux - doff || dend > aux_end {
            Err(C03Error::Malformed("vbmeta descriptor range exceeds auxiliary block"))
        } else {
            match push_spec(
                src,
                limits,
                Seq::empty(),
                AndroidComponentKind::Header,
                "vbmeta.header"@,
                0,
                256,
            ) {
                Err(e) => Err(e),
                Ok(c0) => match (if auth > 0 {
                    push_spec(
                        src,
                        limits,
                        c0,
                        AndroidComponentKind::VbmetaAuthentication,
                        "vbmeta.authentication"@,
                        256,
                        auth_end,
                    )
                } else {
                    Ok(c0)
                }) {
                    Err(e) => Err(e),
                    Ok(c1) => match (if aux > 0 {
                        push_spec(
                            src,
                            limits,
                            c1,
                            AndroidComponentKind::VbmetaAuxiliary,
                            "vbmeta.auxiliary"@,
                            auth_end,
                            aux_end,
                        )
                    } else {
                        Ok(c1)
                    }) {
                        Err(e) => Err(e),
                        Ok(c2) => if dsize > 0 {
                            push_spec(
                                src,
                                limits,
                                c2,
                                AndroidComponentKind::VbmetaDescriptors,
                                "vbmeta.descriptors"@,
                                dstart,
                                dend,
                            )
                        } else {
                            Ok(c2)
                        },
                    },
                },
            }
        }
    }
}

/// Components of a vbmeta image.
#[verifier::rlimit(30)]
pub fn inspect_vbmeta_layout(source: &[u8], limits: AndroidLimits) -> (r: Result<Vec<AndroidComponent>, C03Error>)
    ensures
        r matches Ok(c) ==> vbmeta_spec(source@, limits) == Ok::<Seq<AndroidComponentView>, C03Error>(
            component_views(c@),
        ),
        r matches Err(e) ==> vbmeta_spec(source@, limits) == Err::<Seq<AndroidComponentView>, C03Error>(e),
{
    let source_len = source.len();
    if (source_len as u64) < AVB_HEADER_SIZE {
        return Err(C03Error::Malformed("vbmeta header is truncated"));
    }
    let auth = read_be_u64(source, 12).unwrap();
    let aux = read_be_u64(source, 20).unwrap();
    if auth > u64::MAX - 256 {
        return Err(C03Error::AccountingOverflow);
    }
    let auth_end = 256 + auth;
    if auth_end > u64::MAX - aux {
        return Err(C03Error::AccountingOverflow);
    }
    let aux_end = auth_end + aux;
    if aux_end > source_len as u64 {
        return Err(C03Error::Malformed("vbmeta blocks exceed source"));
    }
    let doff = read_be_u64(source, 96).unwrap();
    let dsize = read_be_u64(source, 104).unwrap();
    if auth_end > u64::MAX - doff {
        return Err(C03Error::AccountingOverflow);
    }
    let dstart = auth_end + doff;
    if dstart > u64::MAX - dsize {
        return Err(C03Error::AccountingOverflow);
    }
    let dend = dstart + dsize;
    if doff > aux || dsize > aux - doff || dend > aux_end {
        return Err(C03Error::Malformed("vbmeta descriptor range exceeds auxiliary block"));
    }
    let mut components: Vec<AndroidComponent> = Vec::new();
    assert(component_views(components@) =~= Seq::<AndroidComponentView>::empty());
    push_component(source, &mut components, AndroidComponentKind::Header, "vbmeta.header", 0, AVB_HEADER_SIZE, limits)?;
    if auth > 0 {
        push_component(source, &mut components, AndroidComponentKind::VbmetaAuthentication, "vbmeta.authentication", 256, auth_end, limits)?;
    }
    if aux > 0 {
        push_component(source, &mut components, AndroidComponentKind::VbmetaAuxiliary, "vbmeta.auxiliary", auth_end, aux_end, limits)?;
    }
    if dsize > 0 {
        push_component(source, &mut components, AndroidComponentKind::VbmetaDescriptors, "vbmeta.descriptors", dstart, dend, limits)?;
    }
    Ok(components)
}

/// Dynamic-partition extent target.
#[derive(Debug, Clone, Copy, PartialEq, Eq, Structural)]
pub enum DynamicExtentTarget {
    /// dm-linear mapping into one liblp block device.
    Linear {
        /// Physical sector on target block device.
        physical_sector: u64,
        /// Block-device table index.
        block_device_index: u32,
    },
    /// dm-zero extent with mechanically defined zero bytes.
    Zero,
}

/// One exact logical-partition extent.
#[derive(Debug, Clone, Copy, PartialEq, Eq, Structural)]
pub struct AndroidDynamicExtent {
    /// Extent length in 512-byte sectors.
    pub num_sectors: u64,
    /// Exact target mapping.
    pub target: DynamicExtentTarget,
}

/// One dynamic-partition group.
#[derive(Debug)]
pub struct AndroidDynamicGroup {
    /// Metadata slot containing the group.
    pub metadata_slot: u32,
    /// Group name.
    pub name: String,
    /// Maximum group bytes, zero meaning unlimited.
    pub maximum_size: u64,
}

/// Abstract value of a dynamic group.
pub ghost struct DynamicGroupView {
    /// Metadata slot.
    pub metadata_slot: u32,
    /// Group name.
    pub name: Seq<char>,
    /// Maximum group bytes.
    pub maximum_size: u64,
}

impl View for AndroidDynamicGroup {
    type V = DynamicGroupView;

    open spec fn view(&self) -> DynamicGroupView {
        DynamicGroupView { metadata_slot: self.metadata_slot, name: self.name@, maximum_size: self.maximum_size }
    }
}

/// One liblp block-device record.
#[derive(Debug)]
pub struct AndroidBlockDevice {
    /// Metadata slot containing the record.
    pub metadata_slot: u32,
    /// GPT partition name.
    pub name: String,
    /// First logical sector usable for extents.
    pub first_logical_sector: u64,
    /// Declared block-device size.
    pub size: u64,
}

/// Abstract value of a block device.
pub ghost struct BlockDeviceView {
    /// Metadata slot.
    pub metadata_slot: u32,
    /// Partition name.
    pub name: Seq<char>,
    /// First usable logical sector.
    pub first_logical_sector: u64,
    /// Declared size.
    pub size: u64,
}

impl View for AndroidBlockDevice {
    type V = BlockDeviceView;

    open spec fn view(&self) -> BlockDeviceView {
        BlockDeviceView {
            metadata_slot: self.metadata_slot,
            name: self.name@,
            first_logical_sector: self.first_logical_sector,
            size: self.size,
        }
    }
}

/// One logical dynamic partition.
#[derive(Debug)]
pub struct AndroidDynamicPartition {
    /// Metadata slot containing this projection.
    pub metadata_slot: u32,
    /// Logical partition name.
    pub name: String,
    /// Raw liblp partition attributes.
    pub attributes: u32,
    /// Owning group name.
    pub group_name: String,
    /// Ordered logical extents.
    pub extents: Vec<AndroidDynamicExtent>,
    /// Exact logical byte size.
    pub logical_size: u64,
}

/// Abstract value of a dynamic partition.
pub ghost struct DynamicPartitionView {
    /// Metadata slot.
    pub metadata_slot: u32,
    /// Partition name.
    pub name: Seq<char>,
    /// Raw attributes.
    pub attributes: u32,
    /// Owning group name.
    pub group_name: Seq<char>,
    /// Ordered extents.
    pub extents: Seq<AndroidDynamicExtent>,
    /// Logical byte size.
    pub logical_size: u64,
}

impl View for AndroidDynamicPartition {
    type V = DynamicPartitionView;

    open spec fn view(&self) -> DynamicPartitionView {
        DynamicPartitionView {
            metadata_slot: self.metadata_slot,
            name: self.name@,
            attributes: self.attributes,
            group_name: self.group_name@,
            extents: self.extents@,
            logical_size: self.logical_size,
        }
    }
}

/// Views of dynamic groups.
pub open spec fn group_views(s: Seq<AndroidDynamicGroup>) -> Seq<DynamicGroupView> {
    s.map_values(|g: AndroidDynamicGroup| g@)
}

/// Views of block devices.
pub open spec fn device_views(s: Seq<AndroidBlockDevice>) -> Seq<BlockDeviceView> {
    s.map_values(|d: AndroidBlockDevice| d@)
}

/// Views of dynamic partitions.
pub open spec fn partition_views(s: Seq<AndroidDynamicPartition>) -> Seq<DynamicPartitionView> {
    s.map_values(|p: AndroidDynamicPartition| p@)
}

/// Apply `step` to indices `0..n` in order, threading the state and stopping at the first failure.
pub open spec fn run_steps<S>(init: S, step: spec_fn(S, int) -> Result<S, C03Error>, n: nat) -> Result<
    S,
    C03Error,
>
    decreases n,
{
    if n == 0 {
        Ok(init)
    } else {
        match run_steps(init, step, (n - 1) as nat) {
            Err(e) => Err(e),
            Ok(st) => step(st, n - 1),
        }
    }
}

/// Once a run of steps has failed, every longer run fails the same way.
pub proof fn lemma_run_steps_err<S>(init: S, step: spec_fn(S, int) -> Result<S, C03Error>, n: nat, m: nat)
    requires
        n <= m,
        run_steps(init, step, n) is Err,
    ensures
        run_steps(init, step, m) == run_steps(init, step, n),
    decreases m - n,
{
    if n < m {
        lemma_run_steps_err(init, step, n, (m - 1) as nat);
    }
}

/// Whether two byte slices hold the same bytes.
pub fn bytes_equal(a: &[u8], b: &[u8]) -> (r: bool)
    ensures
        r == (a@ == b@),
{
    if a.len() != b.len() {
        return false;
    }
    let mut i: usize = 0;
    while i < a.len()
        invariant
            i <= a@.len() == b@.len(),
            forall|j: int| 0 <= j < i ==> a@[j] == b@[j],
        decreases a.len() - i,
    {
        if a[i] != b[i] {
            return false;
        }
        i = i + 1;
    }
    assert(a@ =~= b@);
    true
}

} // verus!
