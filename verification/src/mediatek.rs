//! MediaTek scatter-package vocabulary: limits, context, partition relationships, bundle and
//! read-only evidence observations, retained projections and failures.
use vstd::prelude::*;
use crate::identity::EntityRef;

verus! {

/// Bounded resource limits for one MediaTek inspection.
#[derive(Debug, Clone, Copy, PartialEq, Eq, Structural)]
pub struct MediatekLimits {
    /// Maximum immutable scatter bytes accepted by one inspection.
    pub max_source_bytes: u64,
    /// Maximum partition records parsed from one scatter file.
    pub max_partitions: usize,
    /// Maximum bundle entries retained from an untrusted provider.
    pub max_bundle_entries: usize,
    /// Maximum total recovered bundle bytes retained in one report.
    pub max_recovered_bytes: u64,
    /// Maximum bytes retained for one bounded string or path.
    pub max_string_bytes: usize,
    /// Maximum input lines parsed from the scatter source.
    pub max_lines: usize,
    /// Maximum partition names accepted from one evidence provider.
    pub max_evidence_partitions: usize,
    /// Maximum exact child bytes materialized by one request.
    pub max_materialized_bytes: u64,
}

impl Default for MediatekLimits {
    fn default() -> (r: Self)
        ensures
            r.max_source_bytes == 16 * 1024 * 1024,
            r.max_partitions == 16_384,
            r.max_bundle_entries == 131_072,
            r.max_recovered_bytes == 16 * 1024 * 1024 * 1024,
            r.max_string_bytes == 8192,
            r.max_lines == 262_144,
            r.max_evidence_partitions == 16_384,
            r.max_materialized_bytes == 4 * 1024 * 1024 * 1024,
    {
        MediatekLimits {
            max_source_bytes: 16 * 1024 * 1024,
            max_partitions: 16_384,
            max_bundle_entries: 131_072,
            max_recovered_bytes: 16 * 1024 * 1024 * 1024,
            max_string_bytes: 8192,
            max_lines: 262_144,
            max_evidence_partitions: 16_384,
            max_materialized_bytes: 4 * 1024 * 1024 * 1024,
        }
    }
}

/// Every MediaTek limit is non-zero.
pub open spec fn mediatek_limits_valid(l: MediatekLimits) -> bool {
    l.max_source_bytes != 0 && l.max_partitions != 0 && l.max_bundle_entries != 0 && l.max_recovered_bytes != 0
        && l.max_string_bytes != 0 && l.max_lines != 0 && l.max_evidence_partitions != 0
        && l.max_materialized_bytes != 0
}

/// Reject a zero limit.
pub fn validate_mediatek_limits(limits: MediatekLimits) -> (r: Result<(), C05Error>)
    ensures
        r is Ok <==> mediatek_limits_valid(limits),
        r matches Err(e) ==> e is InvalidLimits,
{
    if limits.max_source_bytes == 0 || limits.max_partitions == 0 || limits.max_bundle_entries == 0
        || limits.max_recovered_bytes == 0 || limits.max_string_bytes == 0 || limits.max_lines == 0
        || limits.max_evidence_partitions == 0 || limits.max_materialized_bytes == 0 {
        return Err(C05Error::InvalidLimits);
    }
    Ok(())
}

/// Exact immutable scatter source context.
#[derive(Debug)]
pub struct MediatekContext {
    /// Workspace owning source and derived plans.
    pub workspace_ref: EntityRef,
    /// Authority for canonical plans.
    pub authority_ref: EntityRef,
    /// Exact immutable scatter object revision.
    pub source_revision_ref: EntityRef,
}

/// The failure of context validation, if any.
pub open spec fn mediatek_context_fault(c: MediatekContext) -> Option<C05Error> {
    if c.workspace_ref.entity_kind@ != "core.workspace"@ {
        Some(C05Error::InvalidWorkspaceRef)
    } else if c.source_revision_ref.entity_kind@ != "object.revision"@ {
        Some(C05Error::InvalidSourceRevision)
    } else {
        None
    }
}

/// Reject a context that does not name a workspace and an exact object revision.
pub fn validate_mediatek_context(context: &MediatekContext) -> (r: Result<(), C05Error>)
    ensures
        r is Ok <==> mediatek_context_fault(*context) is None,
        r matches Err(e) ==> mediatek_context_fault(*context) == Some(e),
{
    if !context.workspace_ref.has_kind("core.workspace") {
        return Err(C05Error::InvalidWorkspaceRef);
    }
    if !context.source_revision_ref.has_kind("object.revision") {
        return Err(C05Error::InvalidSourceRevision);
    }
    Ok(())
}

/// Truth status of one MediaTek report.
#[derive(Debug, Clone, Copy, PartialEq, Eq, Structural)]
pub enum MediatekAssessment {
    /// All supported supplied semantics were validated.
    Complete,
    /// Exact supported semantics exist but explicit limitations remain.
    Partial,
    /// A trustworthy projection could not be established.
    Inconclusive,
}

/// Device-write, loader and security trust remain outside static authority.
#[derive(Debug, Clone, Copy, PartialEq, Eq, Structural)]
pub enum MediatekTrustAssessment {
    /// Static package analysis and read-only observations grant no mutation authority.
    NotEstablished,
}

/// Mechanically earned static proof level, weakest first.
#[derive(Debug, Clone, Copy, PartialEq, Eq, PartialOrd, Ord, Structural)]
pub enum MediatekStaticProofLevel {
    /// Exact source identity and a bounded partition inventory exist.
    InventoryOnly,
    /// Scatter grammar, required fields and partition ranges were validated.
    StructureChecked,
    /// Every scatter-referenced component resolves to exact digest-bound bundle bytes.
    BundleLinked,
    /// Bundle linkage plus supplied read-only device evidence are mutually consistent.
    EvidenceCorrelated,
    /// Compared retained component identities and digests are exact.
    ComponentExact,
    /// Compared scatter source bytes and retained component identities are exact.
    ByteExact,
}

/// One inclusive-start, exclusive-end MediaTek partition range.
#[derive(Debug, Clone, Copy, PartialEq, Eq, Structural)]
pub struct MediatekPartitionRange {
    /// Inclusive byte start.
    pub start: u64,
    /// Exclusive byte end.
    pub end_exclusive: u64,
}

/// One validated MediaTek scatter partition relationship.
#[derive(Debug, Clone)]
pub struct MediatekPartition {
    /// Scatter partition index token such as `SYS0`.
    pub partition_index: String,
    /// Partition name.
    pub partition_name: String,
    /// Referenced sibling image path, or `None` for `NONE`.
    pub file_name: Option<String>,
    /// Scatter `is_download` declaration retained as metadata only.
    pub is_download: bool,
    /// Scatter image or partition type token.
    pub image_type: String,
    /// Exact linear range from the scatter record.
    pub linear_range: MediatekPartitionRange,
    /// Exact physical range from the scatter record.
    pub physical_range: MediatekPartitionRange,
    /// Scatter region token.
    pub region: String,
    /// Scatter storage token.
    pub storage: String,
    /// Exact linked bundle component size when resolved.
    pub linked_component_size: Option<u64>,
    /// Exact linked bundle component lowercase SHA-256 when resolved.
    pub linked_component_sha256: Option<String>,
}

/// Abstract value of a scatter partition relationship.
pub ghost struct PartitionView {
    /// Partition index token.
    pub index: Seq<char>,
    /// Partition name.
    pub name: Seq<char>,
    /// Referenced sibling path.
    pub file_name: Option<Seq<char>>,
    /// `is_download` declaration.
    pub is_download: bool,
    /// Type token.
    pub image_type: Seq<char>,
    /// Linear range.
    pub linear: MediatekPartitionRange,
    /// Physical range.
    pub physical: MediatekPartitionRange,
    /// Region token.
    pub region: Seq<char>,
    /// Storage token.
    pub storage: Seq<char>,
    /// Linked component size.
    pub linked_size: Option<u64>,
    /// Linked component digest.
    pub linked_sha256: Option<Seq<char>>,
}

/// View of an optional string.
pub open spec fn opt_view(o: Option<String>) -> Option<Seq<char>> {
    match o {
        Some(s) => Some(s@),
        None => None,
    }
}

impl View for MediatekPartition {
    type V = PartitionView;

    open spec fn view(&self) -> PartitionView {
        PartitionView {
            index: self.partition_index@,
            name: self.partition_name@,
            file_name: opt_view(self.file_name),
            is_download: self.is_download,
            image_type: self.image_type@,
            linear: self.linear_range,
            physical: self.physical_range,
            region: self.region@,
            storage: self.storage@,
            linked_size: self.linked_component_size,
            linked_sha256: opt_view(self.linked_component_sha256),
        }
    }
}

/// Views of partitions.
pub open spec fn partition_views(s: Seq<MediatekPartition>) -> Seq<PartitionView> {
    s.map_values(|p: MediatekPartition| p@)
}

/// One exact recovered bundle-entry observation from an untrusted provider.
#[derive(Debug, Clone)]
pub struct MediatekBundleEntryObservation {
    /// Provider-recovered canonical relative path candidate.
    pub path: String,
    /// Exact recovered bytes.
    pub recovered_bytes: Vec<u8>,
    /// Provider-declared lowercase SHA-256 for those bytes.
    pub expected_sha256: String,
}

/// Bounded MediaTek bundle inventory returned by a replaceable provider.
#[derive(Debug, Clone)]
pub struct MediatekBundleObservation {
    /// Exact recovered sibling entries.
    pub entries: Vec<MediatekBundleEntryObservation>,
    /// Provider claim that all supported bundle semantics were enumerated.
    pub complete_claim: bool,
    /// Explicit unsupported or partial semantics.
    pub limitations: Vec<String>,
}

/// Replaceable MediaTek package and bundle boundary.
pub trait MediatekBundleProvider {
    /// Whether `id` is an alias this provider may report; any, unless the implementation says
    /// otherwise.
    open spec fn id_post(&self, id: Seq<char>) -> bool {
        true
    }

    /// Whether `r` is a result this provider may give for the scatter `source` under `limits`;
    /// any, unless the implementation says otherwise.
    open spec fn inspect_post(&self, source: Seq<u8>, limits: MediatekLimits, r: Result<MediatekBundleObservation, String>) -> bool {
        true
    }

    /// Stable backend-local provider alias.
    fn provider_id(&self) -> (r: &str)
        ensures
            self.id_post(r@),
    ;

    /// Recover exact sibling package bytes associated with the immutable scatter source.
    fn inspect_bundle(&self, scatter_source: &[u8], limits: MediatekLimits) -> (r: Result<MediatekBundleObservation, String>)
        ensures
            self.inspect_post(scatter_source@, limits, r),
    ;
}

/// Validated exact sibling bundle entry.
#[derive(Debug, Clone)]
pub struct MediatekBundleEntry {
    /// Canonical relative forward-slash path.
    pub path: String,
    /// Exact recovered byte size.
    pub byte_size: u64,
    /// Exact recovered lowercase SHA-256.
    pub sha256: String,
    recovered_bytes: Vec<u8>,
}

/// Abstract value of a bundle entry: path, size, digest and bytes.
pub type BundleEntryView = (Seq<char>, u64, Seq<char>, Seq<u8>);

impl MediatekBundleEntry {
    /// The exact recovered bytes.
    pub closed spec fn content(&self) -> Seq<u8> {
        self.recovered_bytes@
    }

    /// The abstract value of this entry.
    pub closed spec fn entry_view(&self) -> BundleEntryView {
        (self.path@, self.byte_size, self.sha256@, self.recovered_bytes@)
    }

    /// The retained bytes are the last part of the abstract value.
    pub proof fn lemma_entry_content(&self)
        ensures
            self.entry_view().3 == self.content(),
    {
    }

    /// The canonical path.
    pub fn path_text(&self) -> (r: &String)
        ensures
            r@ == self.entry_view().0,
    {
        &self.path
    }

    /// The recovered byte size.
    pub fn size(&self) -> (r: u64)
        ensures
            r == self.entry_view().1,
    {
        self.byte_size
    }

    /// The recovered lowercase SHA-256.
    pub fn digest_text(&self) -> (r: &String)
        ensures
            r@ == self.entry_view().2,
    {
        &self.sha256
    }

    /// Build an entry from its parts.
    pub(crate) fn from_parts(path: String, byte_size: u64, sha256: String, recovered_bytes: Vec<u8>) -> (r: Self)
        ensures
            r.content() == recovered_bytes@,
            r.entry_view() == (path@, byte_size, sha256@, recovered_bytes@),
    {
        MediatekBundleEntry { path, byte_size, sha256, recovered_bytes }
    }

    /// Read-only exact recovered bytes.
    pub fn bytes(&self) -> (r: &[u8])
        ensures
            r@ == self.content(),
    {
        self.recovered_bytes.as_slice()
    }

    /// Take this entry apart.
    pub(crate) fn into_parts(self) -> (r: (String, u64, String, Vec<u8>))
        ensures
            (r.0@, r.1, r.2@, r.3@) == self.entry_view(),
    {
        (self.path, self.byte_size, self.sha256, self.recovered_bytes)
    }

    /// Copy of this entry.
    pub fn duplicate(&self) -> (r: Self)
        ensures
            r.entry_view() == self.entry_view(),
    {
        MediatekBundleEntry {
            path: self.path.clone(),
            byte_size: self.byte_size,
            sha256: self.sha256.clone(),
            recovered_bytes: self.recovered_bytes.clone(),
        }
    }
}

/// Views of bundle entries.
pub open spec fn bundle_entry_views(s: Seq<MediatekBundleEntry>) -> Seq<BundleEntryView> {
    s.map_values(|e: MediatekBundleEntry| e.entry_view())
}

/// MediaTek transport or service mode observed by a read-only evidence facility.
#[derive(Debug, Clone, Copy, PartialEq, Eq, PartialOrd, Ord, Structural)]
pub enum MediatekMode {
    /// BootROM mode.
    Brom,
    /// Preloader mode.
    Preloader,
    /// Download Agent or service mode.
    Da,
    /// V6 preloader-mode workflow family.
    V6,
    /// META mode.
    Meta,
    /// Normal stock runtime.
    Stock,
    /// The provider could not establish a mode.
    Unknown,
}

/// Strongest mechanically validated level of supplied read-only device evidence, weakest first.
#[derive(Debug, Clone, Copy, PartialEq, Eq, PartialOrd, Ord, Structural)]
pub enum MediatekEvidenceLevel {
    /// No transport or service proof was supplied.
    Unestablished,
    /// Exact USB VID/PID transport presence was supplied.
    TransportPresence,
    /// A distinct device or service mode was supplied.
    ModePresence,
    /// A read-only service-session receipt was explicitly supplied.
    ServiceSessionEvidence,
    /// The service session supplied a bounded partition-layout inventory.
    LayoutEvidence,
}

/// Bounded read-only MTK/META observation from an untrusted evidence provider.
#[derive(Debug, Clone)]
pub struct MediatekEvidenceObservation {
    /// Observed device or service mode.
    pub mode: MediatekMode,
    /// Optional exact USB vendor identifier.
    pub usb_vid: Option<u16>,
    /// Optional exact USB product identifier.
    pub usb_pid: Option<u16>,
    /// Optional platform claim such as `MT6789`.
    pub platform: Option<String>,
    /// Optional storage-family claim such as `EMMC` or `UFS`.
    pub storage: Option<String>,
    /// Partition names returned by a read-only layout inventory.
    pub partition_names: Vec<String>,
    /// The provider supplied evidence of a valid read-only service session.
    pub service_session_established: bool,
    /// The provider supplied evidence that the layout was inventoried through that session.
    pub layout_inventoried: bool,
    /// Provider claim that all supported evidence semantics were supplied.
    pub complete_claim: bool,
    /// Explicit unsupported or partial semantics.
    pub limitations: Vec<String>,
}

/// Replaceable read-only MTK/META evidence boundary.
pub trait MediatekEvidenceProvider {
    /// Whether `id` is an alias this provider may report; any, unless the implementation says
    /// otherwise.
    open spec fn id_post(&self, id: Seq<char>) -> bool {
        true
    }

    /// Whether `r` is a result this provider may give for the scatter `source` under `limits`;
    /// any, unless the implementation says otherwise.
    open spec fn inspect_post(&self, source: Seq<u8>, limits: MediatekLimits, r: Result<MediatekEvidenceObservation, String>) -> bool {
        true
    }

    /// Stable backend-local provider alias.
    fn provider_id(&self) -> (r: &str)
        ensures
            self.id_post(r@),
    ;

    /// Return bounded read-only evidence associated with the package inspection.
    fn inspect_evidence(&self, scatter_source: &[u8], limits: MediatekLimits) -> (r: Result<MediatekEvidenceObservation, String>)
        ensures
            self.inspect_post(scatter_source@, limits, r),
    ;
}

/// Validated read-only evidence projection.
#[derive(Debug, Clone)]
pub struct MediatekEvidence {
    /// Backend-local provider alias.
    pub provider_alias: String,
    /// Observed mode.
    pub mode: MediatekMode,
    /// Optional exact USB VID.
    pub usb_vid: Option<u16>,
    /// Optional exact USB PID.
    pub usb_pid: Option<u16>,
    /// Optional platform claim.
    pub platform: Option<String>,
    /// Optional storage-family claim.
    pub storage: Option<String>,
    /// Bounded partition names.
    pub partition_names: Vec<String>,
    /// Explicit service-session evidence flag.
    pub service_session_established: bool,
    /// Explicit layout-inventory evidence flag.
    pub layout_inventoried: bool,
    /// Strongest mechanically validated evidence level.
    pub level: MediatekEvidenceLevel,
    /// Provider completeness claim.
    pub complete_claim: bool,
    /// Explicit unsupported or partial semantics.
    pub limitations: Vec<String>,
}

/// Static scatter-to-evidence correlation result.
#[derive(Debug, Clone, Copy, PartialEq, Eq, Structural)]
pub struct MediatekEvidenceCorrelation {
    /// Platform claim comparison when supplied.
    pub platform_matches: Option<bool>,
    /// Storage claim comparison when supplied.
    pub storage_matches: Option<bool>,
    /// Exact partition-name-set comparison when a layout was inventoried.
    pub partition_names_match: Option<bool>,
}

/// Source-bound MediaTek report.
#[derive(Debug)]
pub struct MediatekReport {
    /// Exact scatter object revision.
    pub source_revision_ref: EntityRef,
    /// Exact immutable whole-scatter SHA-256.
    pub source_sha256: String,
    /// Exact immutable scatter byte size.
    pub source_size: u64,
    /// Optional scatter config version.
    pub config_version: Option<String>,
    /// Scatter platform claim.
    pub platform: String,
    /// Scatter storage-family claim.
    pub storage: String,
    /// Structural and semantic truth status.
    pub assessment: MediatekAssessment,
    /// Static inspection grants no device mutation trust.
    pub trust: MediatekTrustAssessment,
    /// Mechanically earned static proof level.
    pub proof_level: Option<MediatekStaticProofLevel>,
    /// Backend-local bundle provider alias when one was used.
    pub bundle_provider_alias: Option<String>,
    /// Exact recovered sibling entries, sorted by path.
    pub bundle_entries: Vec<MediatekBundleEntry>,
    /// Exact partition relationships parsed from the scatter file.
    pub partitions: Vec<MediatekPartition>,
    /// Optional read-only device evidence.
    pub evidence: Option<MediatekEvidence>,
    /// Optional static-to-evidence correlation.
    pub evidence_correlation: Option<MediatekEvidenceCorrelation>,
    /// Non-fatal warnings.
    pub warnings: Vec<String>,
    /// Explicit unsupported, ambiguous or incomplete boundaries.
    pub limitations: Vec<String>,
}

/// Exact recovered MediaTek sibling component bytes.
#[derive(Debug)]
pub struct MediatekMaterialization {
    /// Canonical referenced component path.
    pub name: String,
    /// Object class used for registration.
    pub object_class: String,
    /// Exact scatter source revision that referenced this component.
    pub source_revision_ref: EntityRef,
    /// Exact recovered SHA-256.
    pub sha256: String,
    bytes: Vec<u8>,
}

impl MediatekMaterialization {
    /// The exact recovered bytes.
    pub closed spec fn content(&self) -> Seq<u8> {
        self.bytes@
    }

    /// The abstract value: name, object class, source revision, digest and bytes.
    pub closed spec fn mat_view(&self) -> (Seq<char>, Seq<char>, (Seq<char>, Seq<char>), Seq<char>, Seq<u8>) {
        (self.name@, self.object_class@, self.source_revision_ref@, self.sha256@, self.bytes@)
    }

    /// Build a materialization from its parts.
    pub(crate) fn from_parts(
        name: String,
        object_class: String,
        source_revision_ref: EntityRef,
        sha256: String,
        bytes: Vec<u8>,
    ) -> (r: Self)
        ensures
            r.mat_view() == (name@, object_class@, source_revision_ref@, sha256@, bytes@),
            r.content() == bytes@,
    {
        MediatekMaterialization { name, object_class, source_revision_ref, sha256, bytes }
    }

    /// Read-only exact recovered bytes.
    pub fn bytes(&self) -> (r: &[u8])
        ensures
            r@ == self.content(),
            r@ == self.mat_view().4,
    {
        self.bytes.as_slice()
    }
}

/// Structural comparison strength.
#[derive(Debug, Clone, Copy, PartialEq, Eq, PartialOrd, Ord, Structural)]
pub enum MediatekComparisonLevel {
    /// Structural projections differ.
    Different,
    /// Structure matches but retained component digests differ.
    StructureOnly,
    /// Retained component identities and digests match while scatter bytes differ.
    ComponentExact,
    /// Scatter bytes and retained component identities are digest-identical.
    ByteExact,
}

/// Source-bound MediaTek comparison report.
#[derive(Debug)]
pub struct MediatekComparison {
    /// Left scatter source revision.
    pub left_source_revision_ref: EntityRef,
    /// Right scatter source revision.
    pub right_source_revision_ref: EntityRef,
    /// Strongest mechanically established comparison level.
    pub level: MediatekComparisonLevel,
    /// Deterministic differences.
    pub differences: Vec<String>,
}

/// MediaTek inspection failures.
#[derive(Debug, Clone, PartialEq, Eq)]
pub enum C05Error {
    /// Workspace reference is not canonical.
    InvalidWorkspaceRef,
    /// Source must bind an exact object revision.
    InvalidSourceRevision,
    /// One configured resource limit is zero.
    InvalidLimits,
    /// Scatter source exceeds configured bytes.
    SourceTooLarge,
    /// Scatter source is not valid UTF-8.
    InvalidUtf8,
    /// Scatter grammar or required fields are invalid.
    InvalidScatter,
    /// Input line count exceeds configured bounds.
    TooManyLines,
    /// Partition count exceeds configured bounds.
    TooManyPartitions,
    /// Bundle entry count exceeds configured bounds.
    TooManyEntries,
    /// Total recovered bundle bytes exceed configured bounds.
    TooManyRecoveredBytes,
    /// String or path exceeds configured bounds or violates grammar.
    InvalidString,
    /// Bundle path is unsafe or non-canonical.
    InvalidBundlePath,
    /// Duplicate canonical bundle path.
    DuplicateBundlePath,
    /// Duplicate partition index or partition name.
    DuplicatePartition,
    /// Scatter numeric field is invalid.
    InvalidNumber,
    /// Partition range arithmetic overflowed.
    PartitionRangeOverflow,
    /// Provider-declared digest is malformed or mismatched.
    DigestMismatch,
    /// Bundle provider failed.
    BundleProvider(String),
    /// Evidence provider failed.
    EvidenceProvider(String),
    /// Evidence observation violates monotonic proof-level rules.
    InvalidEvidenceObservation,
    /// Numeric accounting overflowed.
    AccountingOverflow,
    /// Report, source or context binding mismatch.
    SourceBindingMismatch,
    /// A retained entry no longer matches its recorded digest.
    ReportIntegrityMismatch,
    /// Requested exact referenced component does not exist.
    ChildNotFound,
    /// Materialization exceeds configured bounds.
    MaterializationTooLarge,
}

} // verus!
