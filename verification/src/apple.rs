//! Apple firmware vocabulary: limits, archive and manifest observations, retained entries,
//! manifest projections and IMG4-family DER components.
use vstd::prelude::*;
use crate::identity::EntityRef;
use crate::mediatek::opt_view;
use crate::partition_map::string_views;

verus! {

/// Bounded resource limits for one Apple firmware inspection.
#[derive(Debug, Clone, Copy, PartialEq, Eq, Structural)]
pub struct AppleFirmwareLimits {
    /// Maximum immutable source bytes accepted by one inspection.
    pub max_source_bytes: u64,
    /// Maximum archive entries retained from an untrusted provider.
    pub max_archive_entries: usize,
    /// Maximum total recovered archive bytes retained in one report.
    pub max_recovered_bytes: u64,
    /// Maximum manifest components returned by a manifest provider.
    pub max_manifest_components: usize,
    /// Maximum bytes retained for one string or path.
    pub max_string_bytes: usize,
    /// Maximum DER nesting depth followed.
    pub max_der_depth: usize,
    /// Maximum DER elements parsed.
    pub max_der_elements: usize,
    /// Maximum exact child bytes materialized by one request.
    pub max_materialized_bytes: u64,
}

impl Default for AppleFirmwareLimits {
    fn default() -> (r: Self)
        ensures
            r.max_source_bytes == 16 * 1024 * 1024 * 1024,
            r.max_archive_entries == 131_072,
            r.max_recovered_bytes == 8 * 1024 * 1024 * 1024,
            r.max_manifest_components == 65_536,
            r.max_string_bytes == 8192,
            r.max_der_depth == 32,
            r.max_der_elements == 131_072,
            r.max_materialized_bytes == 2 * 1024 * 1024 * 1024,
    {
        AppleFirmwareLimits {
            max_source_bytes: 16 * 1024 * 1024 * 1024,
            max_archive_entries: 131_072,
            max_recovered_bytes: 8 * 1024 * 1024 * 1024,
            max_manifest_components: 65_536,
            max_string_bytes: 8192,
            max_der_depth: 32,
            max_der_elements: 131_072,
            max_materialized_bytes: 2 * 1024 * 1024 * 1024,
        }
    }
}

/// All Apple firmware limits are non-zero.
pub open spec fn apple_limits_valid(l: AppleFirmwareLimits) -> bool {
    l.max_source_bytes != 0 && l.max_archive_entries != 0 && l.max_recovered_bytes != 0
        && l.max_manifest_components != 0 && l.max_string_bytes != 0 && l.max_der_depth != 0
        && l.max_der_elements != 0 && l.max_materialized_bytes != 0
}

/// Reject a zero limit.
pub fn validate_apple_limits(limits: AppleFirmwareLimits) -> (r: Result<(), C04Error>)
    ensures
        r is Ok <==> apple_limits_valid(limits),
        r matches Err(e) ==> e == C04Error::InvalidLimits,
{
    if limits.max_source_bytes == 0 || limits.max_archive_entries == 0 || limits.max_recovered_bytes == 0
        || limits.max_manifest_components == 0 || limits.max_string_bytes == 0 || limits.max_der_depth == 0
        || limits.max_der_elements == 0 || limits.max_materialized_bytes == 0 {
        return Err(C04Error::InvalidLimits);
    }
    Ok(())
}

/// Exact immutable source and production context.
#[derive(Debug)]
pub struct AppleFirmwareContext {
    /// Workspace owning the source and derived plans.
    pub workspace_ref: EntityRef,
    /// Authority for canonical plans.
    pub authority_ref: EntityRef,
    /// Exact immutable source object revision.
    pub source_revision_ref: EntityRef,
}

/// The failure of context validation, if any.
pub open spec fn apple_context_fault(c: AppleFirmwareContext) -> Option<C04Error> {
    if c.workspace_ref.entity_kind@ != "core.workspace"@ {
        Some(C04Error::InvalidWorkspaceRef)
    } else if c.source_revision_ref.entity_kind@ != "object.revision"@ {
        Some(C04Error::InvalidSourceRevision)
    } else {
        None
    }
}

/// Require a workspace and an exact object revision.
pub fn validate_apple_context(context: &AppleFirmwareContext) -> (r: Result<(), C04Error>)
    ensures
        r is Ok <==> apple_context_fault(*context) is None,
        r matches Err(e) ==> apple_context_fault(*context) == Some(e),
{
    if !context.workspace_ref.has_kind("core.workspace") {
        return Err(C04Error::InvalidWorkspaceRef);
    }
    if !context.source_revision_ref.has_kind("object.revision") {
        return Err(C04Error::InvalidSourceRevision);
    }
    Ok(())
}

/// Caller-declared role for ZIP-framed Apple firmware archives.
#[derive(Debug, Clone, Copy, PartialEq, Eq, Structural)]
pub enum AppleArchiveRole {
    /// Restore or update bundle.
    Ipsw,
    /// Over-the-air update bundle.
    Ota,
}

/// Apple firmware artifact family.
#[derive(Debug, Clone, Copy, PartialEq, Eq, Structural)]
pub enum AppleFirmwareArtifactKind {
    /// ZIP-framed restore archive.
    IpswArchive,
    /// ZIP-framed over-the-air archive.
    OtaArchive,
    /// IMG4 container.
    Img4,
    /// Standalone IM4P payload object.
    Im4p,
    /// Standalone IM4M manifest or signing object.
    Im4m,
    /// Standalone IM4R restore object.
    Im4r,
}

/// Caller declarations needed only where source framing is ambiguous.
#[derive(Debug, Clone, Copy, PartialEq, Eq, Structural)]
pub struct AppleInspectRequest {
    /// Required for ZIP framing, whose magic does not tell the two archive roles apart.
    pub archive_role: Option<AppleArchiveRole>,
}

impl Default for AppleInspectRequest {
    fn default() -> (r: Self)
        ensures
            r.archive_role is None,
    {
        AppleInspectRequest { archive_role: None }
    }
}

/// Truth status of one report.
#[derive(Debug, Clone, Copy, PartialEq, Eq, Structural)]
pub enum AppleAssessment {
    /// All supported supplied semantics were validated.
    Complete,
    /// Exact supported semantics exist but explicit limitations remain.
    Partial,
    /// A trustworthy projection could not be established.
    Inconclusive,
}

/// Signing and restore trust remain separate from structural parsing.
#[derive(Debug, Clone, Copy, PartialEq, Eq, Structural)]
pub enum AppleTrustAssessment {
    /// Signing, personalization, restore or boot trust was not established.
    NotEstablished,
}

/// Mechanically earned static proof level.
#[derive(Debug, Clone, Copy, PartialEq, Eq, Structural)]
pub enum AppleStaticProofLevel {
    /// Exact source identity and a bounded inventory exist.
    InventoryOnly,
    /// Required framing, bounds, paths and retained digests were validated.
    StructureChecked,
    /// Validated manifest references resolve to exact retained archive entries.
    ManifestLinked,
    /// Compared retained component identities and digests are exact.
    ComponentExact,
    /// Compared immutable source bytes are digest-identical.
    ByteExact,
}

/// One exact recovered archive entry observation from an untrusted provider.
#[derive(Debug)]
pub struct AppleArchiveEntryObservation {
    /// Provider-recovered archive path.
    pub path: String,
    /// Exact recovered bytes.
    pub recovered_bytes: Vec<u8>,
    /// Provider-declared lowercase SHA-256 of those bytes.
    pub expected_sha256: String,
}

/// Bounded archive inventory returned by a replaceable provider.
#[derive(Debug)]
pub struct AppleArchiveObservation {
    /// Exact recovered entries.
    pub entries: Vec<AppleArchiveEntryObservation>,
    /// Provider claim that all supported archive semantics were enumerated.
    pub complete_claim: bool,
    /// Explicit unsupported or partial semantics.
    pub limitations: Vec<String>,
}

/// Replaceable ZIP archive boundary.
pub trait AppleArchiveProvider {
    /// Whether `id` is an alias this provider may report; any, unless the implementation says
    /// otherwise.
    open spec fn id_post(&self, id: Seq<char>) -> bool {
        true
    }

    /// Whether `r` is a result this provider may give for `source` in `role` under `limits`;
    /// any, unless the implementation says otherwise.
    open spec fn inspect_post(
        &self,
        source: Seq<u8>,
        role: AppleArchiveRole,
        limits: AppleFirmwareLimits,
        r: Result<AppleArchiveObservation, String>,
    ) -> bool {
        true
    }

    /// Stable backend-local provider alias.
    fn provider_id(&self) -> (r: &str)
        ensures
            self.id_post(r@),
    ;

    /// Recover exact archive entries from immutable source bytes; a provider-specific message on
    /// failure.
    fn inspect_archive(&self, source: &[u8], role: AppleArchiveRole, limits: AppleFirmwareLimits) -> (r: Result<
        AppleArchiveObservation,
        String,
    >)
        ensures
            self.inspect_post(source@, role, limits, r),
    ;
}

/// One manifest component-path observation from an untrusted provider.
#[derive(Debug)]
pub struct AppleManifestComponentObservation {
    /// Component name from the manifest semantics.
    pub name: String,
    /// Archive path referenced by that component.
    pub path: String,
}

/// Bounded build-manifest or restore-manifest semantics returned by a provider.
#[derive(Debug)]
pub struct AppleManifestObservation {
    /// Optional build identity.
    pub build_id: Option<String>,
    /// Optional product version.
    pub product_version: Option<String>,
    /// Component path references.
    pub components: Vec<AppleManifestComponentObservation>,
    /// Provider claim that all supported manifest semantics were decoded.
    pub complete_claim: bool,
    /// Explicit unsupported or partial semantics.
    pub limitations: Vec<String>,
}

/// Replaceable manifest semantic boundary.
pub trait AppleManifestProvider {
    /// Whether `id` is an alias this provider may report; any, unless the implementation says
    /// otherwise.
    open spec fn id_post(&self, id: Seq<char>) -> bool {
        true
    }

    /// Whether `r` is a result this provider may give for `manifest_bytes` in `role` under
    /// `limits`; any, unless the implementation says otherwise.
    open spec fn inspect_post(
        &self,
        manifest_bytes: Seq<u8>,
        role: AppleArchiveRole,
        limits: AppleFirmwareLimits,
        r: Result<AppleManifestObservation, String>,
    ) -> bool {
        true
    }

    /// Stable backend-local provider alias.
    fn provider_id(&self) -> (r: &str)
        ensures
            self.id_post(r@),
    ;

    /// Decode exact recovered manifest bytes; a provider-specific message on failure.
    fn inspect_manifest(&self, manifest_bytes: &[u8], role: AppleArchiveRole, limits: AppleFirmwareLimits) -> (r: Result<
        AppleManifestObservation,
        String,
    >)
        ensures
            self.inspect_post(manifest_bytes@, role, limits, r),
    ;
}

/// Validated exact archive entry.
#[derive(Debug)]
pub struct AppleArchiveEntry {
    /// Canonical relative forward-slash path.
    pub path: String,
    /// Exact recovered byte size.
    pub byte_size: u64,
    /// Exact recovered lowercase SHA-256.
    pub sha256: String,
    /// Whether the path is a manifest candidate.
    pub manifest_candidate: bool,
    recovered_bytes: Vec<u8>,
}

/// Abstract value of a retained archive entry: path, size, digest, manifest-candidate flag and
/// bytes.
pub type AppleEntryView = (Seq<char>, u64, Seq<char>, bool, Seq<u8>);

impl AppleArchiveEntry {
    /// The recovered bytes.
    pub closed spec fn content(&self) -> Seq<u8> {
        self.recovered_bytes@
    }

    /// The abstract value of this entry.
    pub closed spec fn entry_view(&self) -> AppleEntryView {
        (self.path@, self.byte_size, self.sha256@, self.manifest_candidate, self.recovered_bytes@)
    }

    /// The canonical path.
    pub fn path_text(&self) -> (r: &String)
        ensures
            r@ == self.entry_view().0,
    {
        &self.path
    }

    /// The recovered byte size.
    pub fn size(&self) -> (r: u64)
        ensures
            r == self.entry_view().1,
    {
        self.byte_size
    }

    /// The recovered lowercase SHA-256.
    pub fn digest_text(&self) -> (r: &String)
        ensures
            r@ == self.entry_view().2,
    {
        &self.sha256
    }

    /// Whether the path is a manifest candidate.
    pub fn is_candidate(&self) -> (r: bool)
        ensures
            r == self.entry_view().3,
    {
        self.manifest_candidate
    }

    /// Copy of the recovered bytes.
    pub(crate) fn bytes_vec(&self) -> (r: Vec<u8>)
        ensures
            r@ == self.entry_view().4,
    {
        self.recovered_bytes.clone()
    }

    /// The recovered bytes are the last part of the abstract value.
    pub proof fn lemma_entry_content(&self)
        ensures
            self.entry_view().4 == self.content(),
    {
    }

    /// Build an entry from its parts.
    pub(crate) fn from_parts(
        path: String,
        byte_size: u64,
        sha256: String,
        manifest_candidate: bool,
        recovered_bytes: Vec<u8>,
    ) -> (r: Self)
        ensures
            r.entry_view() == (path@, byte_size, sha256@, manifest_candidate, recovered_bytes@),
    {
        AppleArchiveEntry { path, byte_size, sha256, manifest_candidate, recovered_bytes }
    }

    /// Read-only exact recovered bytes.
    pub fn bytes(&self) -> (r: &[u8])
        ensures
            r@ == self.content(),
    {
        self.recovered_bytes.as_slice()
    }
}

/// One validated manifest component resolved to an exact archive entry.
#[derive(Debug)]
pub struct AppleManifestComponent {
    /// Manifest component name.
    pub name: String,
    /// Canonical referenced archive path.
    pub path: String,
    /// Exact recovered entry digest.
    pub entry_sha256: String,
    /// Exact recovered entry byte size.
    pub byte_size: u64,
}

/// Validated manifest projection.
#[derive(Debug)]
pub struct AppleManifest {
    /// Exact manifest archive path.
    pub manifest_path: String,
    /// Exact recovered manifest digest.
    pub manifest_sha256: String,
    /// Backend-local manifest provider alias.
    pub provider_alias: String,
    /// Optional build identity.
    pub build_id: Option<String>,
    /// Optional product version.
    pub product_version: Option<String>,
    /// Exact resolved component references.
    pub components: Vec<AppleManifestComponent>,
    /// Canonical component paths that did not resolve.
    pub unresolved_paths: Vec<String>,
    /// Explicit unsupported or partial semantics.
    pub limitations: Vec<String>,
    /// Whether the provider claimed complete supported semantics.
    pub complete_claim: bool,
}

/// Exact source-backed DER component class.
#[derive(Debug, Clone, Copy, PartialEq, Eq, Structural)]
pub enum AppleDerComponentKind {
    /// Exact encoded IM4P child object.
    Im4pObject,
    /// Exact encoded IM4M child object.
    Im4mObject,
    /// Exact encoded IM4R child object.
    Im4rObject,
    /// Exact IM4P payload octet-string content.
    Im4pPayload,
    /// Exact IM4M signing or certificate material octet-string content.
    SigningMaterial,
    /// Exact IM4R payload octet-string content.
    Im4rPayload,
}

/// One exact immutable source byte range in an IMG4-family object.
#[derive(Debug)]
pub struct AppleDerComponent {
    /// Stable component class.
    pub kind: AppleDerComponentKind,
    /// Deterministic component name.
    pub name: String,
    /// Inclusive source byte start.
    pub byte_start: u64,
    /// Exclusive source byte end.
    pub byte_end_exclusive: u64,
    /// Exact lowercase SHA-256 of the source range.
    pub sha256: String,
}

/// Abstract value of a DER component: kind, name, range and digest.
pub type DerComponentValue = (AppleDerComponentKind, Seq<char>, u64, u64, Seq<char>);

/// Views of DER components.
pub open spec fn der_component_values(s: Seq<AppleDerComponent>) -> Seq<DerComponentValue> {
    s.map_values(|c: AppleDerComponent| (c.kind, c.name@, c.byte_start, c.byte_end_exclusive, c.sha256@))
}

/// Structural comparison strength.
#[derive(Debug, Clone, Copy, PartialEq, Eq, Structural)]
pub enum AppleComparisonLevel {
    /// Structural projections differ.
    Different,
    /// Structure matches but retained component digests differ.
    StructureOnly,
    /// Retained component identities and digests match while the whole source differs.
    ComponentExact,
    /// Whole immutable source digest and size match.
    ByteExact,
}

/// Apple firmware inspection failures.
#[derive(Debug, Clone, PartialEq, Eq)]
pub enum C04Error {
    /// Workspace reference is not canonical.
    InvalidWorkspaceRef,
    /// Source must bind an exact object revision.
    InvalidSourceRevision,
    /// One configured limit is zero.
    InvalidLimits,
    /// Source exceeds configured bytes.
    SourceTooLarge,
    /// Source framing is not an Apple firmware family.
    UnsupportedArtifact,
    /// ZIP framing requires an explicit archive role.
    ArchiveRoleRequired,
    /// The archive provider failed; its message is kept.
    ArchiveProvider(String),
    /// The manifest provider failed; its message is kept.
    ManifestProvider(String),
    /// Archive entry count exceeds configured bounds.
    TooManyEntries,
    /// Total recovered archive bytes exceed configured bounds.
    TooManyRecoveredBytes,
    /// Manifest component count exceeds configured bounds.
    TooManyManifestComponents,
    /// String or path exceeds configured bounds or violates grammar.
    InvalidString,
    /// Archive path is unsafe or non-canonical.
    InvalidArchivePath,
    /// Duplicate canonical archive path.
    DuplicateArchivePath,
    /// Provider-declared digest is malformed or mismatched.
    DigestMismatch,
    /// Provider manifest observation is structurally inconsistent.
    InvalidManifestObservation,
    /// DER framing is malformed, non-minimal or out of bounds; the reason is given.
    MalformedDer(&'static str),
    /// DER depth exceeds configured bounds.
    DerDepthExceeded,
    /// DER element count exceeds configured bounds.
    DerElementsExceeded,
    /// Numeric accounting overflowed.
    AccountingOverflow,
    /// Report, source or context binding mismatch.
    SourceBindingMismatch,
    /// A retained archive entry no longer matches its recorded digest.
    ReportIntegrityMismatch,
    /// Requested exact child does not exist.
    ChildNotFound,
    /// Materialization exceeds configured bounds.
    MaterializationTooLarge,
}

/// Views of optional strings, for limitation lists.
pub open spec fn limitation_views(s: Seq<String>) -> Seq<Seq<char>> {
    string_views(s)
}


/// Views of retained archive entries.
pub open spec fn apple_entry_views(s: Seq<AppleArchiveEntry>) -> Seq<AppleEntryView> {
    s.map_values(|e: AppleArchiveEntry| e.entry_view())
}

/// Abstract value of a resolved manifest component: name, path, entry digest and size.
pub type ManifestComponentView = (Seq<char>, Seq<char>, Seq<char>, u64);

/// Views of resolved manifest components.
pub open spec fn manifest_component_views(s: Seq<AppleManifestComponent>) -> Seq<ManifestComponentView> {
    s.map_values(|c: AppleManifestComponent| (c.name@, c.path@, c.entry_sha256@, c.byte_size))
}

/// Abstract value of a validated manifest projection.
pub ghost struct AppleManifestView {
    /// Manifest archive path.
    pub manifest_path: Seq<char>,
    /// Manifest digest.
    pub manifest_sha256: Seq<char>,
    /// Manifest provider alias.
    pub provider_alias: Seq<char>,
    /// Build identity.
    pub build_id: Option<Seq<char>>,
    /// Product version.
    pub product_version: Option<Seq<char>>,
    /// Resolved components, in name order.
    pub components: Seq<ManifestComponentView>,
    /// Unresolved component paths, in path order.
    pub unresolved_paths: Seq<Seq<char>>,
    /// Limitations.
    pub limitations: Seq<Seq<char>>,
    /// Completeness claim.
    pub complete_claim: bool,
}

impl View for AppleManifest {
    type V = AppleManifestView;

    open spec fn view(&self) -> AppleManifestView {
        AppleManifestView {
            manifest_path: self.manifest_path@,
            manifest_sha256: self.manifest_sha256@,
            provider_alias: self.provider_alias@,
            build_id: opt_view(self.build_id),
            product_version: opt_view(self.product_version),
            components: manifest_component_views(self.components@),
            unresolved_paths: string_views(self.unresolved_paths@),
            limitations: string_views(self.limitations@),
            complete_claim: self.complete_claim,
        }
    }
}

/// View of an optional manifest.
pub open spec fn manifest_opt_view(m: Option<AppleManifest>) -> Option<AppleManifestView> {
    match m {
        Some(x) => Some(x@),
        None => None,
    }
}

/// Source-bound Apple firmware report.
#[derive(Debug)]
pub struct AppleFirmwareReport {
    /// Exact source object revision.
    pub source_revision_ref: EntityRef,
    /// Exact immutable whole-source SHA-256.
    pub source_sha256: String,
    /// Exact immutable source byte size.
    pub source_size: u64,
    /// Artifact family.
    pub kind: AppleFirmwareArtifactKind,
    /// Structural and semantic truth status.
    pub assessment: AppleAssessment,
    /// Signing and restore trust state.
    pub trust: AppleTrustAssessment,
    /// Mechanically earned static proof level, absent when no bounded inventory exists.
    pub proof_level: Option<AppleStaticProofLevel>,
    /// Backend-local archive provider alias when one was used.
    pub archive_provider_alias: Option<String>,
    /// Validated exact recovered archive entries, in path order.
    pub archive_entries: Vec<AppleArchiveEntry>,
    /// Validated manifest projection when available.
    pub manifest: Option<AppleManifest>,
    /// Exact source-backed IMG4-family components.
    pub der_components: Vec<AppleDerComponent>,
    /// Non-fatal warnings.
    pub warnings: Vec<String>,
    /// Explicit unsupported, ambiguous or incomplete boundaries.
    pub limitations: Vec<String>,
}

/// Abstract value of an Apple firmware report.
pub ghost struct AppleReportView {
    /// Source revision reference.
    pub source_revision: (Seq<char>, Seq<char>),
    /// Whole-source digest.
    pub source_sha256: Seq<char>,
    /// Source size.
    pub source_size: u64,
    /// Artifact family.
    pub kind: AppleFirmwareArtifactKind,
    /// Assessment.
    pub assessment: AppleAssessment,
    /// Trust state.
    pub trust: AppleTrustAssessment,
    /// Static proof level.
    pub proof_level: Option<AppleStaticProofLevel>,
    /// Archive provider alias.
    pub archive_alias: Option<Seq<char>>,
    /// Retained archive entries.
    pub entries: Seq<AppleEntryView>,
    /// Manifest projection.
    pub manifest: Option<AppleManifestView>,
    /// DER components.
    pub der: Seq<DerComponentValue>,
    /// Warnings.
    pub warnings: Seq<Seq<char>>,
    /// Limitations.
    pub limitations: Seq<Seq<char>>,
}

impl View for AppleFirmwareReport {
    type V = AppleReportView;

    open spec fn view(&self) -> AppleReportView {
        AppleReportView {
            source_revision: self.source_revision_ref@,
            source_sha256: self.source_sha256@,
            source_size: self.source_size,
            kind: self.kind,
            assessment: self.assessment,
            trust: self.trust,
            proof_level: self.proof_level,
            archive_alias: opt_view(self.archive_provider_alias),
            entries: apple_entry_views(self.archive_entries@),
            manifest: manifest_opt_view(self.manifest),
            der: der_component_values(self.der_components@),
            warnings: string_views(self.warnings@),
            limitations: string_views(self.limitations@),
        }
    }
}

/// Exact recovered archive or DER child bytes.
#[derive(Debug)]
pub struct AppleMaterialization {
    /// Deterministic child name or path.
    pub name: String,
    /// Object class used for registration.
    pub object_class: String,
    /// Exact parent source revision.
    pub source_revision_ref: EntityRef,
    /// Exact recovered SHA-256.
    pub sha256: String,
    bytes: Vec<u8>,
}

/// Abstract value of a materialization.
pub ghost struct AppleMaterializationView {
    /// Child name or path.
    pub name: Seq<char>,
    /// Object class.
    pub object_class: Seq<char>,
    /// Parent source revision.
    pub source_revision_ref: (Seq<char>, Seq<char>),
    /// Recorded digest.
    pub sha256: Seq<char>,
    /// Exact bytes.
    pub bytes: Seq<u8>,
}

impl View for AppleMaterialization {
    type V = AppleMaterializationView;

    closed spec fn view(&self) -> AppleMaterializationView {
        AppleMaterializationView {
            name: self.name@,
            object_class: self.object_class@,
            source_revision_ref: self.source_revision_ref@,
            sha256: self.sha256@,
            bytes: self.bytes@,
        }
    }
}

impl AppleMaterialization {
    /// Build a materialization from its parts.
    pub(crate) fn from_parts(
        name: String,
        object_class: String,
        source_revision_ref: EntityRef,
        sha256: String,
        bytes: Vec<u8>,
    ) -> (r: Self)
        ensures
            r@ == (AppleMaterializationView {
                name: name@,
                object_class: object_class@,
                source_revision_ref: source_revision_ref@,
                sha256: sha256@,
                bytes: bytes@,
            }),
    {
        AppleMaterialization { name, object_class, source_revision_ref, sha256, bytes }
    }

    /// Read-only exact child bytes.
    pub fn bytes(&self) -> (r: &[u8])
        ensures
            r@ == self@.bytes,
    {
        self.bytes.as_slice()
    }
}

/// Source-bound comparison report.
#[derive(Debug)]
pub struct AppleComparison {
    /// Left source revision.
    pub left_source_revision_ref: EntityRef,
    /// Right source revision.
    pub right_source_revision_ref: EntityRef,
    /// Strongest mechanically established comparison level.
    pub level: AppleComparisonLevel,
    /// Deterministic differences.
    pub differences: Vec<String>,
}

} // verus!
