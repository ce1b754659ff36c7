//! Static executable and application-package vocabulary: limits, passive isolation, adapter
//! output, retained report and the validation of untrusted adapter output.
use vstd::prelude::*;
use crate::archive_path::split_slash;
use crate::identity::EntityRef;
use crate::mediatek_scatter::{piece_is_ok, piece_ok, slash_pieces};
use crate::partition_map::{opt_view, string_views};
use crate::text_ops::{normalize_type, normalize_type_spec, trim_chars, trim_spec};

verus! {

/// Static executable or application-package class.
#[derive(Debug, Clone, Copy, PartialEq, Eq, Structural)]
pub enum ExecutableClass {
    /// Portable Executable.
    Pe,
    /// ELF executable or shared object.
    Elf,
    /// Mach-O binary.
    MachO,
    /// Android application package.
    Apk,
    /// Android app bundle.
    Aab,
    /// Dalvik executable.
    Dex,
}

/// Bounded retention policy for executable inspection.
#[derive(Debug, Clone, Copy, PartialEq, Eq, Structural)]
pub struct ExecutableLimits {
    /// Maximum metadata fields retained.
    pub max_metadata_fields: usize,
    /// Maximum sections retained.
    pub max_sections: usize,
    /// Maximum imports retained.
    pub max_imports: usize,
    /// Maximum exports retained.
    pub max_exports: usize,
    /// Maximum signature observations retained.
    pub max_signatures: usize,
    /// Maximum embedded children retained.
    pub max_children: usize,
    /// Maximum bytes of one embedded child.
    pub max_child_bytes: usize,
    /// Maximum bytes of all retained embedded children.
    pub max_total_child_bytes: usize,
}

impl Default for ExecutableLimits {
    fn default() -> (r: Self)
        ensures
            r.max_metadata_fields == 256,
            r.max_sections == 4096,
            r.max_imports == 65_536,
            r.max_exports == 65_536,
            r.max_signatures == 256,
            r.max_children == 4096,
            r.max_child_bytes == 64 * 1024 * 1024,
            r.max_total_child_bytes == 256 * 1024 * 1024,
    {
        ExecutableLimits {
            max_metadata_fields: 256,
            max_sections: 4096,
            max_imports: 65_536,
            max_exports: 65_536,
            max_signatures: 256,
            max_children: 4096,
            max_child_bytes: 64 * 1024 * 1024,
            max_total_child_bytes: 256 * 1024 * 1024,
        }
    }
}

/// Every executable limit is non-zero.
pub open spec fn executable_limits_valid(l: ExecutableLimits) -> bool {
    l.max_metadata_fields != 0 && l.max_sections != 0 && l.max_imports != 0 && l.max_exports != 0
        && l.max_signatures != 0 && l.max_children != 0 && l.max_child_bytes != 0 && l.max_total_child_bytes != 0
}

/// Explicit isolation rule for a static adapter.
#[derive(Debug, Clone, Copy, PartialEq, Eq, Structural)]
pub enum StaticIsolationPolicy {
    /// The capability is denied.
    Denied,
    /// The capability is allowed.
    Allowed,
}

/// Isolation a static adapter declares.
#[derive(Debug, Clone, Copy, PartialEq, Eq, Structural)]
pub struct StaticIsolation {
    /// Executing inspected code.
    pub code_execution: StaticIsolationPolicy,
    /// Network access.
    pub network_access: StaticIsolationPolicy,
    /// Loading external resources.
    pub external_resource_loading: StaticIsolationPolicy,
}

/// Every capability is denied.
pub open spec fn static_isolation_safe(i: StaticIsolation) -> bool {
    i.code_execution == StaticIsolationPolicy::Denied && i.network_access == StaticIsolationPolicy::Denied
        && i.external_resource_loading == StaticIsolationPolicy::Denied
}

impl StaticIsolation {
    /// Passive isolation: execution, network and external resources all denied.
    pub fn passive() -> (r: Self)
        ensures
            static_isolation_safe(r),
    {
        StaticIsolation {
            code_execution: StaticIsolationPolicy::Denied,
            network_access: StaticIsolationPolicy::Denied,
            external_resource_loading: StaticIsolationPolicy::Denied,
        }
    }

    /// Whether every capability is denied.
    pub fn is_safe(&self) -> (r: bool)
        ensures
            r == static_isolation_safe(*self),
    {
        self.code_execution == StaticIsolationPolicy::Denied && self.network_access == StaticIsolationPolicy::Denied
            && self.external_resource_loading == StaticIsolationPolicy::Denied
    }
}

/// Exact immutable source context.
#[derive(Debug)]
pub struct ExecutableContext {
    /// Workspace owning source and derived records.
    pub workspace_ref: EntityRef,
    /// Authority for canonical records.
    pub authority_ref: EntityRef,
    /// Exact immutable source object revision.
    pub source_revision_ref: EntityRef,
}

/// One metadata field.
#[derive(Debug, Clone)]
pub struct ExecutableMetadata {
    /// Field key.
    pub key: String,
    /// Field value.
    pub value: String,
}

/// Views of metadata fields.
pub open spec fn exec_metadata_views(s: Seq<ExecutableMetadata>) -> Seq<(Seq<char>, Seq<char>)> {
    s.map_values(|m: ExecutableMetadata| (m.key@, m.value@))
}

/// One section observation.
#[derive(Debug, Clone)]
pub struct ExecutableSection {
    /// Section name.
    pub name: String,
    /// Source byte offset.
    pub offset: u64,
    /// Byte size.
    pub size: u64,
    /// Section flags.
    pub flags: Vec<String>,
    /// The section is packed or statically unknown.
    pub packed_or_unknown: bool,
}

/// Abstract value of a section: name, offset, size, flags and packed flag.
pub type SectionView = (Seq<char>, u64, u64, Seq<Seq<char>>, bool);

/// Views of sections.
pub open spec fn section_views(s: Seq<ExecutableSection>) -> Seq<SectionView> {
    s.map_values(|x: ExecutableSection| (x.name@, x.offset, x.size, string_views(x.flags@), x.packed_or_unknown))
}

/// Signature verification status as observed statically.
#[derive(Debug, Clone, Copy, PartialEq, Eq, Structural)]
pub enum SignatureStatus {
    /// The signature verified.
    Verified,
    /// The signature is invalid.
    Invalid,
    /// The signature was not verified.
    Unverified,
}

/// One signature observation.
#[derive(Debug, Clone)]
pub struct SignatureObservation {
    /// Signature scheme.
    pub scheme: String,
    /// Signer, if known.
    pub signer: Option<String>,
    /// Verification status.
    pub status: SignatureStatus,
}

/// Abstract value of a signature observation.
pub type SignatureView = (Seq<char>, Option<Seq<char>>, SignatureStatus);

/// Views of signature observations.
pub open spec fn signature_views(s: Seq<SignatureObservation>) -> Seq<SignatureView> {
    s.map_values(|x: SignatureObservation| (x.scheme@, opt_view(x.signer), x.status))
}

/// One embedded child emitted by an adapter.
#[derive(Debug, Clone)]
pub struct AdapterEmbeddedChild {
    /// Logical path of the child.
    pub logical_path: String,
    /// Declared media type.
    pub media_type: String,
    /// Exact child bytes.
    pub bytes: Vec<u8>,
}

/// Abstract value of an emitted child: path, media type and bytes.
pub type EmittedChildView = (Seq<char>, Seq<char>, Seq<u8>);

/// Views of emitted children.
pub open spec fn emitted_child_views(s: Seq<AdapterEmbeddedChild>) -> Seq<EmittedChildView> {
    s.map_values(|c: AdapterEmbeddedChild| (c.logical_path@, c.media_type@, c.bytes@))
}

/// Output of a static executable adapter.
#[derive(Debug, Clone)]
pub struct AdapterExecutable {
    /// Metadata fields.
    pub metadata: Vec<ExecutableMetadata>,
    /// Sections.
    pub sections: Vec<ExecutableSection>,
    /// Imported names.
    pub imports: Vec<String>,
    /// Exported names.
    pub exports: Vec<String>,
    /// Signature observations.
    pub signatures: Vec<SignatureObservation>,
    /// Embedded children.
    pub children: Vec<AdapterEmbeddedChild>,
    /// Source bytes the adapter inspected.
    pub observed_source_bytes: u64,
    /// The adapter claims complete supported coverage.
    pub complete_claim: bool,
    /// Unknown regions.
    pub unknown_regions: Vec<String>,
    /// Warnings.
    pub warnings: Vec<String>,
    /// Limitations.
    pub limitations: Vec<String>,
}

/// Abstract value of adapter output.
pub ghost struct ExecOutView {
    /// Metadata.
    pub metadata: Seq<(Seq<char>, Seq<char>)>,
    /// Sections.
    pub sections: Seq<SectionView>,
    /// Imports.
    pub imports: Seq<Seq<char>>,
    /// Exports.
    pub exports: Seq<Seq<char>>,
    /// Signatures.
    pub signatures: Seq<SignatureView>,
    /// Children.
    pub children: Seq<EmittedChildView>,
    /// Observed source bytes.
    pub observed: u64,
    /// Completeness claim.
    pub complete: bool,
    /// Unknown regions.
    pub unknown: Seq<Seq<char>>,
    /// Warnings.
    pub warnings: Seq<Seq<char>>,
    /// Limitations.
    pub limitations: Seq<Seq<char>>,
}

impl View for AdapterExecutable {
    type V = ExecOutView;

    open spec fn view(&self) -> ExecOutView {
        ExecOutView {
            metadata: exec_metadata_views(self.metadata@),
            sections: section_views(self.sections@),
            imports: string_views(self.imports@),
            exports: string_views(self.exports@),
            signatures: signature_views(self.signatures@),
            children: emitted_child_views(self.children@),
            observed: self.observed_source_bytes,
            complete: self.complete_claim,
            unknown: string_views(self.unknown_regions@),
            warnings: string_views(self.warnings@),
            limitations: string_views(self.limitations@),
        }
    }
}

/// Replaceable passive static-analysis adapter. Each method's answers are described by a
/// relation the implementation may state; by default any answer is allowed.
pub trait ExecutableAdapter {
    /// Whether `id` is an identity this adapter may report.
    open spec fn id_post(&self, id: Seq<char>) -> bool {
        true
    }

    /// Whether `r` is an answer this adapter may give for supporting `media_type`.
    open spec fn supports_post(&self, media_type: Seq<char>, r: bool) -> bool {
        true
    }

    /// Whether `r` is an isolation this adapter may declare.
    open spec fn isolation_post(&self, r: StaticIsolation) -> bool {
        true
    }

    /// Whether `r` is a result this adapter may give for `source` as `media_type` under `limits`.
    open spec fn inspect_post(
        &self,
        source: Seq<u8>,
        media_type: Seq<char>,
        limits: ExecutableLimits,
        r: Result<AdapterExecutable, String>,
    ) -> bool {
        true
    }

    /// Stable adapter identity.
    fn adapter_id(&self) -> (r: &str)
        ensures
            self.id_post(r@),
    ;

    /// Whether the adapter supports a media type.
    fn supports_media_type(&self, media_type: &str) -> (r: bool)
        ensures
            self.supports_post(media_type@, r),
    ;

    /// Declared isolation.
    fn isolation(&self) -> (r: StaticIsolation)
        ensures
            self.isolation_post(r),
    ;

    /// Inspect exact source bytes of the agreed media type.
    fn inspect(&self, source_bytes: &[u8], media_type: &str, limits: ExecutableLimits) -> (r: Result<
        AdapterExecutable,
        String,
    >)
        ensures
            self.inspect_post(source_bytes@, media_type@, limits, r),
    ;
}

/// Execution status of inspected code.
#[derive(Debug, Clone, Copy, PartialEq, Eq, Structural)]
pub enum ExecutionAssessment {
    /// Nothing was executed.
    NotExecuted,
}

/// One retained embedded child.
#[derive(Debug, Clone)]
pub struct EmbeddedExecutableChild {
    /// Logical path.
    pub logical_path: String,
    /// Normalized media type.
    pub media_type: String,
    /// Exact bytes.
    pub bytes: Vec<u8>,
    /// SHA-256 of the bytes.
    pub sha256: String,
    /// Exact source revision the child came from.
    pub source_revision_ref: EntityRef,
}

/// Abstract value of a retained child: path, media type, bytes, digest and source revision.
pub type ChildView = (Seq<char>, Seq<char>, Seq<u8>, Seq<char>, (Seq<char>, Seq<char>));

/// Views of retained children.
pub open spec fn child_views(s: Seq<EmbeddedExecutableChild>) -> Seq<ChildView> {
    s.map_values(
        |c: EmbeddedExecutableChild| (c.logical_path@, c.media_type@, c.bytes@, c.sha256@, c.source_revision_ref@),
    )
}

/// Coverage of an executable report.
#[derive(Debug, Clone)]
pub struct ExecutableCoverage {
    /// Complete supported coverage is claimed and unrefuted.
    pub complete_claim: bool,
    /// Source bytes the adapter inspected.
    pub observed_source_bytes: u64,
    /// Unknown regions and gaps.
    pub unknown_regions: Vec<String>,
    /// Bytes of retained children.
    pub retained_child_bytes: u64,
}

/// Source-bound executable report.
#[derive(Debug)]
pub struct ExecutableReport {
    /// Exact source SHA-256.
    pub source_sha256: String,
    /// Exact source revision.
    pub source_revision_ref: EntityRef,
    /// Agreed media type.
    pub agreed_media_type: Option<String>,
    /// Executable class of the agreed type.
    pub executable_class: Option<ExecutableClass>,
    /// Identity of the adapter used.
    pub adapter_id: Option<String>,
    /// Retained metadata.
    pub metadata: Vec<ExecutableMetadata>,
    /// Retained sections.
    pub sections: Vec<ExecutableSection>,
    /// Retained imports.
    pub imports: Vec<String>,
    /// Retained exports.
    pub exports: Vec<String>,
    /// Retained signature observations.
    pub signatures: Vec<SignatureObservation>,
    /// Retained embedded children.
    pub children: Vec<EmbeddedExecutableChild>,
    /// Coverage.
    pub coverage: ExecutableCoverage,
    /// Nothing is executed.
    pub execution_assessment: ExecutionAssessment,
    /// Warnings.
    pub warnings: Vec<String>,
    /// Limitations.
    pub limitations: Vec<String>,
}

/// Abstract value of an executable report.
pub ghost struct ExecReportView {
    /// Source digest.
    pub sha: Seq<char>,
    /// Source revision.
    pub revision: (Seq<char>, Seq<char>),
    /// Agreed media type.
    pub agreed: Option<Seq<char>>,
    /// Executable class.
    pub class: Option<ExecutableClass>,
    /// Adapter identity.
    pub adapter_id: Option<Seq<char>>,
    /// Metadata.
    pub metadata: Seq<(Seq<char>, Seq<char>)>,
    /// Sections.
    pub sections: Seq<SectionView>,
    /// Imports.
    pub imports: Seq<Seq<char>>,
    /// Exports.
    pub exports: Seq<Seq<char>>,
    /// Signatures.
    pub signatures: Seq<SignatureView>,
    /// Children.
    pub children: Seq<ChildView>,
    /// Completeness.
    pub complete: bool,
    /// Observed source bytes.
    pub observed: u64,
    /// Gaps.
    pub gaps: Seq<Seq<char>>,
    /// Retained child bytes.
    pub child_bytes: u64,
    /// Execution assessment.
    pub execution: ExecutionAssessment,
    /// Warnings.
    pub warnings: Seq<Seq<char>>,
    /// Limitations.
    pub limitations: Seq<Seq<char>>,
}

impl View for ExecutableReport {
    type V = ExecReportView;

    open spec fn view(&self) -> ExecReportView {
        ExecReportView {
            sha: self.source_sha256@,
            revision: self.source_revision_ref@,
            agreed: opt_view(self.agreed_media_type),
            class: self.executable_class,
            adapter_id: opt_view(self.adapter_id),
            metadata: exec_metadata_views(self.metadata@),
            sections: section_views(self.sections@),
            imports: string_views(self.imports@),
            exports: string_views(self.exports@),
            signatures: signature_views(self.signatures@),
            children: child_views(self.children@),
            complete: self.coverage.complete_claim,
            observed: self.coverage.observed_source_bytes,
            gaps: string_views(self.coverage.unknown_regions@),
            child_bytes: self.coverage.retained_child_bytes,
            execution: self.execution_assessment,
            warnings: string_views(self.warnings@),
            limitations: string_views(self.limitations@),
        }
    }
}

/// Failures that prevent a truthful static executable result.
#[derive(Debug)]
pub enum B05Error {
    /// Source must be an exact object revision.
    InvalidSourceRevision,
    /// One or more limits are zero.
    InvalidLimits,
    /// Adapter identity is empty.
    EmptyAdapterId,
    /// Adapter identity is duplicated.
    DuplicateAdapterId(String),
    /// More than one adapter claims the agreed type.
    AmbiguousAdapter(String),
    /// The adapter does not deny execution, network and external resource loading.
    UnsafeAdapterIsolation(String),
    /// The adapter failed mechanically.
    AdapterFailed(String),
    /// Observed source bytes exceed the source.
    InvalidObservedSourceBytes,
    /// A section lies outside the source.
    InvalidSectionExtent,
    /// Two sections share a name and offset.
    DuplicateSection,
    /// A required field is empty; the field is named.
    EmptyField(&'static str),
    /// An embedded child path is unsafe.
    UnsafeChildPath,
    /// Two embedded children share a path.
    DuplicateChildPath,
    /// An embedded child has no bytes.
    EmptyChild,
    /// Byte accounting overflowed.
    AccountingOverflow,
}

/// Abstract value of an executable failure.
pub ghost enum ExecFault {
    /// Not an object revision.
    InvalidSourceRevision,
    /// Zero limit.
    InvalidLimits,
    /// Empty adapter identity.
    EmptyAdapterId,
    /// Duplicate adapter identity.
    DuplicateAdapterId(Seq<char>),
    /// Ambiguous adapters.
    AmbiguousAdapter(Seq<char>),
    /// Unsafe isolation.
    UnsafeAdapterIsolation(Seq<char>),
    /// Adapter failure.
    AdapterFailed(Seq<char>),
    /// Observed bytes out of range.
    InvalidObservedSourceBytes,
    /// Section out of range.
    InvalidSectionExtent,
    /// Duplicate section.
    DuplicateSection,
    /// Empty field, named.
    EmptyField(Seq<char>),
    /// Unsafe child path.
    UnsafeChildPath,
    /// Duplicate child path.
    DuplicateChildPath,
    /// Empty child.
    EmptyChild,
    /// Accounting overflow.
    AccountingOverflow,
}

impl View for B05Error {
    type V = ExecFault;

    open spec fn view(&self) -> ExecFault {
        match self {
            B05Error::InvalidSourceRevision => ExecFault::InvalidSourceRevision,
            B05Error::InvalidLimits => ExecFault::InvalidLimits,
            B05Error::EmptyAdapterId => ExecFault::EmptyAdapterId,
            B05Error::DuplicateAdapterId(s) => ExecFault::DuplicateAdapterId(s@),
            B05Error::AmbiguousAdapter(s) => ExecFault::AmbiguousAdapter(s@),
            B05Error::UnsafeAdapterIsolation(s) => ExecFault::UnsafeAdapterIsolation(s@),
            B05Error::AdapterFailed(s) => ExecFault::AdapterFailed(s@),
            B05Error::InvalidObservedSourceBytes => ExecFault::InvalidObservedSourceBytes,
            B05Error::InvalidSectionExtent => ExecFault::InvalidSectionExtent,
            B05Error::DuplicateSection => ExecFault::DuplicateSection,
            B05Error::EmptyField(s) => ExecFault::EmptyField(s@),
            B05Error::UnsafeChildPath => ExecFault::UnsafeChildPath,
            B05Error::DuplicateChildPath => ExecFault::DuplicateChildPath,
            B05Error::EmptyChild => ExecFault::EmptyChild,
            B05Error::AccountingOverflow => ExecFault::AccountingOverflow,
        }
    }
}

/// The executable class of a normalized media type.
pub open spec fn executable_class_spec(mt: Seq<char>) -> Option<ExecutableClass> {
    if mt == "application/vnd.microsoft.portable-executable"@ || mt == "application/x-msdownload"@ || mt
        == "application/x-dosexec"@ {
        Some(ExecutableClass::Pe)
    } else if mt == "application/x-elf"@ || mt == "application/x-executable"@ || mt == "application/x-sharedlib"@ {
        Some(ExecutableClass::Elf)
    } else if mt == "application/x-mach-binary"@ || mt == "application/x-mach-o"@ {
        Some(ExecutableClass::MachO)
    } else if mt == "application/vnd.android.package-archive"@ {
        Some(ExecutableClass::Apk)
    } else if mt == "application/vnd.android.aab"@ || mt == "application/x-android-app-bundle"@ {
        Some(ExecutableClass::Aab)
    } else if mt == "application/vnd.android.dex"@ || mt == "application/x-dex"@ {
        Some(ExecutableClass::Dex)
    } else {
        None
    }
}

fn is_text(s: &String, lit: &str) -> (r: bool)
    ensures
        r == (s@ == lit@),
{
    let t = String::from_str(lit);
    *s == t
}

/// The executable class of a normalized media type.
pub fn executable_class_for_type(mt: &String) -> (r: Option<ExecutableClass>)
    ensures
        r == executable_class_spec(mt@),
{
    if is_text(mt, "application/vnd.microsoft.portable-executable") || is_text(mt, "application/x-msdownload")
        || is_text(mt, "application/x-dosexec") {
        Some(ExecutableClass::Pe)
    } else if is_text(mt, "application/x-elf") || is_text(mt, "application/x-executable") || is_text(
        mt,
        "application/x-sharedlib",
    ) {
        Some(ExecutableClass::Elf)
    } else if is_text(mt, "application/x-mach-binary") || is_text(mt, "application/x-mach-o") {
        Some(ExecutableClass::MachO)
    } else if is_text(mt, "application/vnd.android.package-archive") {
        Some(ExecutableClass::Apk)
    } else if is_text(mt, "application/vnd.android.aab") || is_text(mt, "application/x-android-app-bundle") {
        Some(ExecutableClass::Aab)
    } else if is_text(mt, "application/vnd.android.dex") || is_text(mt, "application/x-dex") {
        Some(ExecutableClass::Dex)
    } else {
        None
    }
}

/// A safe embedded child path once trimmed: non-empty, relative, without backslash or colon,
/// and with `/`-separated pieces that are non-empty, `.`-free and `..`-free.
pub open spec fn safe_child_path_spec(v: Seq<char>) -> bool {
    let t = trim_spec(v);
    &&& t.len() > 0
    &&& t[0] != '/'
    &&& t[0] != '\\'
    &&& !t.contains('\\')
    &&& !t.contains(':')
    &&& forall|k: int| 0 <= k < split_slash(t).len() ==> piece_ok(#[trigger] split_slash(t)[k])
}

/// Whether an embedded child path is safe.
pub fn safe_child_path(value: &str) -> (r: bool)
    ensures
        r == safe_child_path_spec(value@),
{
    let t = trim_chars(value);
    let n = t.len();
    if n == 0 || t[0] == '/' || t[0] == '\\' {
        return false;
    }
    let mut k: usize = 0;
    while k < n
        invariant
            k <= n == t@.len(),
            t@ == trim_spec(value@),
            n > 0 && t@[0] != '/' && t@[0] != '\\',
            forall|j: int| 0 <= j < k ==> t@[j] != '\\' && t@[j] != ':',
        decreases n - k,
    {
        if t[k] == '\\' || t[k] == ':' {
            assert(t@.contains(t@[k as int]));
            return false;
        }
        k = k + 1;
    }
    assert(!t@.contains('\\') && !t@.contains(':'));
    let pieces = slash_pieces(&t);
    let ghost ps = split_slash(t@);
    let mut j: usize = 0;
    while j < pieces.len()
        invariant
            j <= pieces@.len(),
            ps == pieces@.map_values(|p: Vec<char>| p@),
            ps == split_slash(t@),
            t@ == trim_spec(value@),
            n > 0 && n == t@.len() && t@[0] != '/' && t@[0] != '\\',
            !t@.contains('\\') && !t@.contains(':'),
            forall|i: int| 0 <= i < j ==> piece_ok(#[trigger] ps[i]),
        decreases pieces.len() - j,
    {
        assert(ps[j as int] == pieces@[j as int]@);
        if !piece_is_ok(&pieces[j]) {
            assert(!piece_ok(split_slash(t@)[j as int]));
            return false;
        }
        j = j + 1;
    }
    true
}


/// The first fault among the first `n` sections: empty name, extent outside the source, or a
/// repeated (name, offset).
pub open spec fn section_fault(ss: Seq<SectionView>, len: int, n: int) -> Option<ExecFault>
    decreases n,
{
    if n <= 0 {
        None
    } else {
        match section_fault(ss, len, n - 1) {
            Some(f) => Some(f),
            None => {
                let x = ss[n - 1];
                if trim_spec(x.0).len() == 0 {
                    Some(ExecFault::EmptyField("section name"@))
                } else if x.1 + x.2 > u64::MAX || x.1 + x.2 > len {
                    Some(ExecFault::InvalidSectionExtent)
                } else if exists|j: int| 0 <= j < n - 1 && (#[trigger] ss[j]).0 == x.0 && ss[j].1 == x.1 {
                    Some(ExecFault::DuplicateSection)
                } else {
                    None
                }
            },
        }
    }
}

/// The first fault among the first `n` emitted children: no bytes, empty media type, unsafe
/// path, or a repeated path.
pub open spec fn child_fault(cs: Seq<EmittedChildView>, n: int) -> Option<ExecFault>
    decreases n,
{
    if n <= 0 {
        None
    } else {
        match child_fault(cs, n - 1) {
            Some(f) => Some(f),
            None => {
                let c = cs[n - 1];
                if c.2.len() == 0 {
                    Some(ExecFault::EmptyChild)
                } else if normalize_type_spec(c.1).len() == 0 {
                    Some(ExecFault::EmptyField("child media type"@))
                } else if !safe_child_path_spec(c.0) {
                    Some(ExecFault::UnsafeChildPath)
                } else if exists|j: int| 0 <= j < n - 1 && (#[trigger] cs[j]).0 == c.0 {
                    Some(ExecFault::DuplicateChildPath)
                } else {
                    None
                }
            },
        }
    }
}

/// Metadata keys.
pub open spec fn keys_of(m: Seq<(Seq<char>, Seq<char>)>) -> Seq<Seq<char>> {
    m.map_values(|x: (Seq<char>, Seq<char>)| x.0)
}

/// Signature schemes.
pub open spec fn schemes_of(s: Seq<SignatureView>) -> Seq<Seq<char>> {
    s.map_values(|x: SignatureView| x.0)
}

/// Some name is blank once trimmed.
pub open spec fn any_blank(v: Seq<Seq<char>>) -> bool {
    exists|i: int| 0 <= i < v.len() && trim_spec(#[trigger] v[i]).len() == 0
}

/// The first fault in adapter output, in the order it is checked.
pub open spec fn exec_output_fault(o: ExecOutView, len: int) -> Option<ExecFault> {
    if o.observed > len {
        Some(ExecFault::InvalidObservedSourceBytes)
    } else if any_blank(keys_of(o.metadata)) {
        Some(ExecFault::EmptyField("metadata key"@))
    } else {
        match section_fault(o.sections, len, o.sections.len() as int) {
            Some(f) => Some(f),
            None => if any_blank(o.imports) {
                Some(ExecFault::EmptyField("import"@))
            } else if any_blank(o.exports) {
                Some(ExecFault::EmptyField("export"@))
            } else if any_blank(schemes_of(o.signatures)) {
                Some(ExecFault::EmptyField("signature scheme"@))
            } else {
                child_fault(o.children, o.children.len() as int)
            },
        }
    }
}

fn blank(s: &String) -> (r: bool)
    ensures
        r == (trim_spec(s@).len() == 0),
{
    trim_chars(s.as_str()).len() == 0
}

fn has_blank(values: &Vec<String>) -> (r: bool)
    ensures
        r == any_blank(string_views(values@)),
{
    let ghost v = string_views(values@);
    let mut i: usize = 0;
    while i < values.len()
        invariant
            i <= values@.len(),
            v == string_views(values@),
            forall|j: int| 0 <= j < i ==> trim_spec(#[trigger] v[j]).len() != 0,
        decreases values.len() - i,
    {
        assert(v[i as int] == values@[i as int]@);
        if blank(&values[i]) {
            return true;
        }
        i = i + 1;
    }
    false
}

proof fn lemma_section_fault_err(ss: Seq<SectionView>, len: int, i: int, k: int)
    requires
        0 <= i < k,
        section_fault(ss, len, i) is None,
        section_fault(ss, len, i + 1) is Some,
    ensures
        section_fault(ss, len, k) == section_fault(ss, len, i + 1),
    decreases k,
{
    if k > i + 1 {
        lemma_section_fault_err(ss, len, i, k - 1);
    }
}

proof fn lemma_child_fault_err(cs: Seq<EmittedChildView>, i: int, k: int)
    requires
        0 <= i < k,
        child_fault(cs, i) is None,
        child_fault(cs, i + 1) is Some,
    ensures
        child_fault(cs, k) == child_fault(cs, i + 1),
    decreases k,
{
    if k > i + 1 {
        lemma_child_fault_err(cs, i, k - 1);
    }
}

fn check_sections(sections: &Vec<ExecutableSection>, len: u64) -> (r: Result<(), B05Error>)
    ensures
        match section_fault(section_views(sections@), len as int, sections@.len() as int) {
            Some(f) => r matches Err(e) && e@ == f,
            None => r is Ok,
        },
{
    let ghost ss = section_views(sections@);
    let n = sections.len();
    let mut i: usize = 0;
    while i < n
        invariant
            i <= n == sections@.len(),
            ss == section_views(sections@),
            section_fault(ss, len as int, i as int) is None,
        decreases n - i,
    {
        let x = &sections[i];
        assert(ss[i as int] == (x.name@, x.offset, x.size, string_views(x.flags@), x.packed_or_unknown));
        if blank(&x.name) {
            proof {
                lemma_section_fault_err(ss, len as int, i as int, n as int);
            }
            return Err(B05Error::EmptyField("section name"));
        }
        let bad = match x.offset.checked_add(x.size) {
            Some(end) => end > len,
            None => true,
        };
        if bad {
            proof {
                lemma_section_fault_err(ss, len as int, i as int, n as int);
            }
            return Err(B05Error::InvalidSectionExtent);
        }
        let mut j: usize = 0;
        while j < i
            invariant
                j <= i < n == sections@.len(),
                ss == section_views(sections@),
                section_fault(ss, len as int, i as int) is None,
                trim_spec(ss[i as int].0).len() != 0,
                ss[i as int].1 + ss[i as int].2 <= u64::MAX,
                ss[i as int].1 + ss[i as int].2 <= len,
                forall|q: int| 0 <= q < j ==> !((#[trigger] ss[q]).0 == ss[i as int].0 && ss[q].1 == ss[i as int].1),
            decreases i - j,
        {
            assert(ss[j as int].0 == sections@[j as int].name@ && ss[j as int].1 == sections@[j as int].offset);
            if sections[j].name == sections[i].name && sections[j].offset == sections[i].offset {
                assert(ss[j as int].0 == ss[i as int].0 && ss[j as int].1 == ss[i as int].1);
                proof {
                    lemma_section_fault_err(ss, len as int, i as int, n as int);
                }
                return Err(B05Error::DuplicateSection);
            }
            j = j + 1;
        }
        i = i + 1;
    }
    Ok(())
}

fn check_children(children: &Vec<AdapterEmbeddedChild>) -> (r: Result<(), B05Error>)
    ensures
        match child_fault(emitted_child_views(children@), children@.len() as int) {
            Some(f) => r matches Err(e) && e@ == f,
            None => r is Ok,
        },
{
    let ghost cs = emitted_child_views(children@);
    let n = children.len();
    let mut i: usize = 0;
    while i < n
        invariant
            i <= n == children@.len(),
            cs == emitted_child_views(children@),
            child_fault(cs, i as int) is None,
        decreases n - i,
    {
        let c = &children[i];
        assert(cs[i as int] == (c.logical_path@, c.media_type@, c.bytes@));
        if c.bytes.len() == 0 {
            proof {
                lemma_child_fault_err(cs, i as int, n as int);
            }
            return Err(B05Error::EmptyChild);
        }
        if normalize_type(c.media_type.as_str()).as_str().unicode_len() == 0 {
            proof {
                lemma_child_fault_err(cs, i as int, n as int);
            }
            return Err(B05Error::EmptyField("child media type"));
        }
        if !safe_child_path(c.logical_path.as_str()) {
            proof {
                lemma_child_fault_err(cs, i as int, n as int);
            }
            return Err(B05Error::UnsafeChildPath);
        }
        let mut j: usize = 0;
        while j < i
            invariant
                j <= i < n == children@.len(),
                cs == emitted_child_views(children@),
                child_fault(cs, i as int) is None,
                cs[i as int].2.len() != 0,
                normalize_type_spec(cs[i as int].1).len() != 0,
                safe_child_path_spec(cs[i as int].0),
                forall|q: int| 0 <= q < j ==> (#[trigger] cs[q]).0 != cs[i as int].0,
            decreases i - j,
        {
            assert(cs[j as int].0 == children@[j as int].logical_path@);
            if children[j].logical_path == children[i].logical_path {
                assert(cs[j as int].0 == cs[i as int].0);
                proof {
                    lemma_child_fault_err(cs, i as int, n as int);
                }
                return Err(B05Error::DuplicateChildPath);
            }
            j = j + 1;
        }
        i = i + 1;
    }
    Ok(())
}

/// Validate untrusted adapter output against the source length.
pub fn validate_executable_output(output: &AdapterExecutable, source_len: usize) -> (r: Result<(), B05Error>)
    ensures
        match exec_output_fault(output@, source_len as int) {
            Some(f) => r matches Err(e) && e@ == f,
            None => r is Ok,
        },
{
    let len = source_len as u64;
    if output.observed_source_bytes > len {
        return Err(B05Error::InvalidObservedSourceBytes);
    }
    let ghost mv = exec_metadata_views(output.metadata@);
    let mut i: usize = 0;
    while i < output.metadata.len()
        invariant
            i <= output.metadata@.len(),
            mv == exec_metadata_views(output.metadata@),
            output@.metadata == mv,
            output.observed_source_bytes <= len,
            len == source_len as u64,
            forall|j: int| 0 <= j < i ==> trim_spec((#[trigger] mv[j]).0).len() != 0,
        decreases output.metadata.len() - i,
    {
        assert(mv[i as int].0 == output.metadata@[i as int].key@);
        if blank(&output.metadata[i].key) {
            assert(keys_of(mv)[i as int] == mv[i as int].0);
            return Err(B05Error::EmptyField("metadata key"));
        }
        i = i + 1;
    }
    assert(!any_blank(keys_of(mv))) by {
        if any_blank(keys_of(mv)) {
            let w = choose|w: int| 0 <= w < keys_of(mv).len() && trim_spec(#[trigger] keys_of(mv)[w]).len() == 0;
            assert(trim_spec(mv[w].0).len() != 0);
        }
    }
    if let Err(e) = check_sections(&output.sections, len) {
        return Err(e);
    }
    if has_blank(&output.imports) {
        return Err(B05Error::EmptyField("import"));
    }
    if has_blank(&output.exports) {
        return Err(B05Error::EmptyField("export"));
    }
    let ghost sv = signature_views(output.signatures@);
    let mut k: usize = 0;
    while k < output.signatures.len()
        invariant
            k <= output.signatures@.len(),
            sv == signature_views(output.signatures@),
            output@.signatures == sv,
            output.observed_source_bytes <= len,
            len == source_len as u64,
            !any_blank(keys_of(output@.metadata)),
            section_fault(output@.sections, len as int, output@.sections.len() as int) is None,
            !any_blank(output@.imports),
            !any_blank(output@.exports),
            forall|j: int| 0 <= j < k ==> trim_spec((#[trigger] sv[j]).0).len() != 0,
        decreases output.signatures.len() - k,
    {
        assert(sv[k as int].0 == output.signatures@[k as int].scheme@);
        if blank(&output.signatures[k].scheme) {
            assert(schemes_of(sv)[k as int] == sv[k as int].0);
            return Err(B05Error::EmptyField("signature scheme"));
        }
        k = k + 1;
    }
    assert(!any_blank(schemes_of(sv))) by {
        if any_blank(schemes_of(sv)) {
            let w = choose|w: int| 0 <= w < schemes_of(sv).len() && trim_spec(#[trigger] schemes_of(sv)[w]).len() == 0;
            assert(trim_spec(sv[w].0).len() != 0);
        }
    }
    check_children(&output.children)
}

} // verus!
