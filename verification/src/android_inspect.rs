//! Source-bound Android inspection reports: artifact-family dispatch, exact component and
//! logical-partition materialization, and structural comparison.
use vstd::prelude::*;
use crate::android::{
    components_backed_by,
    android_context_fault, android_limits_valid, avb_magic, boot_magic, boot_spec, component_views,
    device_views, dtbo_spec, group_views, inspect_boot_layout, inspect_dtbo_layout,
    inspect_vbmeta_layout, inspect_vendor_boot_layout, is_boot_framing, is_ota_framing,
    is_vbmeta_framing, is_vendor_boot_framing, ota_magic, partition_views, starts_with,
    validate_android_context, validate_android_limits, vbmeta_limitation, vbmeta_spec,
    vendor_boot_magic, vendor_boot_spec, AndroidArtifactKind, AndroidAssessment,
    AndroidBlockDevice, AndroidComponent, AndroidComponentView, AndroidContext,
    AndroidDynamicGroup, AndroidDynamicPartition, AndroidInspectRequest,
    AndroidIntegrityAssessment, AndroidLimits, AndroidTrustAssessment, BlockDeviceView,
    C03Error, DynamicGroupView, DynamicPartitionView, DTBO_MAGIC,
};
use crate::android_ota::{
    layout_agrees, no_provider_note, ota_answer_from, ota_trust_note, OtaLayout, inspect_ota_layout, manifest_view, ota_spec, AndroidOtaManifest, OtaManifestObservation,
    OtaManifestProvider, OtaManifestView,
};
use crate::android_super::{inspect_super_layout, super_spec, LP_GEOMETRY_MAGIC};
use crate::bytes::{be_value, le_value, read_be_u32, read_le_u32};
use crate::digest::{sha256_hex, sha256_hex_of};
use crate::identity::EntityRef;
use crate::partition_map::{push_string, string_views};
use crate::text::owned;

verus! {

/// Source-bound Android inspection report.
#[derive(Debug)]
pub struct AndroidReport {
    /// Exact source object revision.
    pub source_revision_ref: EntityRef,
    /// Exact whole-source SHA-256.
    pub source_sha256: String,
    /// Exact source byte size.
    pub source_size: u64,
    /// Artifact family.
    pub kind: AndroidArtifactKind,
    /// Structural truth status.
    pub assessment: AndroidAssessment,
    /// Mechanical integrity evidence.
    pub integrity: AndroidIntegrityAssessment,
    /// Trust state kept separate from parsing.
    pub trust: AndroidTrustAssessment,
    /// Exact source-backed components.
    pub components: Vec<AndroidComponent>,
    /// Dynamic logical partitions for super images.
    pub dynamic_partitions: Vec<AndroidDynamicPartition>,
    /// Dynamic groups for super images.
    pub dynamic_groups: Vec<AndroidDynamicGroup>,
    /// Block-device records for super images.
    pub block_devices: Vec<AndroidBlockDevice>,
    /// Validated OTA manifest semantics when a provider was supplied.
    pub ota_manifest: Option<AndroidOtaManifest>,
    /// Non-fatal warnings.
    pub warnings: Vec<String>,
    /// Unsupported, ambiguous or incomplete boundaries.
    pub limitations: Vec<String>,
}

/// What an inspection establishes about an artifact, apart from its source binding.
pub ghost struct AndroidLayoutView {
    /// Artifact family.
    pub kind: AndroidArtifactKind,
    /// Structural truth status.
    pub assessment: AndroidAssessment,
    /// Integrity evidence.
    pub integrity: AndroidIntegrityAssessment,
    /// Components.
    pub components: Seq<AndroidComponentView>,
    /// Dynamic partitions.
    pub dynamic_partitions: Seq<DynamicPartitionView>,
    /// Dynamic groups.
    pub dynamic_groups: Seq<DynamicGroupView>,
    /// Block devices.
    pub block_devices: Seq<BlockDeviceView>,
    /// OTA manifest projection.
    pub ota_manifest: Option<OtaManifestView>,
    /// Limitations.
    pub limitations: Seq<Seq<char>>,
}

/// Abstract value of a report.
pub ghost struct AndroidReportView {
    /// Source revision reference.
    pub source_revision_ref: (Seq<char>, Seq<char>),
    /// Source digest text.
    pub source_sha256: Seq<char>,
    /// Source size.
    pub source_size: u64,
    /// Trust state.
    pub trust: AndroidTrustAssessment,
    /// Warnings.
    pub warnings: Seq<Seq<char>>,
    /// Structural findings.
    pub layout: AndroidLayoutView,
}

impl View for AndroidReport {
    type V = AndroidReportView;

    open spec fn view(&self) -> AndroidReportView {
        AndroidReportView {
            source_revision_ref: self.source_revision_ref@,
            source_sha256: self.source_sha256@,
            source_size: self.source_size,
            trust: self.trust,
            warnings: string_views(self.warnings@),
            layout: AndroidLayoutView {
                kind: self.kind,
                assessment: self.assessment,
                integrity: self.integrity,
                components: component_views(self.components@),
                dynamic_partitions: partition_views(self.dynamic_partitions@),
                dynamic_groups: group_views(self.dynamic_groups@),
                block_devices: device_views(self.block_devices@),
                ota_manifest: manifest_view(self.ota_manifest),
                limitations: string_views(self.limitations@),
            },
        }
    }
}

/// A layout with only components and limitations.
pub open spec fn plain_layout(
    kind: AndroidArtifactKind,
    assessment: AndroidAssessment,
    components: Seq<AndroidComponentView>,
    limitations: Seq<Seq<char>>,
) -> AndroidLayoutView {
    AndroidLayoutView {
        kind,
        assessment,
        integrity: AndroidIntegrityAssessment::StructureChecked,
        components,
        dynamic_partitions: Seq::empty(),
        dynamic_groups: Seq::empty(),
        block_devices: Seq::empty(),
        ota_manifest: None,
        limitations,
    }
}

/// Complete when nothing is limited, partial otherwise.
pub open spec fn assessment_for(limitations: Seq<Seq<char>>) -> AndroidAssessment {
    if limitations.len() == 0 {
        AndroidAssessment::Complete
    } else {
        AndroidAssessment::Partial
    }
}

/// The liblp geometry magic is present at the primary or backup geometry offset.
pub open spec fn looks_like_super_spec(src: Seq<u8>) -> bool {
    (src.len() >= 4100 && le_value(src, 4096, 4) == LP_GEOMETRY_MAGIC) || (src.len() >= 8196 && le_value(
        src,
        8192,
        4,
    ) == LP_GEOMETRY_MAGIC)
}

/// Whether the liblp geometry magic is present at either geometry offset.
pub fn looks_like_super(source: &[u8]) -> (r: bool)
    ensures
        r == looks_like_super_spec(source@),
{
    let n = source.len();
    (n >= 4100 && read_le_u32(source, 4096).unwrap() == LP_GEOMETRY_MAGIC) || (n >= 8196 && read_le_u32(
        source,
        8192,
    ).unwrap() == LP_GEOMETRY_MAGIC)
}

/// A declared family, if any, must be `actual`.
pub open spec fn declared_compatible(declared: Option<AndroidArtifactKind>, actual: AndroidArtifactKind) -> bool {
    declared is None || declared == Some(actual)
}

/// Reject a declaration that names another family than the framing found.
pub fn require_declared_compatible(declared: Option<AndroidArtifactKind>, actual: AndroidArtifactKind) -> (r: Result<
    (),
    C03Error,
>)
    ensures
        r is Ok <==> declared_compatible(declared, actual),
        r matches Err(e) ==> e == C03Error::DeclaredKindMismatch,
{
    match declared {
        Some(d) => if d != actual {
            Err(C03Error::DeclaredKindMismatch)
        } else {
            Ok(())
        },
        None => Ok(()),
    }
}

/// The structural findings for `src`, given the provider's alias and answer for OTA payloads.
pub open spec fn android_layout_spec(
    src: Seq<u8>,
    request: AndroidInspectRequest,
    limits: AndroidLimits,
    answer: Option<(Seq<char>, Result<OtaManifestObservation, String>)>,
) -> Result<AndroidLayoutView, C03Error> {
    let declared = request.declared_kind;
    if starts_with(src, boot_magic()) {
        match declared {
            None => Err(C03Error::BootRoleRequired),
            Some(kind) => if kind != AndroidArtifactKind::Boot && kind != AndroidArtifactKind::InitBoot {
                Err(C03Error::DeclaredKindMismatch)
            } else {
                match boot_spec(src, kind, limits) {
                    Err(e) => Err(e),
                    Ok((c, l)) => Ok(plain_layout(kind, assessment_for(l), c, l)),
                }
            },
        }
    } else if starts_with(src, vendor_boot_magic()) {
        if !declared_compatible(declared, AndroidArtifactKind::VendorBoot) {
            Err(C03Error::DeclaredKindMismatch)
        } else {
            match vendor_boot_spec(src, limits) {
                Err(e) => Err(e),
                Ok(c) => Ok(plain_layout(AndroidArtifactKind::VendorBoot, AndroidAssessment::Complete, c, Seq::empty())),
            }
        }
    } else if src.len() >= 4 && be_value(src, 0, 4) == DTBO_MAGIC {
        if !declared_compatible(declared, AndroidArtifactKind::Dtbo) {
            Err(C03Error::DeclaredKindMismatch)
        } else {
            match dtbo_spec(src, limits) {
                Err(e) => Err(e),
                Ok(c) => Ok(plain_layout(AndroidArtifactKind::Dtbo, AndroidAssessment::Complete, c, Seq::empty())),
            }
        }
    } else if starts_with(src, avb_magic()) {
        if !declared_compatible(declared, AndroidArtifactKind::Vbmeta) {
            Err(C03Error::DeclaredKindMismatch)
        } else {
            match vbmeta_spec(src, limits) {
                Err(e) => Err(e),
                Ok(c) => Ok(plain_layout(AndroidArtifactKind::Vbmeta, AndroidAssessment::Partial, c, seq![vbmeta_limitation()])),
            }
        }
    } else if looks_like_super_spec(src) {
        if !declared_compatible(declared, AndroidArtifactKind::Super) {
            Err(C03Error::DeclaredKindMismatch)
        } else {
            match super_spec(src, limits) {
                Err(e) => Err(e),
                Ok(st) => Ok(AndroidLayoutView {
                    kind: AndroidArtifactKind::Super,
                    assessment: assessment_for(st.limitations),
                    integrity: AndroidIntegrityAssessment::ChecksumsVerified,
                    components: st.components,
                    dynamic_partitions: st.partitions,
                    dynamic_groups: st.groups,
                    block_devices: st.block_devices,
                    ota_manifest: None,
                    limitations: st.limitations,
                }),
            }
        }
    } else if starts_with(src, ota_magic()) {
        if !declared_compatible(declared, AndroidArtifactKind::OtaPayload) {
            Err(C03Error::DeclaredKindMismatch)
        } else {
            match ota_spec(src, limits, answer) {
                Err(e) => Err(e),
                Ok((c, m, l)) => Ok(AndroidLayoutView {
                    kind: AndroidArtifactKind::OtaPayload,
                    assessment: if m is Some && l.len() == 1 {
                        AndroidAssessment::Complete
                    } else {
                        AndroidAssessment::Partial
                    },
                    integrity: AndroidIntegrityAssessment::StructureChecked,
                    components: c,
                    dynamic_partitions: Seq::empty(),
                    dynamic_groups: Seq::empty(),
                    block_devices: Seq::empty(),
                    ota_manifest: m,
                    limitations: l,
                }),
            }
        }
    } else {
        Err(C03Error::UnsupportedArtifact)
    }
}

/// Every component of an inspected layout is backed by the source: its range lies inside
/// `src` and its digest is that of the bytes in that range.
pub proof fn lemma_layout_backed(
    src: Seq<u8>,
    request: AndroidInspectRequest,
    limits: AndroidLimits,
    answer: Option<(Seq<char>, Result<OtaManifestObservation, String>)>,
)
    requires
        src.len() <= u64::MAX,
    ensures
        android_layout_spec(src, request, limits, answer) matches Ok(l) ==> components_backed_by(src, l.components),
{
    if let Some(kind) = request.declared_kind {
        crate::android::lemma_boot_backed(src, kind, limits);
    }
    crate::android::lemma_vendor_boot_backed(src, limits);
    crate::android::lemma_dtbo_backed(src, limits);
    crate::android::lemma_vbmeta_backed(src, limits);
    crate::android_super::lemma_super_backed(src, limits);
    crate::android_ota::lemma_ota_backed(src, limits, answer);
}

/// Whether inspecting `src` under `request` reaches the OTA payload decoder.
pub open spec fn layout_reaches_ota(src: Seq<u8>, request: AndroidInspectRequest) -> bool {
    &&& !starts_with(src, boot_magic())
    &&& !starts_with(src, vendor_boot_magic())
    &&& !(src.len() >= 4 && be_value(src, 0, 4) == DTBO_MAGIC)
    &&& !starts_with(src, avb_magic())
    &&& !looks_like_super_spec(src)
    &&& starts_with(src, ota_magic())
    &&& declared_compatible(request.declared_kind, AndroidArtifactKind::OtaPayload)
}

/// The report for `src` under `context`, given the provider's alias and answer for OTA payloads.
pub open spec fn android_report_spec(
    src: Seq<u8>,
    context: AndroidContext,
    request: AndroidInspectRequest,
    limits: AndroidLimits,
    answer: Option<(Seq<char>, Result<OtaManifestObservation, String>)>,
) -> Result<AndroidReportView, C03Error> {
    match android_context_fault(context) {
        Some(e) => Err(e),
        None => if !android_limits_valid(limits) {
            Err(C03Error::InvalidLimits)
        } else if src.len() > limits.max_source_bytes {
            Err(C03Error::SourceTooLarge)
        } else {
            match android_layout_spec(src, request, limits, answer) {
                Err(e) => Err(e),
                Ok(l) => Ok(AndroidReportView {
                    source_revision_ref: context.source_revision_ref@,
                    source_sha256: sha256_hex_of(src),
                    source_size: src.len() as u64,
                    trust: AndroidTrustAssessment::NotEstablished,
                    warnings: Seq::empty(),
                    layout: l,
                }),
            }
        },
    }
}

/// Whether an inspection result agrees with an expected report.
pub open spec fn report_agrees(r: Result<AndroidReport, C03Error>, expected: Result<AndroidReportView, C03Error>) -> bool {
    match r {
        Ok(rep) => expected == Ok::<AndroidReportView, C03Error>(rep@),
        Err(e) => expected == Err::<AndroidReportView, C03Error>(e),
    }
}

/// Structural findings of one inspection.
#[derive(Debug)]
pub struct AndroidLayout {
    /// Artifact family.
    pub kind: AndroidArtifactKind,
    /// Structural truth status.
    pub assessment: AndroidAssessment,
    /// Integrity evidence.
    pub integrity: AndroidIntegrityAssessment,
    /// Components.
    pub components: Vec<AndroidComponent>,
    /// Dynamic partitions.
    pub dynamic_partitions: Vec<AndroidDynamicPartition>,
    /// Dynamic groups.
    pub dynamic_groups: Vec<AndroidDynamicGroup>,
    /// Block devices.
    pub block_devices: Vec<AndroidBlockDevice>,
    /// OTA manifest projection.
    pub ota_manifest: Option<AndroidOtaManifest>,
    /// Limitations.
    pub limitations: Vec<String>,
}

impl View for AndroidLayout {
    type V = AndroidLayoutView;

    open spec fn view(&self) -> AndroidLayoutView {
        AndroidLayoutView {
            kind: self.kind,
            assessment: self.assessment,
            integrity: self.integrity,
            components: component_views(self.components@),
            dynamic_partitions: partition_views(self.dynamic_partitions@),
            dynamic_groups: group_views(self.dynamic_groups@),
            block_devices: device_views(self.block_devices@),
            ota_manifest: manifest_view(self.ota_manifest),
            limitations: string_views(self.limitations@),
        }
    }
}

/// Whether a layout result agrees with an expected outcome.
pub open spec fn android_layout_agrees(r: Result<AndroidLayout, C03Error>, expected: Result<AndroidLayoutView, C03Error>) -> bool {
    match r {
        Ok(l) => expected == Ok::<AndroidLayoutView, C03Error>(l@),
        Err(e) => expected == Err::<AndroidLayoutView, C03Error>(e),
    }
}

fn plain(kind: AndroidArtifactKind, assessment: AndroidAssessment, components: Vec<AndroidComponent>, limitations: Vec<String>) -> (r:
    AndroidLayout)
    ensures
        r@ == plain_layout(kind, assessment, component_views(components@), string_views(limitations@)),
{
    let dynamic_partitions: Vec<AndroidDynamicPartition> = Vec::new();
    let dynamic_groups: Vec<AndroidDynamicGroup> = Vec::new();
    let block_devices: Vec<AndroidBlockDevice> = Vec::new();
    assert(partition_views(dynamic_partitions@) =~= Seq::<DynamicPartitionView>::empty());
    assert(group_views(dynamic_groups@) =~= Seq::<DynamicGroupView>::empty());
    assert(device_views(block_devices@) =~= Seq::<BlockDeviceView>::empty());
    AndroidLayout {
        kind,
        assessment,
        integrity: AndroidIntegrityAssessment::StructureChecked,
        components,
        dynamic_partitions,
        dynamic_groups,
        block_devices,
        ota_manifest: None,
        limitations,
    }
}

fn boot_branch(source: &[u8], declared: Option<AndroidArtifactKind>, limits: AndroidLimits) -> (r: Result<AndroidLayout, C03Error>)
    requires
        starts_with(source@, boot_magic()),
    ensures
        forall|answer: Option<(Seq<char>, Result<OtaManifestObservation, String>)>| android_layout_agrees(r,
            #[trigger] android_layout_spec(source@, AndroidInspectRequest { declared_kind: declared }, limits, answer)),
{
    let kind = match declared {
        None => {
            return Err(C03Error::BootRoleRequired);
        },
        Some(k) => k,
    };
    if kind != AndroidArtifactKind::Boot && kind != AndroidArtifactKind::InitBoot {
        return Err(C03Error::DeclaredKindMismatch);
    }
    let (components, limitations) = inspect_boot_layout(source, kind, limits)?;
    let assessment = if limitations.len() == 0 { AndroidAssessment::Complete } else { AndroidAssessment::Partial };
    Ok(plain(kind, assessment, components, limitations))
}

fn vendor_branch(source: &[u8], declared: Option<AndroidArtifactKind>, limits: AndroidLimits) -> (r: Result<AndroidLayout, C03Error>)
    requires
        !starts_with(source@, boot_magic()),
        starts_with(source@, vendor_boot_magic()),
    ensures
        forall|answer: Option<(Seq<char>, Result<OtaManifestObservation, String>)>| android_layout_agrees(r,
            #[trigger] android_layout_spec(source@, AndroidInspectRequest { declared_kind: declared }, limits, answer)),
{
    require_declared_compatible(declared, AndroidArtifactKind::VendorBoot)?;
    let components = inspect_vendor_boot_layout(source, limits)?;
    let limitations: Vec<String> = Vec::new();
    assert(string_views(limitations@) =~= Seq::<Seq<char>>::empty());
    Ok(plain(AndroidArtifactKind::VendorBoot, AndroidAssessment::Complete, components, limitations))
}

fn dtbo_branch(source: &[u8], declared: Option<AndroidArtifactKind>, limits: AndroidLimits) -> (r: Result<AndroidLayout, C03Error>)
    requires
        !starts_with(source@, boot_magic()),
        !starts_with(source@, vendor_boot_magic()),
        source@.len() >= 4 && be_value(source@, 0, 4) == DTBO_MAGIC,
    ensures
        forall|answer: Option<(Seq<char>, Result<OtaManifestObservation, String>)>| android_layout_agrees(r,
            #[trigger] android_layout_spec(source@, AndroidInspectRequest { declared_kind: declared }, limits, answer)),
{
    require_declared_compatible(declared, AndroidArtifactKind::Dtbo)?;
    let components = inspect_dtbo_layout(source, limits)?;
    let limitations: Vec<String> = Vec::new();
    assert(string_views(limitations@) =~= Seq::<Seq<char>>::empty());
    Ok(plain(AndroidArtifactKind::Dtbo, AndroidAssessment::Complete, components, limitations))
}

fn vbmeta_branch(source: &[u8], declared: Option<AndroidArtifactKind>, limits: AndroidLimits) -> (r: Result<AndroidLayout, C03Error>)
    requires
        !starts_with(source@, boot_magic()),
        !starts_with(source@, vendor_boot_magic()),
        !(source@.len() >= 4 && be_value(source@, 0, 4) == DTBO_MAGIC),
        starts_with(source@, avb_magic()),
    ensures
        forall|answer: Option<(Seq<char>, Result<OtaManifestObservation, String>)>| android_layout_agrees(r,
            #[trigger] android_layout_spec(source@, AndroidInspectRequest { declared_kind: declared }, limits, answer)),
{
    require_declared_compatible(declared, AndroidArtifactKind::Vbmeta)?;
    let components = inspect_vbmeta_layout(source, limits)?;
    let mut limitations: Vec<String> = Vec::new();
    push_string(&mut limitations, owned("vbmeta structure parsed; AVB trust requires independent verification with a known-good key"));
    assert(string_views(limitations@) =~= seq![vbmeta_limitation()]);
    Ok(plain(AndroidArtifactKind::Vbmeta, AndroidAssessment::Partial, components, limitations))
}

fn super_branch(source: &[u8], declared: Option<AndroidArtifactKind>, limits: AndroidLimits) -> (r: Result<AndroidLayout, C03Error>)
    requires
        !starts_with(source@, boot_magic()),
        !starts_with(source@, vendor_boot_magic()),
        !(source@.len() >= 4 && be_value(source@, 0, 4) == DTBO_MAGIC),
        !starts_with(source@, avb_magic()),
        looks_like_super_spec(source@),
    ensures
        forall|answer: Option<(Seq<char>, Result<OtaManifestObservation, String>)>| android_layout_agrees(r,
            #[trigger] android_layout_spec(source@, AndroidInspectRequest { declared_kind: declared }, limits, answer)),
{
    require_declared_compatible(declared, AndroidArtifactKind::Super)?;
    let layout = inspect_super_layout(source, limits)?;
    let assessment = if layout.limitations.len() == 0 { AndroidAssessment::Complete } else { AndroidAssessment::Partial };
    Ok(AndroidLayout {
        kind: AndroidArtifactKind::Super,
        assessment,
        integrity: AndroidIntegrityAssessment::ChecksumsVerified,
        components: layout.components,
        dynamic_partitions: layout.partitions,
        dynamic_groups: layout.groups,
        block_devices: layout.block_devices,
        ota_manifest: None,
        limitations: layout.limitations,
    })
}

fn from_ota(l: OtaLayout) -> (r: AndroidLayout)
    ensures
        r@ == (AndroidLayoutView {
            kind: AndroidArtifactKind::OtaPayload,
            assessment: if l@.1 is Some && l@.2.len() == 1 {
                AndroidAssessment::Complete
            } else {
                AndroidAssessment::Partial
            },
            integrity: AndroidIntegrityAssessment::StructureChecked,
            components: l@.0,
            dynamic_partitions: Seq::empty(),
            dynamic_groups: Seq::empty(),
            block_devices: Seq::empty(),
            ota_manifest: l@.1,
            limitations: l@.2,
        }),
{
    let assessment = if l.manifest.is_some() && l.limitations.len() == 1 {
        AndroidAssessment::Complete
    } else {
        AndroidAssessment::Partial
    };
    let dynamic_partitions: Vec<AndroidDynamicPartition> = Vec::new();
    let dynamic_groups: Vec<AndroidDynamicGroup> = Vec::new();
    let block_devices: Vec<AndroidBlockDevice> = Vec::new();
    assert(partition_views(dynamic_partitions@) =~= Seq::<DynamicPartitionView>::empty());
    assert(group_views(dynamic_groups@) =~= Seq::<DynamicGroupView>::empty());
    assert(device_views(block_devices@) =~= Seq::<BlockDeviceView>::empty());
    AndroidLayout {
        kind: AndroidArtifactKind::OtaPayload,
        assessment,
        integrity: AndroidIntegrityAssessment::StructureChecked,
        components: l.components,
        dynamic_partitions,
        dynamic_groups,
        block_devices,
        ota_manifest: l.manifest,
        limitations: l.limitations,
    }
}

/// Structural findings for one Android artifact, dispatched on its framing.
///
/// Without a provider the result is exactly `android_layout_spec(.., None)`; with one, it is
/// `android_layout_spec` of the alias and answer that the provider gave, whatever they were.
#[verifier::rlimit(30)]
pub fn android_layout<P: OtaManifestProvider>(
    source: &[u8],
    request: AndroidInspectRequest,
    limits: AndroidLimits,
    ota_provider: Option<&P>,
) -> (r: Result<AndroidLayout, C03Error>)
    ensures
        ota_provider is None ==> android_layout_agrees(r, android_layout_spec(source@, request, limits, None)),
        ota_provider is Some ==> exists|answer: (Seq<char>, Result<OtaManifestObservation, String>)|
            (layout_reaches_ota(source@, request) ==> ota_answer_from(ota_provider->0, source@, limits, answer))
                && android_layout_agrees(r, #[trigger] android_layout_spec(source@, request, limits, Some(answer))),
{
    let declared = request.declared_kind;
    assert(request == AndroidInspectRequest { declared_kind: declared });
    let ghost some_answer = (Seq::<char>::empty(), Err::<OtaManifestObservation, String>(vstd::pervasive::arbitrary()));
    let r = if is_boot_framing(source) {
        boot_branch(source, declared, limits)
    } else if is_vendor_boot_framing(source) {
        vendor_branch(source, declared, limits)
    } else if source.len() >= 4 && read_be_u32(source, 0).unwrap() == DTBO_MAGIC {
        dtbo_branch(source, declared, limits)
    } else if is_vbmeta_framing(source) {
        vbmeta_branch(source, declared, limits)
    } else if looks_like_super(source) {
        super_branch(source, declared, limits)
    } else if is_ota_framing(source) {
        if let Err(e) = require_declared_compatible(declared, AndroidArtifactKind::OtaPayload) {
            assert(android_layout_agrees(Err(e), android_layout_spec(source@, request, limits, Some(some_answer))));
            return Err(e);
        }
        let l = inspect_ota_layout(source, limits, ota_provider);
        return match l {
            Err(e) => {
                proof {
                    if ota_provider is Some {
                        let a = choose|answer: (Seq<char>, Result<OtaManifestObservation, String>)|
                            ota_answer_from(ota_provider->0, source@, limits, answer) && layout_agrees(
                                Err(e),
                                #[trigger] ota_spec(source@, limits, Some(answer)),
                            );
                        assert(android_layout_agrees(Err(e), android_layout_spec(source@, request, limits, Some(a))));
                    }
                }
                Err(e)
            },
            Ok(x) => {
                let ghost xv = x@;
                let out = from_ota(x);
                proof {
                    if ota_provider is Some {
                        let a = choose|answer: (Seq<char>, Result<OtaManifestObservation, String>)|
                            ota_answer_from(ota_provider->0, source@, limits, answer) && layout_agrees(
                                Ok(x),
                                #[trigger] ota_spec(source@, limits, Some(answer)),
                            );
                        assert(ota_spec(source@, limits, Some(a)) == Ok::<(Seq<AndroidComponentView>, Option<OtaManifestView>, Seq<Seq<char>>), C03Error>(xv));
                        assert(android_layout_agrees(Ok(out), android_layout_spec(source@, request, limits, Some(a))));
                    }
                }
                Ok(out)
            },
        };
    } else {
        Err(C03Error::UnsupportedArtifact)
    };
    assert(android_layout_agrees(r, android_layout_spec(source@, request, limits, Some(some_answer))));
    r
}

fn report_from(context: &AndroidContext, source: &[u8], l: AndroidLayout) -> (r: AndroidReport)
    ensures
        r@ == (AndroidReportView {
            source_revision_ref: context.source_revision_ref@,
            source_sha256: sha256_hex_of(source@),
            source_size: source@.len() as u64,
            trust: AndroidTrustAssessment::NotEstablished,
            warnings: Seq::empty(),
            layout: l@,
        }),
{
    let warnings: Vec<String> = Vec::new();
    assert(string_views(warnings@) =~= Seq::<Seq<char>>::empty());
    AndroidReport {
        source_revision_ref: context.source_revision_ref.duplicate(),
        source_sha256: sha256_hex(source),
        source_size: source.len() as u64,
        kind: l.kind,
        assessment: l.assessment,
        integrity: l.integrity,
        trust: AndroidTrustAssessment::NotEstablished,
        components: l.components,
        dynamic_partitions: l.dynamic_partitions,
        dynamic_groups: l.dynamic_groups,
        block_devices: l.block_devices,
        ota_manifest: l.ota_manifest,
        warnings,
        limitations: l.limitations,
    }
}

/// Inspect one immutable Android boot, init_boot, vendor_boot, DTBO, vbmeta, super or OTA
/// artifact.
///
/// Malformed framing, bounds, checksums, provider output and resource violations fail closed.
/// Without an OTA provider the result is exactly `android_report_spec(.., None)`; with one, it is
/// `android_report_spec` of the alias and answer that the provider gave, whatever they were.
pub fn inspect_android_artifact<P: OtaManifestProvider>(
    source: &[u8],
    context: &AndroidContext,
    request: AndroidInspectRequest,
    limits: AndroidLimits,
    ota_provider: Option<&P>,
) -> (r: Result<AndroidReport, C03Error>)
    ensures
        ota_provider is None ==> report_agrees(r, android_report_spec(source@, *context, request, limits, None)),
        ota_provider is Some ==> exists|answer: (Seq<char>, Result<OtaManifestObservation, String>)|
            (android_context_fault(*context) is None && android_limits_valid(limits) && source@.len()
                <= limits.max_source_bytes && layout_reaches_ota(source@, request) ==> ota_answer_from(
                ota_provider->0,
                source@,
                limits,
                answer,
            )) && report_agrees(r, #[trigger] android_report_spec(source@, *context, request, limits, Some(answer))),
{
    let ghost some_answer = (Seq::<char>::empty(), Err::<OtaManifestObservation, String>(vstd::pervasive::arbitrary()));
    if let Err(e) = validate_android_context(context) {
        assert(report_agrees(Err(e), android_report_spec(source@, *context, request, limits, Some(some_answer))));
        return Err(e);
    }
    if let Err(e) = validate_android_limits(limits) {
        assert(report_agrees(Err(e), android_report_spec(source@, *context, request, limits, Some(some_answer))));
        return Err(e);
    }
    if source.len() as u64 > limits.max_source_bytes {
        assert(report_agrees(Err(C03Error::SourceTooLarge), android_report_spec(source@, *context, request, limits, Some(some_answer))));
        return Err(C03Error::SourceTooLarge);
    }
    let l = android_layout(source, request, limits, ota_provider);
    match l {
        Err(e) => {
            proof {
                if ota_provider is Some {
                    let a = choose|answer: (Seq<char>, Result<OtaManifestObservation, String>)|
                        (layout_reaches_ota(source@, request) ==> ota_answer_from(ota_provider->0, source@, limits, answer))
                            && android_layout_agrees(Err(e), #[trigger] android_layout_spec(source@, request, limits, Some(answer)));
                    assert(report_agrees(Err(e), android_report_spec(source@, *context, request, limits, Some(a))));
                }
            }
            Err(e)
        },
        Ok(x) => {
            let ghost xv = x@;
            let rep = report_from(context, source, x);
            proof {
                if ota_provider is Some {
                    let a = choose|answer: (Seq<char>, Result<OtaManifestObservation, String>)|
                        (layout_reaches_ota(source@, request) ==> ota_answer_from(ota_provider->0, source@, limits, answer))
                            && android_layout_agrees(Ok(x), #[trigger] android_layout_spec(source@, request, limits, Some(answer)));
                    assert(android_layout_spec(source@, request, limits, Some(a)) == Ok::<AndroidLayoutView, C03Error>(xv));
                    assert(report_agrees(Ok(rep), android_report_spec(source@, *context, request, limits, Some(a))));
                }
            }
            Ok(rep)
        },
    }
}

} // verus!
