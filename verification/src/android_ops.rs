//! Exact materialization of Android components and dynamic partitions, and structural comparison
//! of two Android reports.
use vstd::prelude::*;
use crate::android::{
    android_context_fault, android_limits_valid, component_views, validate_android_context,
    validate_android_limits, AndroidArtifactKind, AndroidAssessment, AndroidComponent,
    AndroidComponentKind, AndroidComponentView, AndroidContext, AndroidDynamicExtent,
    AndroidIntegrityAssessment, AndroidLimits, C03Error, DynamicExtentTarget, DynamicPartitionView,
};
use crate::android_inspect::{android_report_spec, AndroidReport, AndroidReportView};
use crate::android_ota::{
    manifest_view, ota_group_views, ota_partition_views, AndroidOtaManifest, OtaDynamicGroup,
    OtaOperationRange, OtaPartitionUpdate,
};
use crate::android_super::{devices_equal, extents_equal, groups_equal, partitions_equal};
use crate::digest::{sha256_hex, sha256_hex_of};
use crate::disk_image::{append_range, append_zeros, zeros};
use crate::identity::EntityRef;
use crate::partition_map::{push_string, string_views};
use crate::text::owned;

verus! {

/// Exact recovered component or logical-partition bytes.
#[derive(Debug)]
pub struct AndroidMaterialization {
    /// Deterministic child name.
    pub name: String,
    /// Object class used for registration.
    pub object_class: String,
    /// Exact parent source revision.
    pub source_revision_ref: EntityRef,
    /// Exact recovered SHA-256.
    pub sha256: String,
    bytes: Vec<u8>,
}

/// Abstract value of a materialization.
pub ghost struct AndroidMaterializationView {
    /// Child name.
    pub name: Seq<char>,
    /// Object class.
    pub object_class: Seq<char>,
    /// Source revision reference.
    pub source_revision_ref: (Seq<char>, Seq<char>),
    /// Digest text.
    pub sha256: Seq<char>,
    /// Recovered bytes.
    pub bytes: Seq<u8>,
}

impl View for AndroidMaterialization {
    type V = AndroidMaterializationView;

    closed spec fn view(&self) -> AndroidMaterializationView {
        AndroidMaterializationView {
            name: self.name@,
            object_class: self.object_class@,
            source_revision_ref: self.source_revision_ref@,
            sha256: self.sha256@,
            bytes: self.bytes@,
        }
    }
}

impl AndroidMaterialization {
    /// Read-only recovered bytes.
    pub fn bytes(&self) -> (r: &[u8])
        ensures
            r@ == self@.bytes,
    {
        self.bytes.as_slice()
    }
}

/// Why `src` cannot be materialized against `report` under `context`, if it cannot.
pub open spec fn materialization_fault(
    src: Seq<u8>,
    report: AndroidReportView,
    context: AndroidContext,
    limits: AndroidLimits,
) -> Option<C03Error> {
    match android_context_fault(context) {
        Some(e) => Some(e),
        None => if !android_limits_valid(limits) {
            Some(C03Error::InvalidLimits)
        } else if report.source_revision_ref != context.source_revision_ref@ || report.source_size != src.len()
            || report.source_sha256 != sha256_hex_of(src) {
            Some(C03Error::SourceBindingMismatch)
        } else {
            None
        },
    }
}

fn validate_materialization_source(
    source: &[u8],
    report: &AndroidReport,
    context: &AndroidContext,
    limits: AndroidLimits,
) -> (r: Result<(), C03Error>)
    ensures
        r is Ok <==> materialization_fault(source@, report@, *context, limits) is None,
        r matches Err(e) ==> materialization_fault(source@, report@, *context, limits) == Some(e),
{
    validate_android_context(context)?;
    validate_android_limits(limits)?;
    let digest = sha256_hex(source);
    if !report.source_revision_ref.same_as(&context.source_revision_ref) || report.source_size
        != source.len() as u64 || report.source_sha256 != digest {
        return Err(C03Error::SourceBindingMismatch);
    }
    Ok(())
}

/// `i` is the first component named `name`.
pub open spec fn first_component_named(cs: Seq<AndroidComponentView>, name: Seq<char>, i: int) -> bool {
    &&& 0 <= i < cs.len()
    &&& cs[i].name == name
    &&& forall|j: int| 0 <= j < i ==> #[trigger] cs[j].name != name
}

/// Some component is named `name`.
pub open spec fn component_named(cs: Seq<AndroidComponentView>, name: Seq<char>) -> bool {
    exists|i: int| 0 <= i < cs.len() && #[trigger] cs[i].name == name
}

/// The component that `materialize_android_component` recovers, or why it fails.
pub open spec fn component_materialization_spec(
    src: Seq<u8>,
    report: AndroidReportView,
    name: Seq<char>,
    context: AndroidContext,
    limits: AndroidLimits,
) -> Result<AndroidComponentView, C03Error> {
    let cs = report.layout.components;
    match materialization_fault(src, report, context, limits) {
        Some(e) => Err(e),
        None => if !component_named(cs, name) {
            Err(C03Error::ChildNotFound)
        } else {
            let c = cs[choose|i: int| first_component_named(cs, name, i)];
            if c.byte_end_exclusive < c.byte_start {
                Err(C03Error::AccountingOverflow)
            } else if c.byte_end_exclusive - c.byte_start > limits.max_materialized_bytes {
                Err(C03Error::MaterializationTooLarge)
            } else if c.byte_start > usize::MAX || c.byte_end_exclusive > usize::MAX {
                Err(C03Error::AccountingOverflow)
            } else if c.byte_end_exclusive > src.len() {
                Err(C03Error::SourceBindingMismatch)
            } else if sha256_hex_of(src.subrange(c.byte_start as int, c.byte_end_exclusive as int)) != c.sha256 {
                Err(C03Error::SourceBindingMismatch)
            } else {
                Ok(c)
            }
        },
    }
}

fn find_component(components: &Vec<AndroidComponent>, name: &str) -> (r: Option<usize>)
    ensures
        r is None <==> !component_named(component_views(components@), name@),
        r matches Some(i) ==> first_component_named(component_views(components@), name@, i as int),
{
    let ghost cs = component_views(components@);
    let target = owned(name);
    let mut i: usize = 0;
    while i < components.len()
        invariant
            i <= components@.len(),
            cs == component_views(components@),
            target@ == name@,
            forall|j: int| 0 <= j < i ==> #[trigger] cs[j].name != name@,
        decreases components.len() - i,
    {
        assert(cs[i as int] == components@[i as int]@);
        if components[i].name == target {
            assert(cs[i as int].name == name@);
            return Some(i);
        }
        i = i + 1;
    }
    None
}

proof fn lemma_first_component_unique(cs: Seq<AndroidComponentView>, name: Seq<char>, i: int, j: int)
    requires
        first_component_named(cs, name, i),
        first_component_named(cs, name, j),
    ensures
        i == j,
{
    if i < j {
        assert(cs[i].name == name);
    } else if j < i {
        assert(cs[j].name == name);
    }
}

/// In a report that inspection of `src` gives, the first component named `name` materializes to
/// itself (its exact bytes in `src`, with its digest), whenever it is within the materialization
/// bound.
pub proof fn lemma_inspected_component_materializes(
    src: Seq<u8>,
    context: AndroidContext,
    request: crate::android::AndroidInspectRequest,
    limits: AndroidLimits,
    answer: Option<(Seq<char>, Result<crate::android_ota::OtaManifestObservation, String>)>,
    name: Seq<char>,
    i: int,
)
    requires
        src.len() <= usize::MAX,
        android_report_spec(src, context, request, limits, answer) is Ok,
        first_component_named(
            android_report_spec(src, context, request, limits, answer)->Ok_0.layout.components,
            name,
            i,
        ),
        android_report_spec(src, context, request, limits, answer)->Ok_0.layout.components[i].byte_end_exclusive
            - android_report_spec(src, context, request, limits, answer)->Ok_0.layout.components[i].byte_start
            <= limits.max_materialized_bytes,
    ensures
        component_materialization_spec(
            src,
            android_report_spec(src, context, request, limits, answer)->Ok_0,
            name,
            context,
            limits,
        ) == Ok::<AndroidComponentView, C03Error>(
            android_report_spec(src, context, request, limits, answer)->Ok_0.layout.components[i],
        ),
{
    let rv = android_report_spec(src, context, request, limits, answer)->Ok_0;
    let cs = rv.layout.components;
    crate::android_inspect::lemma_layout_backed(src, request, limits, answer);
    assert(crate::android::component_backed_by(src, cs[i]));
    assert(materialization_fault(src, rv, context, limits) is None);
    assert(component_named(cs, name));
    let k = choose|k: int| first_component_named(cs, name, k);
    lemma_first_component_unique(cs, name, k, i);
}

/// Materialize one exact source-backed component of a report.
///
/// Rejects mismatched source bindings, missing components, configured bounds and bytes whose
/// digest no longer matches the component.
pub fn materialize_android_component(
    source: &[u8],
    report: &AndroidReport,
    component_name: &str,
    context: &AndroidContext,
    limits: AndroidLimits,
) -> (r: Result<AndroidMaterialization, C03Error>)
    ensures
        r matches Err(e) ==> component_materialization_spec(source@, report@, component_name@, *context, limits)
            == Err::<AndroidComponentView, C03Error>(e),
        r matches Ok(m) ==> {
            let c = component_materialization_spec(source@, report@, component_name@, *context, limits)->Ok_0;
            &&& component_materialization_spec(source@, report@, component_name@, *context, limits) is Ok
            &&& m@.name == c.name
            &&& m@.object_class == "android.image.component"@
            &&& m@.source_revision_ref == report@.source_revision_ref
            &&& m@.sha256 == c.sha256
            &&& m@.bytes == source@.subrange(c.byte_start as int, c.byte_end_exclusive as int)
        },
{
    validate_materialization_source(source, report, context, limits)?;
    let ghost cs = component_views(report.components@);
    assert(cs == report@.layout.components);
    let i = match find_component(&report.components, component_name) {
        None => {
            return Err(C03Error::ChildNotFound);
        },
        Some(i) => i,
    };
    proof {
        let k = choose|k: int| first_component_named(cs, component_name@, k);
        lemma_first_component_unique(cs, component_name@, k, i as int);
    }
    let c = &report.components[i];
    assert(cs[i as int] == c@);
    if c.byte_end_exclusive < c.byte_start {
        return Err(C03Error::AccountingOverflow);
    }
    if c.byte_end_exclusive - c.byte_start > limits.max_materialized_bytes {
        return Err(C03Error::MaterializationTooLarge);
    }
    if c.byte_start > usize::MAX as u64 || c.byte_end_exclusive > usize::MAX as u64 {
        return Err(C03Error::AccountingOverflow);
    }
    let start = c.byte_start as usize;
    let end = c.byte_end_exclusive as usize;
    if end > source.len() {
        return Err(C03Error::SourceBindingMismatch);
    }
    let mut bytes: Vec<u8> = Vec::new();
    append_range(&mut bytes, source, start, end);
    assert(bytes@ =~= source@.subrange(start as int, end as int));
    let digest = sha256_hex(bytes.as_slice());
    if digest != c.sha256 {
        return Err(C03Error::SourceBindingMismatch);
    }
    Ok(AndroidMaterialization {
        name: c.name.clone(),
        object_class: owned("android.image.component"),
        source_revision_ref: report.source_revision_ref.duplicate(),
        sha256: c.sha256.clone(),
        bytes,
    })
}

/// `i` is the first partition of slot `slot` named `name`.
pub open spec fn first_partition_named(ps: Seq<DynamicPartitionView>, slot: u32, name: Seq<char>, i: int) -> bool {
    &&& 0 <= i < ps.len()
    &&& ps[i].metadata_slot == slot && ps[i].name == name
    &&& forall|j: int| 0 <= j < i ==> !(#[trigger] ps[j].metadata_slot == slot && ps[j].name == name)
}

/// Some partition of slot `slot` is named `name`.
pub open spec fn partition_named(ps: Seq<DynamicPartitionView>, slot: u32, name: Seq<char>) -> bool {
    exists|i: int| 0 <= i < ps.len() && #[trigger] ps[i].metadata_slot == slot && ps[i].name == name
}

/// Append the bytes of extent `k`, or why they cannot come from the exact source.
pub open spec fn extent_bytes_step(src: Seq<u8>, es: Seq<AndroidDynamicExtent>, bytes: Seq<u8>, k: int) -> Result<Seq<u8>, C03Error> {
    let x = es[k];
    let length = x.num_sectors * 512;
    if length > u64::MAX {
        Err(C03Error::AccountingOverflow)
    } else {
        match x.target {
            DynamicExtentTarget::Zero => if bytes.len() + length > u64::MAX {
                Err(C03Error::AccountingOverflow)
            } else if bytes.len() + length > usize::MAX {
                Err(C03Error::MaterializationTooLarge)
            } else {
                Ok(bytes + zeros(length as nat))
            },
            DynamicExtentTarget::Linear { physical_sector, block_device_index } => {
                let start = physical_sector * 512;
                if block_device_index != 0 {
                    Err(C03Error::PartitionNotMaterializable)
                } else if start > u64::MAX || start + length > u64::MAX {
                    Err(C03Error::AccountingOverflow)
                } else if start > usize::MAX || start + length > usize::MAX {
                    Err(C03Error::AccountingOverflow)
                } else if start + length > src.len() {
                    Err(C03Error::PartitionNotMaterializable)
                } else {
                    Ok(bytes + src.subrange(start, start + length))
                }
            },
        }
    }
}

/// The extent-bytes step.
pub open spec fn extent_bytes_stepper(src: Seq<u8>, es: Seq<AndroidDynamicExtent>) -> spec_fn(Seq<u8>, int) -> Result<
    Seq<u8>,
    C03Error,
> {
    |bytes: Seq<u8>, k: int| extent_bytes_step(src, es, bytes, k)
}

/// The logical bytes of dynamic partition `name` of metadata slot `slot`, or why they cannot be
/// recovered from the exact source image.
pub open spec fn partition_materialization_spec(
    src: Seq<u8>,
    report: AndroidReportView,
    slot: u32,
    name: Seq<char>,
    context: AndroidContext,
    limits: AndroidLimits,
) -> Result<(DynamicPartitionView, Seq<u8>), C03Error> {
    let ps = report.layout.dynamic_partitions;
    match materialization_fault(src, report, context, limits) {
        Some(e) => Err(e),
        None => if report.layout.kind != AndroidArtifactKind::Super {
            Err(C03Error::PartitionNotMaterializable)
        } else if !partition_named(ps, slot, name) {
            Err(C03Error::ChildNotFound)
        } else {
            let p = ps[choose|i: int| first_partition_named(ps, slot, name, i)];
            if p.logical_size > limits.max_materialized_bytes || p.logical_size > usize::MAX {
                Err(C03Error::MaterializationTooLarge)
            } else {
                match crate::android::run_steps(Seq::<u8>::empty(), extent_bytes_stepper(src, p.extents), p.extents.len()) {
                    Err(e) => Err(e),
                    Ok(bytes) => if bytes.len() != p.logical_size {
                        Err(C03Error::PartitionNotMaterializable)
                    } else {
                        Ok((p, bytes))
                    },
                }
            }
        },
    }
}

fn find_partition(report: &AndroidReport, slot: u32, name: &str) -> (r: Option<usize>)
    ensures
        r is None <==> !partition_named(report@.layout.dynamic_partitions, slot, name@),
        r matches Some(i) ==> first_partition_named(report@.layout.dynamic_partitions, slot, name@, i as int),
{
    let ghost ps = report@.layout.dynamic_partitions;
    let target = owned(name);
    let mut i: usize = 0;
    while i < report.dynamic_partitions.len()
        invariant
            i <= ps.len(),
            ps == report@.layout.dynamic_partitions,
            target@ == name@,
            forall|j: int| 0 <= j < i ==> !(#[trigger] ps[j].metadata_slot == slot && ps[j].name == name@),
        decreases ps.len() - i,
    {
        assert(ps[i as int] == report.dynamic_partitions@[i as int]@);
        if report.dynamic_partitions[i].metadata_slot == slot && report.dynamic_partitions[i].name == target {
            assert(ps[i as int].metadata_slot == slot && ps[i as int].name == name@);
            return Some(i);
        }
        i = i + 1;
    }
    None
}

fn extent_bytes(source: &[u8], x: AndroidDynamicExtent, bytes: &mut Vec<u8>, Ghost(es): Ghost<Seq<AndroidDynamicExtent>>, Ghost(k): Ghost<int>) -> (r: Result<(), C03Error>)
    requires
        0 <= k < es.len(),
        es[k] == x,
    ensures
        r matches Ok(_) ==> extent_bytes_step(source@, es, old(bytes)@, k) == Ok::<Seq<u8>, C03Error>(final(bytes)@),
        r matches Err(e) ==> extent_bytes_step(source@, es, old(bytes)@, k) == Err::<Seq<u8>, C03Error>(e),
{
    if x.num_sectors > u64::MAX / 512 {
        assert(x.num_sectors * 512 > u64::MAX) by (nonlinear_arith)
            requires
                x.num_sectors > u64::MAX / 512,
        ;
        return Err(C03Error::AccountingOverflow);
    }
    assert(x.num_sectors * 512 <= u64::MAX) by (nonlinear_arith)
        requires
            x.num_sectors <= u64::MAX / 512,
    ;
    let length = x.num_sectors * 512;
    match x.target {
        DynamicExtentTarget::Zero => {
            if bytes.len() as u64 > u64::MAX - length {
                return Err(C03Error::AccountingOverflow);
            }
            let new_len = bytes.len() as u64 + length;
            if new_len > usize::MAX as u64 {
                return Err(C03Error::MaterializationTooLarge);
            }
            append_zeros(bytes, length as usize);
            Ok(())
        },
        DynamicExtentTarget::Linear { physical_sector, block_device_index } => {
            if block_device_index != 0 {
                return Err(C03Error::PartitionNotMaterializable);
            }
            if physical_sector > u64::MAX / 512 {
                assert(physical_sector * 512 > u64::MAX) by (nonlinear_arith)
                    requires
                        physical_sector > u64::MAX / 512,
                ;
                return Err(C03Error::AccountingOverflow);
            }
            assert(physical_sector * 512 <= u64::MAX) by (nonlinear_arith)
                requires
                    physical_sector <= u64::MAX / 512,
            ;
            let start = physical_sector * 512;
            if start > u64::MAX - length {
                return Err(C03Error::AccountingOverflow);
            }
            let end = start + length;
            if start > usize::MAX as u64 || end > usize::MAX as u64 {
                return Err(C03Error::AccountingOverflow);
            }
            if end as usize > source.len() {
                return Err(C03Error::PartitionNotMaterializable);
            }
            append_range(bytes, source, start as usize, end as usize);
            Ok(())
        },
    }
}

/// Materialize one logical partition of a super image from its LINEAR and ZERO extents, when
/// every LINEAR target is a range of block device 0, the source image itself.
///
/// Rejects mismatched source bindings, other block devices, out-of-bounds ranges and configured
/// bounds.
pub fn materialize_dynamic_partition(
    source: &[u8],
    report: &AndroidReport,
    metadata_slot: u32,
    partition_name: &str,
    context: &AndroidContext,
    limits: AndroidLimits,
) -> (r: Result<AndroidMaterialization, C03Error>)
    ensures
        r matches Err(e) ==> partition_materialization_spec(source@, report@, metadata_slot, partition_name@,
            *context, limits) == Err::<(DynamicPartitionView, Seq<u8>), C03Error>(e),
        r matches Ok(m) ==> {
            let out = partition_materialization_spec(source@, report@, metadata_slot, partition_name@, *context, limits)->Ok_0;
            &&& partition_materialization_spec(source@, report@, metadata_slot, partition_name@, *context, limits) is Ok
            &&& m@.name == out.0.name
            &&& m@.object_class == "android.dynamic_partition"@
            &&& m@.source_revision_ref == report@.source_revision_ref
            &&& m@.bytes == out.1
            &&& m@.sha256 == sha256_hex_of(out.1)
        },
{
    validate_materialization_source(source, report, context, limits)?;
    if report.kind != AndroidArtifactKind::Super {
        return Err(C03Error::PartitionNotMaterializable);
    }
    let ghost ps = report@.layout.dynamic_partitions;
    let i = match find_partition(report, metadata_slot, partition_name) {
        None => {
            return Err(C03Error::ChildNotFound);
        },
        Some(i) => i,
    };
    proof {
        let k = choose|k: int| first_partition_named(ps, metadata_slot, partition_name@, k);
        if k < i {
            assert(ps[k].metadata_slot == metadata_slot && ps[k].name == partition_name@);
        } else if i < k {
            assert(ps[i as int].metadata_slot == metadata_slot && ps[i as int].name == partition_name@);
        }
    }
    let p = &report.dynamic_partitions[i];
    assert(ps[i as int] == p@);
    if p.logical_size > limits.max_materialized_bytes || p.logical_size > usize::MAX as u64 {
        return Err(C03Error::MaterializationTooLarge);
    }
    let ghost es = p.extents@;
    let ghost step = extent_bytes_stepper(source@, es);
    let ghost pv = p@;
    let ghost tail = match crate::android::run_steps(Seq::<u8>::empty(), step, es.len()) {
        Err(e) => Err(e),
        Ok(b) => if b.len() != pv.logical_size {
            Err(C03Error::PartitionNotMaterializable)
        } else {
            Ok((pv, b))
        },
    };
    assert(partition_materialization_spec(source@, report@, metadata_slot, partition_name@, *context, limits) == tail);
    let mut bytes: Vec<u8> = Vec::new();
    let mut k: usize = 0;
    while k < p.extents.len()
        invariant
            k <= es.len(),
            es == p.extents@,
            pv == p@,
            partition_materialization_spec(source@, report@, metadata_slot, partition_name@, *context, limits) == tail,
            tail == match crate::android::run_steps(Seq::<u8>::empty(), step, es.len()) {
                Err(e) => Err(e),
                Ok(b) => if b.len() != pv.logical_size {
                    Err(C03Error::PartitionNotMaterializable)
                } else {
                    Ok((pv, b))
                },
            },
            step == extent_bytes_stepper(source@, es),
            crate::android::run_steps(Seq::<u8>::empty(), step, k as nat) == Ok::<Seq<u8>, C03Error>(bytes@),
        decreases es.len() - k,
    {
        let ghost before = bytes@;
        match extent_bytes(source, p.extents[k], &mut bytes, Ghost(es), Ghost(k as int)) {
            Ok(_) => {},
            Err(e) => {
                assert(crate::android::run_steps(Seq::<u8>::empty(), step, (k + 1) as nat) == extent_bytes_step(source@, es, before, k as int));
                proof { crate::android::lemma_run_steps_err(Seq::<u8>::empty(), step, (k + 1) as nat, es.len()); }
                return Err(e);
            },
        }
        k = k + 1;
    }
    if bytes.len() as u64 != p.logical_size {
        return Err(C03Error::PartitionNotMaterializable);
    }
    let sha256 = sha256_hex(bytes.as_slice());
    Ok(AndroidMaterialization {
        name: p.name.clone(),
        object_class: owned("android.dynamic_partition"),
        source_revision_ref: report.source_revision_ref.duplicate(),
        sha256,
        bytes,
    })
}

/// Structural comparison strength.
#[derive(Debug, Clone, Copy, PartialEq, Eq, Structural)]
pub enum AndroidComparisonLevel {
    /// Structural projections differ.
    Different,
    /// Structure matches but retained component digests differ.
    StructureOnly,
    /// Retained component identities match but whole source differs.
    ComponentExact,
    /// Whole immutable source digest matches.
    ByteExact,
}

/// Explicit rebuild evidence level; no level implies bootability or signature trust.
#[derive(Debug, Clone, Copy, PartialEq, Eq, Structural)]
pub enum AndroidRebuildProofLevel {
    /// No equivalence was established.
    Unestablished,
    /// Structural projection matches.
    StructureOnly,
    /// All retained component identities match.
    ComponentExact,
    /// Whole source bytes are digest-identical.
    ByteExact,
}

/// Source-bound comparison report.
#[derive(Debug)]
pub struct AndroidComparison {
    /// Left source revision.
    pub left_source_revision_ref: EntityRef,
    /// Right source revision.
    pub right_source_revision_ref: EntityRef,
    /// Strongest mechanically established level.
    pub level: AndroidComparisonLevel,
    /// Deterministic structural differences.
    pub differences: Vec<String>,
}

/// Display name of an artifact family.
pub open spec fn kind_name(k: AndroidArtifactKind) -> Seq<char> {
    match k {
        AndroidArtifactKind::Boot => "Boot"@,
        AndroidArtifactKind::InitBoot => "InitBoot"@,
        AndroidArtifactKind::VendorBoot => "VendorBoot"@,
        AndroidArtifactKind::Dtbo => "Dtbo"@,
        AndroidArtifactKind::Vbmeta => "Vbmeta"@,
        AndroidArtifactKind::Super => "Super"@,
        AndroidArtifactKind::OtaPayload => "OtaPayload"@,
    }
}

/// Display name of an assessment.
pub open spec fn assessment_name(a: AndroidAssessment) -> Seq<char> {
    match a {
        AndroidAssessment::Complete => "Complete"@,
        AndroidAssessment::Partial => "Partial"@,
        AndroidAssessment::Inconclusive => "Inconclusive"@,
    }
}

/// Display name of an integrity level.
pub open spec fn integrity_name(i: AndroidIntegrityAssessment) -> Seq<char> {
    match i {
        AndroidIntegrityAssessment::StructureChecked => "StructureChecked"@,
        AndroidIntegrityAssessment::ChecksumsVerified => "ChecksumsVerified"@,
    }
}

fn kind_text(k: AndroidArtifactKind) -> (s: String)
    ensures
        s@ == kind_name(k),
{
    match k {
        AndroidArtifactKind::Boot => owned("Boot"),
        AndroidArtifactKind::InitBoot => owned("InitBoot"),
        AndroidArtifactKind::VendorBoot => owned("VendorBoot"),
        AndroidArtifactKind::Dtbo => owned("Dtbo"),
        AndroidArtifactKind::Vbmeta => owned("Vbmeta"),
        AndroidArtifactKind::Super => owned("Super"),
        AndroidArtifactKind::OtaPayload => owned("OtaPayload"),
    }
}

fn assessment_text(a: AndroidAssessment) -> (s: String)
    ensures
        s@ == assessment_name(a),
{
    match a {
        AndroidAssessment::Complete => owned("Complete"),
        AndroidAssessment::Partial => owned("Partial"),
        AndroidAssessment::Inconclusive => owned("Inconclusive"),
    }
}

fn integrity_text(i: AndroidIntegrityAssessment) -> (s: String)
    ensures
        s@ == integrity_name(i),
{
    match i {
        AndroidIntegrityAssessment::StructureChecked => owned("StructureChecked"),
        AndroidIntegrityAssessment::ChecksumsVerified => owned("ChecksumsVerified"),
    }
}

/// `label`, the left name, `->`, the right name.
pub open spec fn change_text(label: Seq<char>, l: Seq<char>, r: Seq<char>) -> Seq<char> {
    label + l + "->"@ + r
}

fn change_message(label: &str, l: String, r: String) -> (s: String)
    ensures
        s@ == change_text(label@, l@, r@),
{
    let mut s = owned(label);
    s.append(l.as_str());
    s.append("->");
    s.append(r.as_str());
    proof { reveal_strlit("->"); }
    s
}

/// Component shape: kind, name and byte range, without digest.
pub open spec fn component_shape(cs: Seq<AndroidComponentView>) -> Seq<(AndroidComponentKind, Seq<char>, u64, u64)> {
    cs.map_values(|c: AndroidComponentView| (c.kind, c.name, c.byte_start, c.byte_end_exclusive))
}

/// Differences between two reports, in the order they are reported.
pub open spec fn android_differences(l: AndroidReportView, r: AndroidReportView) -> Seq<Seq<char>> {
    header_differences(l, r) + content_differences(l, r)
}

/// The strongest level two reports support.
pub open spec fn android_comparison_level(l: AndroidReportView, r: AndroidReportView) -> AndroidComparisonLevel {
    let d = android_differences(l, r);
    let component_exact = l.layout.components == r.layout.components;
    let structural = d.len() == 0 || (d.len() == 1 && !component_exact && component_shape(l.layout.components)
        == component_shape(r.layout.components));
    if l.source_sha256 == r.source_sha256 && l.source_size == r.source_size {
        AndroidComparisonLevel::ByteExact
    } else if component_exact && d.len() == 0 {
        AndroidComparisonLevel::ComponentExact
    } else if structural && l.layout.kind == r.layout.kind {
        AndroidComparisonLevel::StructureOnly
    } else {
        AndroidComparisonLevel::Different
    }
}

fn strings_equal(a: &Vec<String>, b: &Vec<String>) -> (r: bool)
    ensures
        r == (string_views(a@) == string_views(b@)),
{
    if a.len() != b.len() {
        assert(string_views(a@).len() != string_views(b@).len());
        return false;
    }
    let mut i: usize = 0;
    while i < a.len()
        invariant
            i <= a@.len() == b@.len(),
            forall|j: int| 0 <= j < i ==> string_views(a@)[j] == string_views(b@)[j],
        decreases a.len() - i,
    {
        if a[i] != b[i] {
            assert(string_views(a@)[i as int] != string_views(b@)[i as int]);
            return false;
        }
        i = i + 1;
    }
    assert(string_views(a@) =~= string_views(b@));
    true
}

fn operations_equal(a: &Vec<OtaOperationRange>, b: &Vec<OtaOperationRange>) -> (r: bool)
    ensures
        r == (a@ == b@),
{
    if a.len() != b.len() {
        return false;
    }
    let mut i: usize = 0;
    while i < a.len()
        invariant
            i <= a@.len() == b@.len(),
            forall|j: int| 0 <= j < i ==> a@[j] == b@[j],
        decreases a.len() - i,
    {
        if a[i] != b[i] {
            return false;
        }
        i = i + 1;
    }
    assert(a@ =~= b@);
    true
}

fn ota_partitions_equal(a: &Vec<OtaPartitionUpdate>, b: &Vec<OtaPartitionUpdate>) -> (r: bool)
    ensures
        r == (ota_partition_views(a@) == ota_partition_views(b@)),
{
    if a.len() != b.len() {
        assert(ota_partition_views(a@).len() != ota_partition_views(b@).len());
        return false;
    }
    let mut i: usize = 0;
    while i < a.len()
        invariant
            i <= a@.len() == b@.len(),
            forall|j: int| 0 <= j < i ==> ota_partition_views(a@)[j] == ota_partition_views(b@)[j],
        decreases a.len() - i,
    {
        if !(a[i].name == b[i].name && a[i].new_size == b[i].new_size && operations_equal(&a[i].operations, &b[i].operations)) {
            assert(ota_partition_views(a@)[i as int] != ota_partition_views(b@)[i as int]);
            return false;
        }
        i = i + 1;
    }
    assert(ota_partition_views(a@) =~= ota_partition_views(b@));
    true
}

fn ota_groups_equal(a: &Vec<OtaDynamicGroup>, b: &Vec<OtaDynamicGroup>) -> (r: bool)
    ensures
        r == (ota_group_views(a@) == ota_group_views(b@)),
{
    if a.len() != b.len() {
        assert(ota_group_views(a@).len() != ota_group_views(b@).len());
        return false;
    }
    let mut i: usize = 0;
    while i < a.len()
        invariant
            i <= a@.len() == b@.len(),
            forall|j: int| 0 <= j < i ==> ota_group_views(a@)[j] == ota_group_views(b@)[j],
        decreases a.len() - i,
    {
        if !(a[i].name == b[i].name && a[i].maximum_size == b[i].maximum_size && strings_equal(&a[i].partition_names, &b[i].partition_names)) {
            assert(ota_group_views(a@)[i as int] != ota_group_views(b@)[i as int]);
            return false;
        }
        i = i + 1;
    }
    assert(ota_group_views(a@) =~= ota_group_views(b@));
    true
}

fn manifests_equal(a: &Option<AndroidOtaManifest>, b: &Option<AndroidOtaManifest>) -> (r: bool)
    ensures
        r == (manifest_view(*a) == manifest_view(*b)),
{
    match (a, b) {
        (None, None) => true,
        (Some(x), Some(y)) => x.major_version == y.major_version && x.manifest_sha256 == y.manifest_sha256
            && x.provider_alias == y.provider_alias && x.block_size == y.block_size && ota_partitions_equal(
            &x.partitions,
            &y.partitions,
        ) && ota_groups_equal(&x.dynamic_groups, &y.dynamic_groups) && x.partial_update == y.partial_update
            && strings_equal(&x.limitations, &y.limitations),
        _ => false,
    }
}

fn components_equal(a: &Vec<AndroidComponent>, b: &Vec<AndroidComponent>, with_digest: bool) -> (r: bool)
    ensures
        with_digest ==> r == (component_views(a@) == component_views(b@)),
        !with_digest ==> r == (component_shape(component_views(a@)) == component_shape(component_views(b@))),
{
    let ghost av = component_views(a@);
    let ghost bv = component_views(b@);
    if a.len() != b.len() {
        assert(av.len() != bv.len());
        assert(component_shape(av).len() != component_shape(bv).len());
        return false;
    }
    let mut i: usize = 0;
    while i < a.len()
        invariant
            i <= a@.len() == b@.len(),
            av == component_views(a@),
            bv == component_views(b@),
            with_digest ==> forall|j: int| 0 <= j < i ==> av[j] == bv[j],
            forall|j: int| 0 <= j < i ==> component_shape(av)[j] == component_shape(bv)[j],
        decreases a.len() - i,
    {
        let x = &a[i];
        let y = &b[i];
        assert(av[i as int] == x@ && bv[i as int] == y@);
        if !(x.kind == y.kind && x.name == y.name && x.byte_start == y.byte_start && x.byte_end_exclusive
            == y.byte_end_exclusive) {
            assert(component_shape(av)[i as int] != component_shape(bv)[i as int]);
            return false;
        }
        if with_digest && x.sha256 != y.sha256 {
            assert(av[i as int] != bv[i as int]);
            return false;
        }
        i = i + 1;
    }
    assert(component_shape(av) =~= component_shape(bv));
    if with_digest {
        assert(av =~= bv);
    }
    true
}

/// The metadata differences: family, assessment and integrity.
pub open spec fn header_differences(l: AndroidReportView, r: AndroidReportView) -> Seq<Seq<char>> {
    let a = l.layout;
    let b = r.layout;
    (if a.kind != b.kind { seq![change_text("kind:"@, kind_name(a.kind), kind_name(b.kind))] } else { Seq::empty() })
        + (if a.assessment != b.assessment {
        seq![change_text("assessment:"@, assessment_name(a.assessment), assessment_name(b.assessment))]
    } else {
        Seq::empty()
    }) + (if a.integrity != b.integrity {
        seq![change_text("integrity:"@, integrity_name(a.integrity), integrity_name(b.integrity))]
    } else {
        Seq::empty()
    })
}

/// The content differences: super tables, OTA manifest and component shape.
pub open spec fn content_differences(l: AndroidReportView, r: AndroidReportView) -> Seq<Seq<char>> {
    let a = l.layout;
    let b = r.layout;
    (if a.dynamic_partitions != b.dynamic_partitions { seq!["dynamic_partitions_changed"@] } else { Seq::empty() })
        + (if a.dynamic_groups != b.dynamic_groups { seq!["dynamic_groups_changed"@] } else { Seq::empty() })
        + (if a.block_devices != b.block_devices { seq!["block_devices_changed"@] } else { Seq::empty() })
        + (if a.ota_manifest != b.ota_manifest { seq!["ota_manifest_changed"@] } else { Seq::empty() })
        + (if component_shape(a.components) != component_shape(b.components) {
        seq!["component_structure_changed"@]
    } else {
        Seq::empty()
    })
}

fn header_diffs(left: &AndroidReport, right: &AndroidReport) -> (r: Vec<String>)
    ensures
        string_views(r@) == header_differences(left@, right@),
{
    let mut differences: Vec<String> = Vec::new();
    proof {
        reveal_strlit("kind:");
        reveal_strlit("assessment:");
        reveal_strlit("integrity:");
    }
    if left.kind != right.kind {
        push_string(&mut differences, change_message("kind:", kind_text(left.kind), kind_text(right.kind)));
    }
    if left.assessment != right.assessment {
        push_string(&mut differences, change_message("assessment:", assessment_text(left.assessment), assessment_text(right.assessment)));
    }
    if left.integrity != right.integrity {
        push_string(&mut differences, change_message("integrity:", integrity_text(left.integrity), integrity_text(right.integrity)));
    }
    assert(string_views(differences@) =~= header_differences(left@, right@));
    differences
}

fn content_diffs(left: &AndroidReport, right: &AndroidReport, differences: &mut Vec<String>) -> (same_shape: bool)
    ensures
        string_views(final(differences)@) == string_views(old(differences)@) + content_differences(left@, right@),
        same_shape == (component_shape(left@.layout.components) == component_shape(right@.layout.components)),
{
    let ghost start = string_views(differences@);
    let ghost a = left@.layout;
    let ghost b = right@.layout;
    if !partitions_equal(&left.dynamic_partitions, &right.dynamic_partitions) {
        push_string(differences, owned("dynamic_partitions_changed"));
    }
    let ghost s1 = string_views(differences@);
    assert(s1 =~= start + (if a.dynamic_partitions != b.dynamic_partitions { seq!["dynamic_partitions_changed"@] } else { Seq::empty() }));
    if !groups_equal(&left.dynamic_groups, &right.dynamic_groups) {
        push_string(differences, owned("dynamic_groups_changed"));
    }
    let ghost s2 = string_views(differences@);
    assert(s2 =~= s1 + (if a.dynamic_groups != b.dynamic_groups { seq!["dynamic_groups_changed"@] } else { Seq::empty() }));
    if !devices_equal(&left.block_devices, &right.block_devices) {
        push_string(differences, owned("block_devices_changed"));
    }
    let ghost s3 = string_views(differences@);
    assert(s3 =~= s2 + (if a.block_devices != b.block_devices { seq!["block_devices_changed"@] } else { Seq::empty() }));
    if !manifests_equal(&left.ota_manifest, &right.ota_manifest) {
        push_string(differences, owned("ota_manifest_changed"));
    }
    let ghost s4 = string_views(differences@);
    assert(s4 =~= s3 + (if a.ota_manifest != b.ota_manifest { seq!["ota_manifest_changed"@] } else { Seq::empty() }));
    let same_shape = components_equal(&left.components, &right.components, false);
    if !same_shape {
        push_string(differences, owned("component_structure_changed"));
    }
    assert(string_views(differences@) =~= start + content_differences(left@, right@));
    same_shape
}

/// Compare two Android reports without making boot, signature or device claims.
#[verifier::rlimit(60)]
pub fn compare_android_artifacts(left: &AndroidReport, right: &AndroidReport) -> (r: AndroidComparison)
    ensures
        string_views(r.differences@) == android_differences(left@, right@),
        r.level == android_comparison_level(left@, right@),
        r.left_source_revision_ref@ == left.source_revision_ref@,
        r.right_source_revision_ref@ == right.source_revision_ref@,
{
    let mut differences = header_diffs(left, right);
    let same_shape = content_diffs(left, right, &mut differences);
    let component_exact = components_equal(&left.components, &right.components, true);
    let structural = differences.len() == 0 || (differences.len() == 1 && !component_exact && same_shape);
    let level = if left.source_sha256 == right.source_sha256 && left.source_size == right.source_size {
        AndroidComparisonLevel::ByteExact
    } else if component_exact && differences.len() == 0 {
        AndroidComparisonLevel::ComponentExact
    } else if structural && left.kind == right.kind {
        AndroidComparisonLevel::StructureOnly
    } else {
        AndroidComparisonLevel::Different
    };
    AndroidComparison {
        left_source_revision_ref: left.source_revision_ref.duplicate(),
        right_source_revision_ref: right.source_revision_ref.duplicate(),
        level,
        differences,
    }
}

/// The rebuild evidence level a comparison level supports.
pub open spec fn rebuild_level(l: AndroidComparisonLevel) -> AndroidRebuildProofLevel {
    match l {
        AndroidComparisonLevel::Different => AndroidRebuildProofLevel::Unestablished,
        AndroidComparisonLevel::StructureOnly => AndroidRebuildProofLevel::StructureOnly,
        AndroidComparisonLevel::ComponentExact => AndroidRebuildProofLevel::ComponentExact,
        AndroidComparisonLevel::ByteExact => AndroidRebuildProofLevel::ByteExact,
    }
}

/// Convert comparison evidence into an explicit rebuild proof level.
pub fn assess_android_rebuild(original: &AndroidReport, rebuilt: &AndroidReport) -> (r: AndroidRebuildProofLevel)
    ensures
        r == rebuild_level(android_comparison_level(original@, rebuilt@)),
{
    match compare_android_artifacts(original, rebuilt).level {
        AndroidComparisonLevel::Different => AndroidRebuildProofLevel::Unestablished,
        AndroidComparisonLevel::StructureOnly => AndroidRebuildProofLevel::StructureOnly,
        AndroidComparisonLevel::ComponentExact => AndroidRebuildProofLevel::ComponentExact,
        AndroidComparisonLevel::ByteExact => AndroidRebuildProofLevel::ByteExact,
    }
}

} // verus!
