//! MediaTek package inspection: scatter parsing, bundle linkage, read-only evidence
//! correlation, report comparison and exact component materialization.
use vstd::prelude::*;
use crate::digest::{sha256_hex, sha256_hex_of};
use crate::document_adapters::{from_utf8_lossy, utf8_is_valid};
use crate::identity::EntityRef;
use crate::mediatek::{
    BundleEntryView, C05Error, MediatekAssessment, MediatekBundleProvider, MediatekComparison,
    MediatekComparisonLevel, MediatekContext, MediatekEvidenceCorrelation, MediatekEvidenceProvider,
    MediatekLimits, MediatekMaterialization, MediatekPartition, MediatekReport, MediatekStaticProofLevel,
    MediatekTrustAssessment, PartitionView, bundle_entry_views, mediatek_context_fault, mediatek_limits_valid,
    opt_view, partition_views, validate_mediatek_context, validate_mediatek_limits,
};
use crate::mediatek_bundle::{
    BundleResolutionView, bundle_answer_spec, bundle_entry_sound, entry_from, lemma_bundle_entries_sound, obs_views, bundle_from_answer, check_text, entry_index, find_entry, link_all,
    link_partition_components, referenced_paths, referenced_spec, unprovided_bundle, unprovided_resolution,
    unreferenced_bundle, unreferenced_resolution,
};
use crate::mediatek_evidence::{
    EvidenceResolutionView, EvidenceView, absent_evidence, evidence_answer_spec, evidence_from_answer,
    evidence_opt_view, no_evidence,
};
use crate::mediatek_scatter::{ScatterView, bundle_path, bundle_path_fault, parse_scatter, scatter_spec, scatter_string_ok};
use crate::partition_map::string_views;
use crate::text::owned;
use crate::text_ops::chars_of;

verus! {

/// Abstract value of a MediaTek report.
pub ghost struct MediatekReportView {
    /// Source revision reference.
    pub source_revision: (Seq<char>, Seq<char>),
    /// Whole-source digest text.
    pub source_sha256: Seq<char>,
    /// Source size.
    pub source_size: u64,
    /// Config version.
    pub config_version: Option<Seq<char>>,
    /// Platform claim.
    pub platform: Seq<char>,
    /// Storage claim.
    pub storage: Seq<char>,
    /// Assessment.
    pub assessment: MediatekAssessment,
    /// Trust assessment.
    pub trust: MediatekTrustAssessment,
    /// Static proof level.
    pub proof_level: Option<MediatekStaticProofLevel>,
    /// Bundle provider alias.
    pub bundle_alias: Option<Seq<char>>,
    /// Retained bundle entries.
    pub entries: Seq<BundleEntryView>,
    /// Partition relationships.
    pub partitions: Seq<PartitionView>,
    /// Evidence.
    pub evidence: Option<EvidenceView>,
    /// Correlation.
    pub correlation: Option<MediatekEvidenceCorrelation>,
    /// Warnings.
    pub warnings: Seq<Seq<char>>,
    /// Limitations.
    pub limitations: Seq<Seq<char>>,
}

impl View for MediatekReport {
    type V = MediatekReportView;

    open spec fn view(&self) -> MediatekReportView {
        MediatekReportView {
            source_revision: self.source_revision_ref@,
            source_sha256: self.source_sha256@,
            source_size: self.source_size,
            config_version: opt_view(self.config_version),
            platform: self.platform@,
            storage: self.storage@,
            assessment: self.assessment,
            trust: self.trust,
            proof_level: self.proof_level,
            bundle_alias: opt_view(self.bundle_provider_alias),
            entries: bundle_entry_views(self.bundle_entries@),
            partitions: partition_views(self.partitions@),
            evidence: evidence_opt_view(self.evidence),
            correlation: self.evidence_correlation,
            warnings: string_views(self.warnings@),
            limitations: string_views(self.limitations@),
        }
    }
}

/// What a bundle provider answered: its alias and its observation or failure text.
pub type BundleAnswer = (Seq<char>, Result<crate::mediatek::MediatekBundleObservation, String>);

/// What an evidence provider answered: its alias and its observation or failure text.
pub type EvidenceAnswer = (Seq<char>, Result<crate::mediatek::MediatekEvidenceObservation, String>);

/// The bundle stage: nothing referenced, no provider, a refused alias, or the provider's answer.
pub open spec fn bundle_stage(refs: Seq<Seq<char>>, bundle: Option<BundleAnswer>, limits: MediatekLimits) -> Result<
    BundleResolutionView,
    C05Error,
> {
    if refs.len() == 0 {
        Ok(unreferenced_resolution())
    } else {
        match bundle {
            None => Ok(unprovided_resolution()),
            Some(a) => if !scatter_string_ok(a.0, limits) {
                Err(C05Error::InvalidString)
            } else {
                bundle_answer_spec(refs, a.0, a.1, limits)
            },
        }
    }
}

/// Every entry of a bundle resolution records the size and digest of its bytes.
pub proof fn lemma_bundle_stage_sound(refs: Seq<Seq<char>>, bundle: Option<BundleAnswer>, limits: MediatekLimits)
    ensures
        bundle_stage(refs, bundle, limits) matches Ok(v) ==> forall|k: int|
            0 <= k < v.entries.len() ==> bundle_entry_sound(#[trigger] v.entries[k]),
        bundle_stage(refs, bundle, limits) matches Ok(v) ==> v.entries.len() > 0 ==> {
            &&& refs.len() > 0
            &&& bundle is Some
            &&& scatter_string_ok((bundle->0).0, limits)
            &&& (bundle->0).1 is Ok
            &&& forall|k: int|
                0 <= k < v.entries.len() ==> entry_from(
                    obs_views((bundle->0).1->Ok_0.entries@),
                    #[trigger] v.entries[k],
                )
        },
{
    if refs.len() != 0 {
        if let Some(a) = bundle {
            if let Ok(obs) = a.1 {
                lemma_bundle_entries_sound(
                    obs_views(obs.entries@),
                    obs.complete_claim,
                    string_views(obs.limitations@),
                    limits,
                );
            }
        }
    }
}

/// The evidence stage: no provider, a refused alias, or the provider's answer.
pub open spec fn evidence_stage(
    platform: Seq<char>,
    storage: Seq<char>,
    ps: Seq<PartitionView>,
    evidence: Option<EvidenceAnswer>,
    limits: MediatekLimits,
) -> Result<EvidenceResolutionView, C05Error> {
    match evidence {
        None => Ok(no_evidence()),
        Some(a) => if !scatter_string_ok(a.0, limits) {
            Err(C05Error::InvalidString)
        } else {
            evidence_answer_spec(platform, storage, ps, a.0, a.1, limits)
        },
    }
}

/// The proof level earned by bundle linkage and evidence correlation.
pub open spec fn proof_level_spec(linked: bool, correlated: bool, referenced: bool) -> MediatekStaticProofLevel {
    if linked && correlated {
        MediatekStaticProofLevel::EvidenceCorrelated
    } else if linked && referenced {
        MediatekStaticProofLevel::BundleLinked
    } else {
        MediatekStaticProofLevel::StructureChecked
    }
}

/// The report assembled from the parsed scatter, the bundle stage and the evidence stage.
pub open spec fn assemble_spec(
    revision: (Seq<char>, Seq<char>),
    source: Seq<u8>,
    sv: ScatterView,
    refs: Seq<Seq<char>>,
    b: BundleResolutionView,
    ps: Seq<PartitionView>,
    e: EvidenceResolutionView,
) -> MediatekReportView {
    MediatekReportView {
        source_revision: revision,
        source_sha256: sha256_hex_of(source),
        source_size: source.len() as u64,
        config_version: sv.config_version,
        platform: sv.platform,
        storage: sv.storage,
        assessment: if b.partial || e.partial {
            MediatekAssessment::Partial
        } else {
            MediatekAssessment::Complete
        },
        trust: MediatekTrustAssessment::NotEstablished,
        proof_level: Some(proof_level_spec(b.linked, e.correlated, refs.len() > 0)),
        bundle_alias: b.alias,
        entries: b.entries,
        partitions: ps,
        evidence: e.evidence,
        correlation: e.correlation,
        warnings: Seq::empty(),
        limitations: b.limitations + e.limitations,
    }
}

/// The inspection of `source` under `context` and `limits`, given what the providers answered.
pub open spec fn mediatek_spec(
    context: MediatekContext,
    source: Seq<u8>,
    limits: MediatekLimits,
    bundle: Option<BundleAnswer>,
    evidence: Option<EvidenceAnswer>,
) -> Result<MediatekReportView, C05Error> {
    match mediatek_context_fault(context) {
        Some(e) => Err(e),
        None => if !mediatek_limits_valid(limits) {
            Err(C05Error::InvalidLimits)
        } else if source.len() > limits.max_source_bytes {
            Err(C05Error::SourceTooLarge)
        } else if !vstd::utf8::valid_utf8(source) {
            Err(C05Error::InvalidUtf8)
        } else {
            match scatter_spec(vstd::utf8::decode_utf8(source), limits) {
                Err(e) => Err(e),
                Ok(sv) => {
                    let refs = referenced_spec(sv.partitions);
                    match bundle_stage(refs, bundle, limits) {
                        Err(e) => Err(e),
                        Ok(b) => {
                            let ps = link_all(sv.partitions, b.entries);
                            match evidence_stage(sv.platform, sv.storage, ps, evidence, limits) {
                                Err(e) => Err(e),
                                Ok(ev) => Ok(
                                    assemble_spec(context.source_revision_ref@, source, sv, refs, b, ps, ev),
                                ),
                            }
                        },
                    }
                },
            }
        },
    }
}

/// The parsed scatter file, when the context, limits, size and encoding let inspection reach it.
pub open spec fn scatter_reached(context: MediatekContext, source: Seq<u8>, limits: MediatekLimits) -> Option<ScatterView> {
    if mediatek_context_fault(context) is None && mediatek_limits_valid(limits) && source.len() <= limits.max_source_bytes
        && vstd::utf8::valid_utf8(source) {
        match scatter_spec(vstd::utf8::decode_utf8(source), limits) {
            Ok(sv) => Some(sv),
            Err(_) => None,
        }
    } else {
        None
    }
}

/// Whether inspection asks a bundle provider: a parsed scatter file references components.
pub open spec fn bundle_reached(context: MediatekContext, source: Seq<u8>, limits: MediatekLimits) -> bool {
    scatter_reached(context, source, limits) matches Some(sv) && referenced_spec(sv.partitions).len() > 0
}

/// Whether inspection asks an evidence provider: the bundle stage, given the bundle answer,
/// succeeded.
pub open spec fn evidence_reached(
    context: MediatekContext,
    source: Seq<u8>,
    limits: MediatekLimits,
    bundle: Option<BundleAnswer>,
) -> bool {
    scatter_reached(context, source, limits) matches Some(sv) && bundle_stage(referenced_spec(sv.partitions), bundle, limits)
        is Ok
}

/// Whether an inspection result agrees with an expected result.
pub open spec fn mediatek_agrees(r: Result<MediatekReport, C05Error>, expected: Result<MediatekReportView, C05Error>) -> bool {
    match r {
        Ok(rep) => expected == Ok::<MediatekReportView, C05Error>(rep@),
        Err(e) => expected == Err::<MediatekReportView, C05Error>(e),
    }
}

/// Inspect one immutable MediaTek scatter source plus optional sibling bundle and read-only
/// evidence providers. The result is `mediatek_spec` of the answers the supplied providers gave,
/// whatever they were; without providers it is `mediatek_spec(.., None, None)`.
pub fn inspect_mediatek_package(
    source: &[u8],
    context: &MediatekContext,
    limits: MediatekLimits,
    bundle_provider: Option<&dyn MediatekBundleProvider>,
    evidence_provider: Option<&dyn MediatekEvidenceProvider>,
) -> (r: Result<MediatekReport, C05Error>)
    ensures
        exists|b: Option<BundleAnswer>, e: Option<EvidenceAnswer>|
            (b is Some == bundle_provider is Some) && (e is Some == evidence_provider is Some) && (bundle_provider
                is Some && bundle_reached(*context, source@, limits) ==> bundle_provider->0.id_post((b->0).0) && (
            scatter_string_ok((b->0).0, limits) ==> bundle_provider->0.inspect_post(source@, limits, (b->0).1)))
                && (evidence_provider is Some && evidence_reached(*context, source@, limits, b)
                ==> evidence_provider->0.id_post((e->0).0) && (scatter_string_ok((e->0).0, limits)
                ==> evidence_provider->0.inspect_post(source@, limits, (e->0).1))) && mediatek_agrees(
                r,
                #[trigger] mediatek_spec(*context, source@, limits, b, e),
            ),
        r matches Ok(rep) ==> forall|i: int|
            0 <= i < rep.bundle_entries@.len() ==> bundle_entry_sound(#[trigger] rep.bundle_entries@[i].entry_view()),
        r matches Ok(rep) ==> rep.bundle_entries@.len() > 0 ==> bundle_provider is Some && exists|
            obs: crate::mediatek::MediatekBundleObservation,
        |
            bundle_provider->0.inspect_post(source@, limits, Ok(obs)) && forall|i: int|
                0 <= i < rep.bundle_entries@.len() ==> entry_from(
                    obs_views(obs.entries@),
                    #[trigger] rep.bundle_entries@[i].entry_view(),
                ),
{
    let ghost gb: Option<BundleAnswer> = match bundle_provider {
        Some(_) => Some(vstd::pervasive::arbitrary()),
        None => None,
    };
    let ghost ge: Option<EvidenceAnswer> = match evidence_provider {
        Some(_) => Some(vstd::pervasive::arbitrary()),
        None => None,
    };
    if let Err(e) = validate_mediatek_context(context) {
        assert(mediatek_agrees(Err(e), mediatek_spec(*context, source@, limits, gb, ge)));
        return Err(e);
    }
    if let Err(e) = validate_mediatek_limits(limits) {
        assert(mediatek_agrees(Err(e), mediatek_spec(*context, source@, limits, gb, ge)));
        return Err(e);
    }
    let source_size = source.len() as u64;
    if source_size > limits.max_source_bytes {
        assert(mediatek_agrees(Err(C05Error::SourceTooLarge), mediatek_spec(*context, source@, limits, gb, ge)));
        return Err(C05Error::SourceTooLarge);
    }
    if !utf8_is_valid(source) {
        assert(mediatek_agrees(Err(C05Error::InvalidUtf8), mediatek_spec(*context, source@, limits, gb, ge)));
        return Err(C05Error::InvalidUtf8);
    }
    let text = from_utf8_lossy(source);
    let cs = chars_of(text.as_str());
    let parsed = match parse_scatter(&cs, limits) {
        Ok(p) => p,
        Err(e) => {
            assert(mediatek_agrees(Err(e), mediatek_spec(*context, source@, limits, gb, ge)));
            return Err(e);
        },
    };
    let ghost sv = parsed@;
    let refs = referenced_paths(&parsed.partitions);
    let ghost rv = string_views(refs@);
    let bundle = if refs.len() == 0 {
        unreferenced_bundle()
    } else {
        match bundle_provider {
            None => unprovided_bundle(),
            Some(p) => {
                let id = p.provider_id();
                if check_text(id, limits).is_err() {
                    proof {
                        gb = Some((id@, vstd::pervasive::arbitrary()));
                    }
                    assert(mediatek_agrees(
                        Err(C05Error::InvalidString),
                        mediatek_spec(*context, source@, limits, gb, ge),
                    ));
                    return Err(C05Error::InvalidString);
                }
                let answer = p.inspect_bundle(source, limits);
                proof {
                    gb = Some((id@, answer));
                }
                match bundle_from_answer(&refs, id, answer, limits) {
                    Ok(b) => b,
                    Err(e) => {
                        assert(mediatek_agrees(Err(e), mediatek_spec(*context, source@, limits, gb, ge)));
                        return Err(e);
                    },
                }
            },
        }
    };
    assert(bundle_stage(rv, gb, limits) == Ok::<BundleResolutionView, C05Error>(bundle@));
    proof {
        lemma_bundle_stage_sound(rv, gb, limits);
        assert forall|i: int| 0 <= i < bundle.entries@.len() implies bundle_entry_sound(
            #[trigger] bundle.entries@[i].entry_view(),
        ) by {
            assert(bundle@.entries[i] == bundle.entries@[i].entry_view());
        }
        if bundle.entries@.len() > 0 {
            let obs = (gb->0).1->Ok_0;
            assert(bundle_reached(*context, source@, limits));
            assert(bundle_provider->0.inspect_post(source@, limits, Ok(obs)));
            assert forall|i: int| 0 <= i < bundle.entries@.len() implies entry_from(
                obs_views(obs.entries@),
                #[trigger] bundle.entries@[i].entry_view(),
            ) by {
                assert(bundle@.entries[i] == bundle.entries@[i].entry_view());
            }
        }
    }
    let partitions = link_partition_components(&parsed.partitions, &bundle.entries);
    let evidence = match evidence_provider {
        None => absent_evidence(),
        Some(p) => {
            let id = p.provider_id();
            if check_text(id, limits).is_err() {
                proof {
                    ge = Some((id@, vstd::pervasive::arbitrary()));
                }
                assert(mediatek_agrees(Err(C05Error::InvalidString), mediatek_spec(*context, source@, limits, gb, ge)));
                return Err(C05Error::InvalidString);
            }
            let answer = p.inspect_evidence(source, limits);
            proof {
                ge = Some((id@, answer));
            }
            match evidence_from_answer(&parsed.platform, &parsed.storage, &partitions, id, answer, limits) {
                Ok(x) => x,
                Err(e) => {
                    assert(mediatek_agrees(Err(e), mediatek_spec(*context, source@, limits, gb, ge)));
                    return Err(e);
                },
            }
        },
    };
    let ghost ev = evidence@;
    let assessment = if bundle.partial || evidence.partial {
        MediatekAssessment::Partial
    } else {
        MediatekAssessment::Complete
    };
    let proof_level = if bundle.linked && evidence.correlated {
        MediatekStaticProofLevel::EvidenceCorrelated
    } else if bundle.linked && refs.len() != 0 {
        MediatekStaticProofLevel::BundleLinked
    } else {
        MediatekStaticProofLevel::StructureChecked
    };
    let mut limitations = bundle.limitations;
    let mut extra = evidence.limitations;
    let ghost l1 = string_views(limitations@);
    let ghost l2 = string_views(extra@);
    limitations.append(&mut extra);
    assert(string_views(limitations@) =~= l1 + l2);
    let rep = MediatekReport {
        source_revision_ref: context.source_revision_ref.duplicate(),
        source_sha256: sha256_hex(source),
        source_size,
        config_version: parsed.config_version,
        platform: parsed.platform,
        storage: parsed.storage,
        assessment,
        trust: MediatekTrustAssessment::NotEstablished,
        proof_level: Some(proof_level),
        bundle_provider_alias: bundle.provider_alias,
        bundle_entries: bundle.entries,
        partitions,
        evidence: evidence.evidence,
        evidence_correlation: evidence.correlation,
        warnings: Vec::new(),
        limitations,
    };
    assert(string_views(rep.warnings@) =~= Seq::<Seq<char>>::empty());
    assert(rep@ == assemble_spec(context.source_revision_ref@, source@, sv, rv, bundle@, partition_views(rep.partitions@), ev));
    assert(mediatek_agrees(Ok(rep), mediatek_spec(*context, source@, limits, gb, ge)));
    Ok(rep)
}


/// A partition relationship without its bundle linkage.
pub open spec fn partition_shape(p: PartitionView) -> PartitionView {
    PartitionView { linked_size: None, linked_sha256: None, ..p }
}

/// The scatter structure of a report: header claims and unlinked partition relationships.
pub open spec fn report_shape(r: MediatekReportView) -> (Option<Seq<char>>, Seq<char>, Seq<char>, Seq<PartitionView>) {
    (r.config_version, r.platform, r.storage, r.partitions.map_values(|p: PartitionView| partition_shape(p)))
}

/// The retained component identities of a report: path, size and digest of each entry.
pub open spec fn component_identity(r: MediatekReportView) -> Seq<(Seq<char>, u64, Seq<char>)> {
    r.entries.map_values(|e: BundleEntryView| (e.0, e.1, e.2))
}

/// The strongest comparison level two reports establish.
pub open spec fn comparison_level_spec(l: MediatekReportView, r: MediatekReportView) -> MediatekComparisonLevel {
    let shape_eq = report_shape(l) == report_shape(r);
    let comp_eq = component_identity(l) == component_identity(r);
    if l.source_sha256 == r.source_sha256 && l.source_size == r.source_size && comp_eq {
        MediatekComparisonLevel::ByteExact
    } else if shape_eq && comp_eq {
        MediatekComparisonLevel::ComponentExact
    } else if shape_eq {
        MediatekComparisonLevel::StructureOnly
    } else {
        MediatekComparisonLevel::Different
    }
}

/// The differences two reports show, in a fixed order.
pub open spec fn comparison_differences_spec(l: MediatekReportView, r: MediatekReportView) -> Seq<Seq<char>> {
    let shape_eq = report_shape(l) == report_shape(r);
    let comp_eq = component_identity(l) == component_identity(r);
    if !shape_eq {
        seq!["scatter_or_partition_structure_changed"@]
    } else if !comp_eq {
        seq!["bundle_component_bytes_changed"@]
    } else {
        Seq::empty()
    }
}

fn same_opt_text(a: &Option<String>, b: &Option<String>) -> (r: bool)
    ensures
        r == (opt_view(*a) == opt_view(*b)),
{
    match (a, b) {
        (Some(x), Some(y)) => *x == *y,
        (None, None) => true,
        _ => false,
    }
}

fn same_partition_shape(a: &MediatekPartition, b: &MediatekPartition) -> (r: bool)
    ensures
        r == (partition_shape(a@) == partition_shape(b@)),
{
    a.partition_index == b.partition_index && a.partition_name == b.partition_name && same_opt_text(
        &a.file_name,
        &b.file_name,
    ) && a.is_download == b.is_download && a.image_type == b.image_type && a.linear_range == b.linear_range
        && a.physical_range == b.physical_range && a.region == b.region && a.storage == b.storage
}

fn same_shape(a: &MediatekReport, b: &MediatekReport) -> (r: bool)
    ensures
        r == (report_shape(a@) == report_shape(b@)),
{
    let ghost sa = a@.partitions.map_values(|p: PartitionView| partition_shape(p));
    let ghost sb = b@.partitions.map_values(|p: PartitionView| partition_shape(p));
    if !same_opt_text(&a.config_version, &b.config_version) || a.platform != b.platform || a.storage != b.storage {
        return false;
    }
    if a.partitions.len() != b.partitions.len() {
        assert(sa.len() != sb.len());
        return false;
    }
    let mut i: usize = 0;
    while i < a.partitions.len()
        invariant
            i <= a.partitions@.len() == b.partitions@.len(),
            sa == a@.partitions.map_values(|p: PartitionView| partition_shape(p)),
            sb == b@.partitions.map_values(|p: PartitionView| partition_shape(p)),
            a@.partitions == partition_views(a.partitions@),
            b@.partitions == partition_views(b.partitions@),
            forall|j: int| 0 <= j < i ==> sa[j] == sb[j],
        decreases a.partitions.len() - i,
    {
        assert(sa[i as int] == partition_shape(a.partitions@[i as int]@));
        assert(sb[i as int] == partition_shape(b.partitions@[i as int]@));
        if !same_partition_shape(&a.partitions[i], &b.partitions[i]) {
            return false;
        }
        i = i + 1;
    }
    assert(sa =~= sb);
    true
}

fn same_components(a: &MediatekReport, b: &MediatekReport) -> (r: bool)
    ensures
        r == (component_identity(a@) == component_identity(b@)),
{
    let ghost ca = component_identity(a@);
    let ghost cb = component_identity(b@);
    if a.bundle_entries.len() != b.bundle_entries.len() {
        assert(ca.len() != cb.len());
        return false;
    }
    let mut i: usize = 0;
    while i < a.bundle_entries.len()
        invariant
            i <= a.bundle_entries@.len() == b.bundle_entries@.len(),
            ca == component_identity(a@),
            cb == component_identity(b@),
            a@.entries == bundle_entry_views(a.bundle_entries@),
            b@.entries == bundle_entry_views(b.bundle_entries@),
            forall|j: int| 0 <= j < i ==> ca[j] == cb[j],
        decreases a.bundle_entries.len() - i,
    {
        let x = &a.bundle_entries[i];
        let y = &b.bundle_entries[i];
        assert(a@.entries[i as int] == x.entry_view());
        assert(b@.entries[i as int] == y.entry_view());
        let px: &String = x.path_text();
        let py: &String = y.path_text();
        let dx: &String = x.digest_text();
        let dy: &String = y.digest_text();
        if *px != *py || x.size() != y.size() || *dx != *dy {
            assert(ca[i as int] != cb[i as int]);
            return false;
        }
        i = i + 1;
    }
    assert(ca =~= cb);
    true
}

/// Compare two reports without manufacturing device-write compatibility.
pub fn compare_mediatek_packages(left: &MediatekReport, right: &MediatekReport) -> (r: MediatekComparison)
    ensures
        r.left_source_revision_ref@ == left.source_revision_ref@,
        r.right_source_revision_ref@ == right.source_revision_ref@,
        r.level == comparison_level_spec(left@, right@),
        string_views(r.differences@) == comparison_differences_spec(left@, right@),
{
    let shape_eq = same_shape(left, right);
    let comp_eq = same_components(left, right);
    let mut differences: Vec<String> = Vec::new();
    if !shape_eq {
        differences.push(owned("scatter_or_partition_structure_changed"));
    } else if !comp_eq {
        differences.push(owned("bundle_component_bytes_changed"));
    }
    assert(string_views(differences@) =~= comparison_differences_spec(left@, right@));
    let level = if left.source_sha256 == right.source_sha256 && left.source_size == right.source_size && comp_eq {
        MediatekComparisonLevel::ByteExact
    } else if shape_eq && comp_eq {
        MediatekComparisonLevel::ComponentExact
    } else if shape_eq {
        MediatekComparisonLevel::StructureOnly
    } else {
        MediatekComparisonLevel::Different
    };
    MediatekComparison {
        left_source_revision_ref: left.source_revision_ref.duplicate(),
        right_source_revision_ref: right.source_revision_ref.duplicate(),
        level,
        differences,
    }
}

/// The static proof level a comparison level earns for a rebuild.
pub open spec fn rebuild_level_spec(level: MediatekComparisonLevel) -> Option<MediatekStaticProofLevel> {
    match level {
        MediatekComparisonLevel::Different => None,
        MediatekComparisonLevel::StructureOnly => Some(MediatekStaticProofLevel::StructureChecked),
        MediatekComparisonLevel::ComponentExact => Some(MediatekStaticProofLevel::ComponentExact),
        MediatekComparisonLevel::ByteExact => Some(MediatekStaticProofLevel::ByteExact),
    }
}

/// Convert comparison evidence into an explicit static proof level.
pub fn assess_mediatek_rebuild(original: &MediatekReport, rebuilt: &MediatekReport) -> (r: Option<
    MediatekStaticProofLevel,
>)
    ensures
        r == rebuild_level_spec(comparison_level_spec(original@, rebuilt@)),
{
    match compare_mediatek_packages(original, rebuilt).level {
        MediatekComparisonLevel::Different => None,
        MediatekComparisonLevel::StructureOnly => Some(MediatekStaticProofLevel::StructureChecked),
        MediatekComparisonLevel::ComponentExact => Some(MediatekStaticProofLevel::ComponentExact),
        MediatekComparisonLevel::ByteExact => Some(MediatekStaticProofLevel::ByteExact),
    }
}

/// A report compared with itself is byte-exact, and a rebuild identical to its original earns
/// the byte-exact proof level.
pub proof fn lemma_compare_reflexive(r: MediatekReportView)
    ensures
        comparison_level_spec(r, r) == MediatekComparisonLevel::ByteExact,
        comparison_differences_spec(r, r) == Seq::<Seq<char>>::empty(),
        rebuild_level_spec(comparison_level_spec(r, r)) == Some(MediatekStaticProofLevel::ByteExact),
{
}

/// Comparison is symmetric: swapping the reports keeps the level and the differences.
pub proof fn lemma_compare_symmetric(a: MediatekReportView, b: MediatekReportView)
    ensures
        comparison_level_spec(a, b) == comparison_level_spec(b, a),
        comparison_differences_spec(a, b) == comparison_differences_spec(b, a),
{
}

/// The object class of a materialized bundle component.
pub open spec fn component_class() -> Seq<char> {
    "mediatek.firmware.bundle_component"@
}

/// The materialization of `path` from a report of `source`: name, class, source revision,
/// digest and bytes of the retained entry, or the failure.
pub open spec fn materialize_spec(
    source: Seq<u8>,
    report: MediatekReportView,
    path: Seq<char>,
    context: MediatekContext,
    limits: MediatekLimits,
) -> Result<(Seq<char>, Seq<char>, (Seq<char>, Seq<char>), Seq<char>, Seq<u8>), C05Error> {
    match mediatek_context_fault(context) {
        Some(e) => Err(e),
        None => if !mediatek_limits_valid(limits) {
            Err(C05Error::InvalidLimits)
        } else if report.source_revision != context.source_revision_ref@ || report.source_size != source.len()
            || report.source_sha256 != sha256_hex_of(source) {
            Err(C05Error::SourceBindingMismatch)
        } else {
            match bundle_path_fault(path, limits) {
                Some(e) => Err(e),
                None => if !(exists|k: int|
                    0 <= k < report.partitions.len() && (#[trigger] report.partitions[k]).file_name == Some(path)) {
                    Err(C05Error::ChildNotFound)
                } else {
                    match entry_index(report.entries, path) {
                        None => Err(C05Error::ChildNotFound),
                        Some(i) => {
                            let e = report.entries[i];
                            if e.1 > limits.max_materialized_bytes {
                                Err(C05Error::MaterializationTooLarge)
                            } else if sha256_hex_of(e.3) != e.2 {
                                Err(C05Error::ReportIntegrityMismatch)
                            } else {
                                Ok((e.0, component_class(), report.source_revision, e.2, e.3))
                            }
                        },
                    }
                },
            }
        },
    }
}

/// Materialize one exact bundle component referenced by the scatter source.
pub fn materialize_mediatek_component(
    source: &[u8],
    report: &MediatekReport,
    path: &str,
    context: &MediatekContext,
    limits: MediatekLimits,
) -> (r: Result<MediatekMaterialization, C05Error>)
    ensures
        match materialize_spec(source@, report@, path@, *context, limits) {
            Ok(v) => r matches Ok(m) && m.mat_view() == v,
            Err(e) => r matches Err(x) && x == e,
        },
{
    validate_mediatek_context(context)?;
    validate_mediatek_limits(limits)?;
    if !report.source_revision_ref.same_as(&context.source_revision_ref) || report.source_size != source.len() as u64
        || report.source_sha256 != sha256_hex(source) {
        return Err(C05Error::SourceBindingMismatch);
    }
    let pcs = chars_of(path);
    let p = match bundle_path(&pcs, limits) {
        Ok(p) => p,
        Err(e) => {
            return Err(e);
        },
    };
    let ghost pv = report@.partitions;
    let mut k: usize = 0;
    let mut referenced = false;
    while k < report.partitions.len() && !referenced
        invariant
            k <= report.partitions@.len(),
            pv == partition_views(report.partitions@),
            p@ == path@,
            referenced ==> exists|q: int| 0 <= q < pv.len() && (#[trigger] pv[q]).file_name == Some(path@),
            !referenced ==> forall|q: int| 0 <= q < k ==> (#[trigger] pv[q]).file_name != Some(path@),
        decreases report.partitions.len() - k + (if referenced { 0int } else { 1int }),
    {
        assert(pv[k as int] == report.partitions@[k as int]@);
        match &report.partitions[k].file_name {
            Some(f) => {
                if *f == p {
                    referenced = true;
                } else {
                    k = k + 1;
                }
            },
            None => {
                k = k + 1;
            },
        }
    }
    if !referenced {
        return Err(C05Error::ChildNotFound);
    }
    let i = match find_entry(&report.bundle_entries, &p) {
        Some(i) => i,
        None => {
            return Err(C05Error::ChildNotFound);
        },
    };
    let entry = &report.bundle_entries[i];
    assert(report@.entries[i as int] == entry.entry_view());
    proof {
        entry.lemma_entry_content();
    }
    if entry.size() > limits.max_materialized_bytes {
        return Err(C05Error::MaterializationTooLarge);
    }
    let digest = sha256_hex(entry.bytes());
    let recorded: &String = entry.digest_text();
    if digest != *recorded {
        return Err(C05Error::ReportIntegrityMismatch);
    }
    let bytes = vstd::slice::slice_to_vec(entry.bytes());
    Ok(
        MediatekMaterialization::from_parts(
            entry.path_text().clone(),
            owned("mediatek.firmware.bundle_component"),
            report.source_revision_ref.duplicate(),
            recorded.clone(),
            bytes,
        ),
    )
}

} // verus!
