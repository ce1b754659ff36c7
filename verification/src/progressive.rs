//! Progressive decomposition: type detection at the first level, then archive inventory and
//! recovered members when detectors agree on a configured archive type and a backend is present.
use vstd::prelude::*;
use crate::archive_model::DecompositionOutcome;
use crate::archive_policy::{decompose, ArchiveBackend, DecompositionPlan, DecompositionSpec};
use crate::digest::{sha256_hex, sha256_hex_of};
use crate::partition_map::{copy_strings, push_string, string_views};
use crate::text::{numbered_message, owned};
use crate::text_ops::{
    contains_text, dedup_strings, id_fault_spec, join_spec, join_strings, normalize_type, normalize_type_spec, IdFaultView,
};
use crate::typing::{
    append_child_metadata, assess_type, assessment_spec, logical_parent, normalize_archive_types, parent_spec,
    root_metadata, validate_detector_ids, AgreementView, AssessmentView, B02Error, ChildRelationship,
    ProgressiveLevel, ProgressiveReport, SignalView, TypeAgreement, TypeAssessment, TypeDetector,
};

verus! {

/// A progressive decomposition request.
#[derive(Debug)]
pub struct ProgressiveSpec {
    /// Optional caller-declared type, compared with detector evidence and never trusted blindly.
    pub declared_type: Option<String>,
    /// Maximum progressive level requested.
    pub requested_level: ProgressiveLevel,
    /// Types that may be handed to the archive decomposer.
    pub archive_media_types: Vec<String>,
    /// Authority, source identity and resource policy of the archive decomposition.
    pub archive_spec: DecompositionSpec,
}

/// Rank of a level.
pub open spec fn level_rank(l: ProgressiveLevel) -> int {
    match l {
        ProgressiveLevel::L0 => 0,
        ProgressiveLevel::L1 => 1,
        ProgressiveLevel::L2 => 2,
        ProgressiveLevel::L3 => 3,
    }
}

/// Unsupported region recorded when no detector established a type.
pub open spec fn no_agreed_note() -> Seq<char> {
    "no detector established an agreed source type"@
}

/// Unsupported region recorded when detectors disagree.
pub open spec fn disputed_note(types: Seq<Seq<char>>) -> Seq<char> {
    "detector disagreement prevents decomposer selection: "@ + join_spec(types, ", "@)
}

/// Unsupported region recorded when the agreed type has no configured decomposer.
pub open spec fn unregistered_note(t: Seq<char>) -> Seq<char> {
    "no B02 decomposer is registered for agreed type "@ + t
}

/// Unsupported region recorded when no archive backend is supplied.
pub open spec fn no_backend_note(t: Seq<char>) -> Seq<char> {
    "archive decomposer unavailable for agreed type "@ + t
}

/// The declared type, normalized.
pub open spec fn declared_spec(d: Option<String>) -> Option<Seq<char>> {
    match d {
        Some(s) => Some(normalize_type_spec(s@)),
        None => None,
    }
}

/// Whether every child names its logical parent.
pub open spec fn children_parented(cs: Seq<ChildRelationship>) -> bool {
    forall|i: int|
        0 <= i < cs.len() ==> crate::partition_map::opt_view((#[trigger] cs[i]).parent_path) == parent_spec(
            cs[i].child_path@,
        )
}

/// Note recorded where recursion stops at a child that could itself be decomposed.
pub open spec fn boundary_note(max_depth: u32, path: Seq<char>) -> Seq<char> {
    "recursion limit "@ + crate::text::decimal(max_depth as nat) + " reached at decomposable child "@ + path
}

/// A child sits at the recursion limit and detectors agree it is a configured archive type.
pub open spec fn at_boundary(c: ChildRelationship, max_depth: u32, types: Seq<Seq<char>>) -> bool {
    c.depth >= max_depth && match c.type_assessment {
        Some(a) => match a@.agreement {
            AgreementView::Agreed(t) => types.contains(t),
            _ => false,
        },
        None => false,
    }
}

/// Boundary notes of the children, in order.
pub open spec fn boundary_notes(cs: Seq<ChildRelationship>, max_depth: u32, types: Seq<Seq<char>>) -> Seq<Seq<char>>
    decreases cs.len(),
{
    if cs.len() == 0 {
        Seq::empty()
    } else {
        boundary_notes(cs.drop_last(), max_depth, types) + if at_boundary(cs.last(), max_depth, types) {
            seq![boundary_note(max_depth, cs.last().child_path@)]
        } else {
            Seq::empty()
        }
    }
}

fn recursion_boundaries(report: &mut ProgressiveReport, max_depth: u32, archive_types: &Vec<String>)
    ensures
        final(report).children@ == old(report).children@,
        final(report).source_sha256 == old(report).source_sha256,
        final(report).requested_level == old(report).requested_level,
        final(report).achieved_level == old(report).achieved_level,
        final(report).type_assessment == old(report).type_assessment,
        final(report).archive_outcome == old(report).archive_outcome,
        final(report).warnings@ == old(report).warnings@,
        final(report).searchable_metadata@ == old(report).searchable_metadata@,
        string_views(final(report).unsupported_regions@) == string_views(old(report).unsupported_regions@)
            + boundary_notes(old(report).children@, max_depth, string_views(archive_types@)),
        string_views(final(report).limitations@) == string_views(old(report).limitations@) + boundary_notes(
            old(report).children@,
            max_depth,
            string_views(archive_types@),
        ),
{
    let ghost cs = report.children@;
    let ghost types = string_views(archive_types@);
    let ghost u0 = string_views(report.unsupported_regions@);
    let ghost l0 = string_views(report.limitations@);
    let mut i: usize = 0;
    assert(cs.take(0) =~= Seq::<ChildRelationship>::empty());
    assert(u0 + Seq::<Seq<char>>::empty() =~= u0);
    assert(l0 + Seq::<Seq<char>>::empty() =~= l0);
    while i < report.children.len()
        invariant
            i <= report.children@.len(),
            cs == report.children@,
            cs == old(report).children@,
            types == string_views(archive_types@),
            report.source_sha256 == old(report).source_sha256,
            report.requested_level == old(report).requested_level,
            report.achieved_level == old(report).achieved_level,
            report.type_assessment == old(report).type_assessment,
            report.archive_outcome == old(report).archive_outcome,
            report.warnings@ == old(report).warnings@,
            report.searchable_metadata@ == old(report).searchable_metadata@,
            u0 == string_views(old(report).unsupported_regions@),
            l0 == string_views(old(report).limitations@),
            string_views(report.unsupported_regions@) == u0 + boundary_notes(cs.take(i as int), max_depth, types),
            string_views(report.limitations@) == l0 + boundary_notes(cs.take(i as int), max_depth, types),
        decreases report.children.len() - i,
    {
        let ghost before_u = string_views(report.unsupported_regions@);
        let ghost before_l = string_views(report.limitations@);
        assert(cs.take(i as int + 1).drop_last() =~= cs.take(i as int));
        assert(cs.take(i as int + 1).last() == cs[i as int]);
        let child = &report.children[i];
        let mut hit = false;
        if child.depth >= max_depth {
            match &child.type_assessment {
                Some(a) => match &a.agreement {
                    TypeAgreement::Agreed(t) => {
                        if contains_text(archive_types, t) {
                            hit = true;
                        }
                    },
                    _ => {},
                },
                None => {},
            }
        }
        assert(hit == at_boundary(cs[i as int], max_depth, types));
        if hit {
            let mut reason = numbered_message("recursion limit ", max_depth as u64, " reached at decomposable child ");
            reason.append(report.children[i].child_path.as_str());
            assert(reason@ == boundary_note(max_depth, cs[i as int].child_path@));
            let copy = reason.clone();
            push_string(&mut report.unsupported_regions, reason);
            push_string(&mut report.limitations, copy);
            assert(string_views(report.unsupported_regions@) =~= u0 + boundary_notes(
                cs.take(i as int + 1),
                max_depth,
                types,
            ));
            assert(string_views(report.limitations@) =~= l0 + boundary_notes(cs.take(i as int + 1), max_depth, types));
        } else {
            assert(string_views(report.unsupported_regions@) =~= u0 + boundary_notes(
                cs.take(i as int + 1),
                max_depth,
                types,
            ));
            assert(string_views(report.limitations@) =~= l0 + boundary_notes(cs.take(i as int + 1), max_depth, types));
        }
        i = i + 1;
    }
    assert(cs.take(cs.len() as int) =~= cs);
}

fn append_strings(dst: &mut Vec<String>, src: &Vec<String>)
    ensures
        string_views(final(dst)@) == string_views(old(dst)@) + string_views(src@),
{
    let ghost base = string_views(dst@);
    let mut i: usize = 0;
    while i < src.len()
        invariant
            i <= src@.len(),
            string_views(dst@) == base + string_views(src@).take(i as int),
        decreases src.len() - i,
    {
        push_string(dst, src[i].clone());
        assert(string_views(src@).take(i as int + 1) =~= string_views(src@).take(i as int).push(src@[i as int]@));
        i = i + 1;
    }
    assert(string_views(src@).take(src@.len() as int) =~= string_views(src@));
}

fn apply_archive_plan(
    report: &mut ProgressiveReport,
    plan: &DecompositionPlan,
    detectors: &[&dyn TypeDetector],
    archive_types: &Vec<String>,
    requested_level: ProgressiveLevel,
)
    requires
        old(report).children@.len() == 0,
    ensures
        final(report).archive_outcome == Some(plan.outcome),
        final(report).children@.len() == plan.inventory@.len(),
        children_parented(final(report).children@),
        final(report).achieved_level == if plan.inventory@.len() == 0 {
            ProgressiveLevel::L1
        } else if requested_level == ProgressiveLevel::L2 || plan.recovered_members@.len() == 0 {
            ProgressiveLevel::L2
        } else {
            ProgressiveLevel::L3
        },
        final(report).source_sha256 == old(report).source_sha256,
        final(report).requested_level == old(report).requested_level,
        final(report).type_assessment == old(report).type_assessment,
        forall|i: int|
            0 <= i < plan.inventory@.len() ==> (#[trigger] final(report).children@[i]).child_path@
                == plan.inventory@[i].logical_path@ && final(report).children@[i].kind == plan.inventory@[i].kind
                && final(report).children@[i].depth == plan.inventory@[i].depth && final(report).children@[i].byte_size
                == plan.inventory@[i].byte_size,
{
    report.archive_outcome = Some(plan.outcome);
    append_strings(&mut report.warnings, &plan.warnings);
    append_strings(&mut report.limitations, &plan.limitations);
    append_strings(&mut report.unsupported_regions, &plan.unknown_gaps);
    let mut index: usize = 0;
    while index < plan.inventory.len()
        invariant
            index <= plan.inventory@.len(),
            report.children@.len() == index,
            report.archive_outcome == Some(plan.outcome),
            report.source_sha256 == old(report).source_sha256,
            report.requested_level == old(report).requested_level,
            report.type_assessment == old(report).type_assessment,
            children_parented(report.children@),
            forall|i: int|
                0 <= i < index ==> (#[trigger] report.children@[i]).child_path@ == plan.inventory@[i].logical_path@
                    && report.children@[i].kind == plan.inventory@[i].kind && report.children@[i].depth
                    == plan.inventory@[i].depth && report.children@[i].byte_size == plan.inventory@[i].byte_size,
        decreases plan.inventory.len() - index,
    {
        let entry = &plan.inventory[index];
        let parent_path = logical_parent(entry.logical_path.as_str());
        let mut found: Option<usize> = None;
        let mut k: usize = 0;
        while k < plan.recovered_members.len()
            invariant
                k <= plan.recovered_members@.len(),
                found matches Some(j) ==> j < plan.recovered_members@.len(),
            decreases plan.recovered_members.len() - k,
        {
            if plan.recovered_members[k].inventory_index == index {
                found = Some(k);
            }
            k = k + 1;
        }
        let type_assessment = match found {
            Some(j) => Some(assess_type(plan.recovered_members[j].bytes.as_slice(), None, detectors)),
            None => None,
        };
        let child = ChildRelationship {
            parent_path,
            child_path: entry.logical_path.clone(),
            kind: entry.kind,
            depth: entry.depth,
            byte_size: entry.byte_size,
            sha256: match &entry.member_sha256 {
                Some(d) => Some(d.clone()),
                None => None,
            },
            type_assessment,
        };
        append_child_metadata(&mut report.searchable_metadata, &child);
        let ghost before = report.children@;
        let ghost cv = child;
        report.children.push(child);
        assert(report.children@ == before.push(cv));
        proof {
            lemma_parented_push(before, cv);
        }
        index = index + 1;
    }
    if requested_level == ProgressiveLevel::L3 {
        recursion_boundaries(report, plan.budget_request.max_depth, archive_types);
    }
    report.achieved_level = if plan.inventory.len() == 0 {
        ProgressiveLevel::L1
    } else if requested_level == ProgressiveLevel::L2 || plan.recovered_members.len() == 0 {
        ProgressiveLevel::L2
    } else {
        ProgressiveLevel::L3
    };
    dedup_strings(&mut report.unsupported_regions);
    dedup_strings(&mut report.warnings);
    dedup_strings(&mut report.limitations);
}

proof fn lemma_parented_push(before: Seq<ChildRelationship>, child: ChildRelationship)
    requires
        children_parented(before),
        crate::partition_map::opt_view(child.parent_path) == parent_spec(child.child_path@),
    ensures
        children_parented(before.push(child)),
{
    assert forall|i: int| 0 <= i < before.push(child).len() implies crate::partition_map::opt_view(
        (#[trigger] before.push(child)[i]).parent_path,
    ) == parent_spec(before.push(child)[i].child_path@) by {
        if i < before.len() {
            assert(before.push(child)[i] == before[i]);
        }
    }
}

fn empty_report(source_sha256: String, requested_level: ProgressiveLevel, type_assessment: TypeAssessment) -> (r:
    ProgressiveReport)
    ensures
        r.source_sha256 == source_sha256,
        r.requested_level == requested_level,
        r.achieved_level == ProgressiveLevel::L1,
        r.type_assessment == type_assessment,
        r.children@.len() == 0,
        string_views(r.unsupported_regions@) == Seq::<Seq<char>>::empty(),
        r.archive_outcome is None,
        crate::typing::meta_views(r.searchable_metadata@) == crate::typing::root_metadata_spec(type_assessment@),
{
    let searchable_metadata = root_metadata(&type_assessment);
    let r = ProgressiveReport {
        source_sha256,
        requested_level,
        achieved_level: ProgressiveLevel::L1,
        type_assessment,
        children: Vec::new(),
        searchable_metadata,
        unsupported_regions: Vec::new(),
        warnings: Vec::new(),
        limitations: Vec::new(),
        archive_outcome: None,
    };
    assert(string_views(r.unsupported_regions@) =~= Seq::<Seq<char>>::empty());
    r
}

/// What a successful progressive decomposition reports for `source` under `spec`, with
/// `detectors` and an archive backend given or not.
pub open spec fn progressive_report_ok(
    rep: ProgressiveReport,
    source_bytes: Seq<u8>,
    spec: ProgressiveSpec,
    detectors: Seq<&dyn TypeDetector>,
    backend_given: bool,
) -> bool {
            &&& rep.source_sha256@ == sha256_hex_of(source_bytes)
            &&& rep.requested_level == spec.requested_level
            &&& level_rank(rep.achieved_level) <= level_rank(spec.requested_level) || spec.requested_level
                == ProgressiveLevel::L0 && rep.achieved_level == ProgressiveLevel::L0
            &&& children_parented(rep.children@)
            &&& (spec.requested_level == ProgressiveLevel::L0 ==> {
                &&& rep.achieved_level == ProgressiveLevel::L0
                &&& rep.type_assessment@ == (AssessmentView {
                    declared_type: declared_spec(spec.declared_type),
                    evidence: Seq::empty(),
                    agreement: AgreementView::Unknown,
                    declared_matches: None,
                })
                &&& rep.children@.len() == 0
                &&& rep.archive_outcome is None
            })
            &&& (spec.requested_level != ProgressiveLevel::L0 ==> exists|
                answers: Seq<(Seq<char>, Result<Option<SignalView>, Seq<char>>)>,
            |
                crate::typing::detector_answers_from(detectors, source_bytes, answers) && rep.type_assessment@
                    == #[trigger] assessment_spec(
                    declared_spec(spec.declared_type),
                    answers,
                ))
            &&& (spec.requested_level == ProgressiveLevel::L1 ==> rep.achieved_level == ProgressiveLevel::L1
                && rep.children@.len() == 0 && rep.archive_outcome is None)
            &&& (level_rank(spec.requested_level) >= 2 ==> match rep.type_assessment@.agreement {
                AgreementView::Unknown => string_views(rep.unsupported_regions@) == seq![no_agreed_note()]
                    && rep.archive_outcome is None && rep.achieved_level == ProgressiveLevel::L1,
                AgreementView::Disputed(ts) => string_views(rep.unsupported_regions@) == seq![disputed_note(ts)]
                    && rep.archive_outcome is None && rep.achieved_level == ProgressiveLevel::L1,
                AgreementView::Agreed(t) => if !crate::text_ops::dedup_spec(
                    crate::typing::normalized_types(string_views(spec.archive_media_types@)),
                ).contains(t) {
                    string_views(rep.unsupported_regions@) == seq![unregistered_note(t)] && rep.archive_outcome is None
                } else if !backend_given {
                    string_views(rep.unsupported_regions@) == seq![no_backend_note(t)] && rep.archive_outcome is None
                } else {
                    rep.archive_outcome is Some && (rep.achieved_level == ProgressiveLevel::L1 <==> rep.children@.len()
                        == 0)
                },
            })
        }

/// A detector-identity failure.
pub open spec fn id_error(r: Result<ProgressiveReport, B02Error>) -> bool {
    r matches Err(B02Error::EmptyDetectorId) || r matches Err(B02Error::DuplicateDetectorId(_))
}

/// The result agrees with the first fault among the detector identities: none exactly when no
/// identity error is returned, otherwise that error.
pub open spec fn id_outcome(r: Result<ProgressiveReport, B02Error>, f: Option<IdFaultView>) -> bool {
    match f {
        None => !id_error(r),
        Some(IdFaultView::Empty) => r matches Err(B02Error::EmptyDetectorId),
        Some(IdFaultView::Duplicate(t)) => r matches Err(B02Error::DuplicateDetectorId(x)) && x@ == t,
    }
}

/// Some configured archive type is empty once normalized.
pub open spec fn some_type_empty(spec: ProgressiveSpec) -> bool {
    exists|i: int|
        0 <= i < spec.archive_media_types@.len() && (#[trigger] crate::typing::normalized_types(
            string_views(spec.archive_media_types@),
        )[i]).len() == 0
}

fn progressive_checked<B: ArchiveBackend>(
    source_bytes: &[u8],
    spec: &ProgressiveSpec,
    detectors: &[&dyn TypeDetector],
    archive_types: Vec<String>,
    archive_backend: Option<&B>,
) -> (r: Result<ProgressiveReport, B02Error>)
    requires
        string_views(archive_types@) == crate::text_ops::dedup_spec(
            crate::typing::normalized_types(string_views(spec.archive_media_types@)),
        ),
    ensures
        r matches Err(e) ==> e is Archive && archive_backend is Some && level_rank(spec.requested_level) >= 2,
        r matches Err(B02Error::Archive(e)) ==> e is InvalidBudget || e is SourceMismatch
            || crate::archive_policy::backend_error(archive_backend->0, e),
        r matches Ok(rep) ==> progressive_report_ok(rep, source_bytes@, *spec, detectors@, archive_backend is Some),
{
    let source_sha256 = sha256_hex(source_bytes);
    let declared = match &spec.declared_type {
        Some(d) => Some(normalize_type(d.as_str())),
        None => None,
    };
    assert(crate::partition_map::opt_view(declared) == declared_spec(spec.declared_type));
    if spec.requested_level == ProgressiveLevel::L0 {
        let ta = TypeAssessment {
            declared_type: declared,
            detector_evidence: Vec::new(),
            agreement: TypeAgreement::Unknown,
            declared_matches_agreed_type: None,
        };
        assert(crate::typing::evidence_views(ta.detector_evidence@) =~= Seq::<crate::typing::EvidenceView>::empty());
        let mut report = empty_report(source_sha256, spec.requested_level, ta);
        report.achieved_level = ProgressiveLevel::L0;
        return Ok(report);
    }
    let ta = assess_type(source_bytes, declared, detectors);
    let mut report = empty_report(source_sha256, spec.requested_level, ta);
    if spec.requested_level == ProgressiveLevel::L1 {
        return Ok(report);
    }
    let agreed = match &report.type_assessment.agreement {
        TypeAgreement::Agreed(t) => t.clone(),
        TypeAgreement::Unknown => {
            push_string(&mut report.unsupported_regions, owned("no detector established an agreed source type"));
            return Ok(report);
        },
        TypeAgreement::Disputed(ts) => {
            let mut note = owned("detector disagreement prevents decomposer selection: ");
            let joined = join_strings(ts, ", ");
            note.append(joined.as_str());
            push_string(&mut report.unsupported_regions, note);
            return Ok(report);
        },
    };
    if !contains_text(&archive_types, &agreed) {
        let mut note = owned("no B02 decomposer is registered for agreed type ");
        note.append(agreed.as_str());
        push_string(&mut report.unsupported_regions, note);
        return Ok(report);
    }
    let backend = match archive_backend {
        None => {
            let mut note = owned("archive decomposer unavailable for agreed type ");
            note.append(agreed.as_str());
            push_string(&mut report.unsupported_regions, note);
            return Ok(report);
        },
        Some(b) => b,
    };
    let mut budget = spec.archive_spec.budget;
    let level = if spec.requested_level == ProgressiveLevel::L2 {
        budget.max_depth = 0;
        owned("L2_inventoried")
    } else {
        owned("L3_decomposed")
    };
    let archive_spec = DecompositionSpec {
        workspace_ref: spec.archive_spec.workspace_ref.duplicate(),
        authority_ref: spec.archive_spec.authority_ref.duplicate(),
        source_revision_ref: spec.archive_spec.source_revision_ref.duplicate(),
        budget,
        requested_level: level,
    };
    let plan = match decompose(source_bytes, &archive_spec, backend) {
        Ok(p) => p,
        Err(e) => {
            return Err(B02Error::Archive(e));
        },
    };
    apply_archive_plan(&mut report, &plan, detectors, &archive_types, spec.requested_level);
    Ok(report)
}

/// Progressive type detection and decomposition over immutable source bytes.
///
/// Detector identities and archive type tokens are validated first. Level L0 reports only the
/// normalized declared type. From L1 on, the type assessment is `assessment_spec` of what the
/// detectors answered. From L2 on, archive decomposition runs only when detectors agree on a
/// configured archive type and a backend is supplied; otherwise the reason is recorded as the
/// single unsupported region and the report stays at L1. Conflicting detector types are never
/// resolved by choice.
/// Detector identities and archive types are checked first: the result is the first identity
/// fault among the identities the detectors report, then `EmptyArchiveMediaType` exactly when a
/// configured type is empty once normalized. After that only archive decomposition can fail, so
/// success is owed whenever no backend is given or the level is below L2.
pub fn progressive_decompose<B: ArchiveBackend>(
    source_bytes: &[u8],
    spec: &ProgressiveSpec,
    detectors: &[&dyn TypeDetector],
    archive_backend: Option<&B>,
) -> (r: Result<ProgressiveReport, B02Error>)
    ensures
        exists|ids: Seq<Seq<char>>|
            crate::typing::detector_ids_from(detectors@, ids) && id_outcome(r, #[trigger] id_fault_spec(ids)),
        !id_error(r) ==> (r matches Err(B02Error::EmptyArchiveMediaType) <==> some_type_empty(*spec)),
        !id_error(r) && !some_type_empty(*spec) && !(archive_backend is Some && level_rank(spec.requested_level)
            >= 2) ==> r is Ok,
        r matches Err(B02Error::Archive(_)) ==> archive_backend is Some && level_rank(spec.requested_level) >= 2,
        r matches Err(B02Error::Archive(e)) ==> e is InvalidBudget || e is SourceMismatch
            || crate::archive_policy::backend_error(archive_backend->0, e),
        r matches Ok(rep) ==> progressive_report_ok(rep, source_bytes@, *spec, detectors@, archive_backend is Some),
{
    let checked = validate_detector_ids(detectors);
    let ghost ids = choose|ids: Seq<Seq<char>>|
        crate::typing::detector_ids_from(detectors@, ids) && crate::typing::id_check_agrees(
            checked,
            #[trigger] id_fault_spec(ids),
        );
    if let Err(e) = checked {
        assert(id_outcome(Err(e), id_fault_spec(ids)));
        return Err(e);
    }
    let archive_types = match normalize_archive_types(&spec.archive_media_types) {
        Err(e) => {
            assert(id_outcome(Err(e), id_fault_spec(ids)));
            return Err(e);
        },
        Ok(v) => v,
    };
    let r = progressive_checked(source_bytes, spec, detectors, archive_types, archive_backend);
    assert(id_outcome(r, id_fault_spec(ids)));
    r
}

} // verus!
