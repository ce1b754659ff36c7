//! Static executable inspection under detector type agreement and passive isolation: adapter
//! selection, bounded retention, coverage gaps and embedded-child retention.
use vstd::prelude::*;
use crate::digest::{sha256_hex, sha256_hex_of};
use crate::executable::{
    AdapterEmbeddedChild, AdapterExecutable, B05Error, ChildView, EmbeddedExecutableChild, EmittedChildView,
    ExecFault, ExecOutView, ExecReportView, ExecutableAdapter, ExecutableContext, ExecutableCoverage,
    ExecutableLimits, ExecutableReport, ExecutionAssessment, SectionView, child_views, emitted_child_views,
    exec_metadata_views, exec_output_fault, executable_class_for_type, executable_class_spec,
    executable_limits_valid, section_views, signature_views, static_isolation_safe, validate_executable_output,
    StaticIsolation,
};
use crate::partition_map::{clone_opt_string, copy_strings, opt_view, push_string, string_views};
use crate::text::owned;
use crate::text_ops::{
    dedup_spec, dedup_strings, first_id_fault, id_fault_spec, join_spec, join_strings, normalize_type,
    normalize_type_spec, trim_spec, trimmed, IdFault, IdFaultView,
};
use crate::typing::{AgreementView, TypeAgreement, TypeAssessment};

verus! {

/// A report with a recorded gap, no longer claiming completeness.
pub open spec fn exec_gap(r: ExecReportView, g: Seq<char>) -> ExecReportView {
    ExecReportView { complete: false, gaps: r.gaps.push(g), ..r }
}

fn mark_gap(report: &mut ExecutableReport, reason: String)
    ensures
        final(report)@ == exec_gap(old(report)@, reason@),
{
    report.coverage.complete_claim = false;
    push_string(&mut report.coverage.unknown_regions, reason);
}

/// Gap recorded when a list exceeded its retention bound.
pub open spec fn retention_gap(label: Seq<char>) -> Seq<char> {
    "B05 "@ + label + " exceeded retention policy"@
}

/// Retained lists after bounding: each list cut to its limit, with a gap per exceeded list.
pub open spec fn retain_lists_spec(r: ExecReportView, o: ExecOutView, l: ExecutableLimits) -> ExecReportView {
    let r1 = if o.metadata.len() > l.max_metadata_fields {
        exec_gap(
            ExecReportView { metadata: o.metadata.take(l.max_metadata_fields as int), ..r },
            retention_gap("metadata fields"@),
        )
    } else {
        ExecReportView { metadata: o.metadata, ..r }
    };
    let r2 = if o.sections.len() > l.max_sections {
        exec_gap(ExecReportView { sections: o.sections.take(l.max_sections as int), ..r1 }, retention_gap("sections"@))
    } else {
        ExecReportView { sections: o.sections, ..r1 }
    };
    let r3 = if o.imports.len() > l.max_imports {
        exec_gap(ExecReportView { imports: o.imports.take(l.max_imports as int), ..r2 }, retention_gap("imports"@))
    } else {
        ExecReportView { imports: o.imports, ..r2 }
    };
    let r4 = if o.exports.len() > l.max_exports {
        exec_gap(ExecReportView { exports: o.exports.take(l.max_exports as int), ..r3 }, retention_gap("exports"@))
    } else {
        ExecReportView { exports: o.exports, ..r3 }
    };
    if o.signatures.len() > l.max_signatures {
        exec_gap(
            ExecReportView { signatures: o.signatures.take(l.max_signatures as int), ..r4 },
            retention_gap("signature observations"@),
        )
    } else {
        ExecReportView { signatures: o.signatures, ..r4 }
    }
}

/// A gap per retained packed or statically unknown section, in order.
pub open spec fn packed_fold(r: ExecReportView, ss: Seq<SectionView>, n: int) -> ExecReportView
    decreases n,
{
    if n <= 0 {
        r
    } else {
        let r1 = packed_fold(r, ss, n - 1);
        if ss[n - 1].4 {
            exec_gap(r1, "section "@ + ss[n - 1].0 + " is packed or statically unknown"@)
        } else {
            r1
        }
    }
}

/// One emitted child: a gap when it is too large alone or together with earlier children,
/// otherwise retained with its normalized type, digest and source revision.
pub open spec fn child_step(r: ExecReportView, c: EmittedChildView, l: ExecutableLimits, rev: (Seq<char>, Seq<char>)) -> Result<
    ExecReportView,
    ExecFault,
> {
    if c.2.len() > l.max_child_bytes {
        Ok(exec_gap(r, "embedded child "@ + c.0 + " exceeded max_child_bytes"@))
    } else if r.child_bytes + c.2.len() > u64::MAX {
        Err(ExecFault::AccountingOverflow)
    } else if r.child_bytes + c.2.len() > l.max_total_child_bytes {
        Ok(exec_gap(r, "embedded child "@ + c.0 + " exceeded aggregate child-byte policy"@))
    } else {
        Ok(
            ExecReportView {
                child_bytes: (r.child_bytes + c.2.len()) as u64,
                children: r.children.push((c.0, normalize_type_spec(c.1), c.2, sha256_hex_of(c.2), rev)),
                ..r
            },
        )
    }
}

/// The first `n` emitted children applied in order.
pub open spec fn children_fold(
    r: ExecReportView,
    cs: Seq<EmittedChildView>,
    n: int,
    l: ExecutableLimits,
    rev: (Seq<char>, Seq<char>),
) -> Result<ExecReportView, ExecFault>
    decreases n,
{
    if n <= 0 {
        Ok(r)
    } else {
        match children_fold(r, cs, n - 1, l, rev) {
            Err(e) => Err(e),
            Ok(r1) => child_step(r1, cs[n - 1], l, rev),
        }
    }
}

/// Emitted children retained up to `max_children`, with a gap when more were emitted.
pub open spec fn children_spec(r: ExecReportView, cs: Seq<EmittedChildView>, l: ExecutableLimits, rev: (Seq<char>, Seq<char>)) -> Result<
    ExecReportView,
    ExecFault,
> {
    let n = if cs.len() > l.max_children { l.max_children as int } else { cs.len() as int };
    match children_fold(r, cs, n, l, rev) {
        Err(e) => Err(e),
        Ok(r1) => Ok(if cs.len() > l.max_children { exec_gap(r1, "embedded children exceeded max_children"@) } else { r1 }),
    }
}

/// The report after applying validated adapter output.
#[verifier::opaque]
pub open spec fn apply_spec(
    base: ExecReportView,
    o: ExecOutView,
    id: Seq<char>,
    len: int,
    l: ExecutableLimits,
    rev: (Seq<char>, Seq<char>),
) -> Result<ExecReportView, ExecFault> {
    let r1 = ExecReportView {
        adapter_id: Some(id),
        complete: o.complete,
        observed: o.observed,
        gaps: base.gaps + o.unknown,
        warnings: o.warnings,
        limitations: o.limitations,
        ..base
    };
    let r2 = retain_lists_spec(r1, o, l);
    let r3 = if r2.observed < len {
        exec_gap(r2, "static Provider inspected only part of the immutable source bytes"@)
    } else {
        r2
    };
    let r4 = packed_fold(r3, r3.sections, r3.sections.len() as int);
    let r5 = if !r4.complete && r4.gaps.len() == 0 {
        exec_gap(r4, "static Provider reported partial supported coverage"@)
    } else {
        r4
    };
    match children_spec(r5, o.children, l, rev) {
        Err(e) => Err(e),
        Ok(r6) => {
            let r7 = if r6.gaps.len() > 0 { ExecReportView { complete: false, ..r6 } } else { r6 };
            Ok(
                ExecReportView {
                    gaps: dedup_spec(r7.gaps),
                    warnings: dedup_spec(r7.warnings),
                    limitations: dedup_spec(r7.limitations),
                    ..r7
                },
            )
        },
    }
}

fn retain_stage(report: &mut ExecutableReport, output: AdapterExecutable, limits: ExecutableLimits) -> (r: Vec<
    AdapterEmbeddedChild,
>)
    ensures
        final(report)@ == retain_lists_spec(old(report)@, output@, limits),
        emitted_child_views(r@) == output@.children,
{
    let ghost o = output@;
    let AdapterExecutable {
        mut metadata,
        mut sections,
        mut imports,
        mut exports,
        mut signatures,
        children,
        observed_source_bytes,
        complete_claim,
        unknown_regions,
        warnings,
        limitations,
    } = output;
    let n1 = metadata.len();
    let ghost m0 = metadata@;
    metadata.truncate(limits.max_metadata_fields);
    assert(exec_metadata_views(metadata@) =~= if n1 > limits.max_metadata_fields {
        o.metadata.take(limits.max_metadata_fields as int)
    } else {
        o.metadata
    });
    report.metadata = metadata;
    if n1 > limits.max_metadata_fields {
        mark_gap(report, owned("B05 metadata fields exceeded retention policy"));
    }
    let n2 = sections.len();
    sections.truncate(limits.max_sections);
    assert(section_views(sections@) =~= if n2 > limits.max_sections {
        o.sections.take(limits.max_sections as int)
    } else {
        o.sections
    });
    report.sections = sections;
    if n2 > limits.max_sections {
        mark_gap(report, owned("B05 sections exceeded retention policy"));
    }
    let n3 = imports.len();
    imports.truncate(limits.max_imports);
    assert(string_views(imports@) =~= if n3 > limits.max_imports {
        o.imports.take(limits.max_imports as int)
    } else {
        o.imports
    });
    report.imports = imports;
    if n3 > limits.max_imports {
        mark_gap(report, owned("B05 imports exceeded retention policy"));
    }
    let n4 = exports.len();
    exports.truncate(limits.max_exports);
    assert(string_views(exports@) =~= if n4 > limits.max_exports {
        o.exports.take(limits.max_exports as int)
    } else {
        o.exports
    });
    report.exports = exports;
    if n4 > limits.max_exports {
        mark_gap(report, owned("B05 exports exceeded retention policy"));
    }
    let n5 = signatures.len();
    signatures.truncate(limits.max_signatures);
    assert(signature_views(signatures@) =~= if n5 > limits.max_signatures {
        o.signatures.take(limits.max_signatures as int)
    } else {
        o.signatures
    });
    report.signatures = signatures;
    if n5 > limits.max_signatures {
        mark_gap(report, owned("B05 signature observations exceeded retention policy"));
    }
    proof {
        reveal_strlit("B05 ");
        reveal_strlit(" exceeded retention policy");
        reveal_strlit("metadata fields");
        reveal_strlit("sections");
        reveal_strlit("imports");
        reveal_strlit("exports");
        reveal_strlit("signature observations");
        reveal_strlit("B05 metadata fields exceeded retention policy");
        reveal_strlit("B05 sections exceeded retention policy");
        reveal_strlit("B05 imports exceeded retention policy");
        reveal_strlit("B05 exports exceeded retention policy");
        reveal_strlit("B05 signature observations exceeded retention policy");
        assert(retention_gap("metadata fields"@) =~= "B05 metadata fields exceeded retention policy"@);
        assert(retention_gap("sections"@) =~= "B05 sections exceeded retention policy"@);
        assert(retention_gap("imports"@) =~= "B05 imports exceeded retention policy"@);
        assert(retention_gap("exports"@) =~= "B05 exports exceeded retention policy"@);
        assert(retention_gap("signature observations"@) =~= "B05 signature observations exceeded retention policy"@);
    }
    children
}

fn packed_stage(report: &mut ExecutableReport)
    ensures
        final(report)@ == packed_fold(old(report)@, old(report)@.sections, old(report)@.sections.len() as int),
{
    let ghost r0 = report@;
    let ghost ss = report@.sections;
    let mut names: Vec<String> = Vec::new();
    let mut flags: Vec<bool> = Vec::new();
    let mut i: usize = 0;
    while i < report.sections.len()
        invariant
            i <= report.sections@.len(),
            ss == section_views(report.sections@),
            names@.len() == i,
            flags@.len() == i,
            forall|j: int| 0 <= j < i ==> names@[j]@ == (#[trigger] ss[j]).0 && flags@[j] == ss[j].4,
        decreases report.sections.len() - i,
    {
        assert(ss[i as int] == (
            report.sections@[i as int].name@,
            report.sections@[i as int].offset,
            report.sections@[i as int].size,
            string_views(report.sections@[i as int].flags@),
            report.sections@[i as int].packed_or_unknown,
        ));
        names.push(report.sections[i].name.clone());
        flags.push(report.sections[i].packed_or_unknown);
        i = i + 1;
    }
    let n = names.len();
    let mut k: usize = 0;
    while k < n
        invariant
            k <= n == names@.len() == flags@.len() == ss.len(),
            forall|j: int| 0 <= j < n ==> names@[j]@ == (#[trigger] ss[j]).0 && flags@[j] == ss[j].4,
            report@ == packed_fold(r0, ss, k as int),
        decreases n - k,
    {
        if flags[k] {
            let mut g = owned("section ");
            g.append(names[k].as_str());
            g.append(" is packed or statically unknown");
            mark_gap(report, g);
        }
        k = k + 1;
    }
}

fn children_stage(
    report: &mut ExecutableReport,
    children: Vec<AdapterEmbeddedChild>,
    limits: ExecutableLimits,
    rev: &crate::identity::EntityRef,
) -> (r: Result<(), B05Error>)
    ensures
        match children_spec(old(report)@, emitted_child_views(children@), limits, rev@) {
            Ok(v) => r is Ok && final(report)@ == v,
            Err(f) => r matches Err(e) && e@ == f,
        },
{
    let ghost cs = emitted_child_views(children@);
    let ghost r0 = report@;
    let produced = children.len();
    let n = if produced > limits.max_children { limits.max_children } else { produced };
    let mut i: usize = 0;
    while i < n
        invariant
            i <= n <= produced == children@.len(),
            n == (if produced > limits.max_children { limits.max_children as int } else { produced as int }),
            cs == emitted_child_views(children@),
            r0 == old(report)@,
            children_fold(r0, cs, i as int, limits, rev@) == Ok::<ExecReportView, ExecFault>(report@),
        decreases n - i,
    {
        let c = &children[i];
        assert(cs[i as int] == (c.logical_path@, c.media_type@, c.bytes@));
        let size = c.bytes.len();
        if size > limits.max_child_bytes {
            let mut g = owned("embedded child ");
            g.append(c.logical_path.as_str());
            g.append(" exceeded max_child_bytes");
            mark_gap(report, g);
        } else {
            let next = match report.coverage.retained_child_bytes.checked_add(size as u64) {
                Some(v) => v,
                None => {
                    proof {
                        lemma_children_err(r0, cs, i as int, n as int, limits, rev@);
                    }
                    return Err(B05Error::AccountingOverflow);
                },
            };
            if next > limits.max_total_child_bytes as u64 {
                let mut g = owned("embedded child ");
                g.append(c.logical_path.as_str());
                g.append(" exceeded aggregate child-byte policy");
                mark_gap(report, g);
            } else {
                report.coverage.retained_child_bytes = next;
                let sha = sha256_hex(c.bytes.as_slice());
                let child = EmbeddedExecutableChild {
                    logical_path: c.logical_path.clone(),
                    media_type: normalize_type(c.media_type.as_str()),
                    bytes: c.bytes.clone(),
                    sha256: sha,
                    source_revision_ref: rev.duplicate(),
                };
                let ghost before = child_views(report.children@);
                report.children.push(child);
                assert(child_views(report.children@) =~= before.push(
                    (child.logical_path@, child.media_type@, child.bytes@, child.sha256@, child.source_revision_ref@),
                ));
            }
        }
        i = i + 1;
    }
    if produced > limits.max_children {
        mark_gap(report, owned("embedded children exceeded max_children"));
    }
    Ok(())
}

proof fn lemma_children_err(
    r0: ExecReportView,
    cs: Seq<EmittedChildView>,
    i: int,
    k: int,
    l: ExecutableLimits,
    rev: (Seq<char>, Seq<char>),
)
    requires
        0 <= i < k,
        children_fold(r0, cs, i, l, rev) is Ok,
        child_step(children_fold(r0, cs, i, l, rev)->Ok_0, cs[i], l, rev) is Err,
    ensures
        children_fold(r0, cs, k, l, rev) == child_step(children_fold(r0, cs, i, l, rev)->Ok_0, cs[i], l, rev),
    decreases k,
{
    if k > i + 1 {
        lemma_children_err(r0, cs, i, k - 1, l, rev);
    }
}


fn apply_stage(
    report: &mut ExecutableReport,
    output: AdapterExecutable,
    id: String,
    source_len: usize,
    limits: ExecutableLimits,
    rev: &crate::identity::EntityRef,
) -> (r: Result<(), B05Error>)
    ensures
        match apply_spec(old(report)@, output@, id@, source_len as int, limits, rev@) {
            Ok(v) => r is Ok && final(report)@ == v,
            Err(f) => r matches Err(e) && e@ == f,
        },
{
    reveal(apply_spec);
    let ghost o = output@;
    let ghost base = report@;
    report.adapter_id = Some(id);
    report.coverage.complete_claim = output.complete_claim;
    report.coverage.observed_source_bytes = output.observed_source_bytes;
    let mut unknown = copy_strings(&output.unknown_regions);
    let ghost g0 = string_views(report.coverage.unknown_regions@);
    report.coverage.unknown_regions.append(&mut unknown);
    assert(string_views(report.coverage.unknown_regions@) =~= g0 + o.unknown);
    report.warnings = copy_strings(&output.warnings);
    report.limitations = copy_strings(&output.limitations);
    let ghost r1 = report@;
    assert(r1 == ExecReportView {
        adapter_id: Some(id@),
        complete: o.complete,
        observed: o.observed,
        gaps: base.gaps + o.unknown,
        warnings: o.warnings,
        limitations: o.limitations,
        ..base
    });
    let children = retain_stage(report, output, limits);
    if report.coverage.observed_source_bytes < source_len as u64 {
        mark_gap(report, owned("static Provider inspected only part of the immutable source bytes"));
    }
    packed_stage(report);
    if !report.coverage.complete_claim && report.coverage.unknown_regions.len() == 0 {
        mark_gap(report, owned("static Provider reported partial supported coverage"));
    }
    match children_stage(report, children, limits, rev) {
        Ok(()) => {},
        Err(e) => {
            return Err(e);
        },
    }
    if report.coverage.unknown_regions.len() != 0 {
        report.coverage.complete_claim = false;
    }
    dedup_strings(&mut report.coverage.unknown_regions);
    dedup_strings(&mut report.warnings);
    dedup_strings(&mut report.limitations);
    Ok(())
}

/// What the adapters answered: every adapter's identity, whether each supports the agreed type,
/// then the selected adapter's identity, isolation and inspection result.
pub type ExecutableAnswers = (Seq<Seq<char>>, Seq<bool>, Seq<char>, StaticIsolation, Result<AdapterExecutable, String>);

/// Number of `true` answers.
pub open spec fn count_yes(s: Seq<bool>) -> nat
    decreases s.len(),
{
    if s.len() == 0 {
        0
    } else {
        count_yes(s.drop_last()) + if s.last() { 1nat } else { 0nat }
    }
}

/// A report with nothing extracted.
pub open spec fn empty_exec_view(sha: Seq<char>, rev: (Seq<char>, Seq<char>), agreed: Option<Seq<char>>) -> ExecReportView {
    ExecReportView {
        sha,
        revision: rev,
        agreed,
        class: None,
        adapter_id: None,
        metadata: Seq::empty(),
        sections: Seq::empty(),
        imports: Seq::empty(),
        exports: Seq::empty(),
        signatures: Seq::empty(),
        children: Seq::empty(),
        complete: false,
        observed: 0,
        gaps: Seq::empty(),
        child_bytes: 0,
        execution: ExecutionAssessment::NotExecuted,
        warnings: Seq::empty(),
        limitations: Seq::empty(),
    }
}

/// Gap recorded when detectors did not agree on a type.
pub open spec fn exec_agreement_gap(a: AgreementView) -> Seq<char> {
    match a {
        AgreementView::Disputed(vs) => "B02 detector disagreement prevents B05 adapter selection: "@ + join_spec(vs, ", "@),
        _ => "B02 did not establish an agreed executable/package type"@,
    }
}

/// The report, or the failure, that inspecting `source` yields given the adapters' answers.
pub open spec fn executable_spec(
    source: Seq<u8>,
    agreement: AgreementView,
    context: ExecutableContext,
    limits: ExecutableLimits,
    answers: ExecutableAnswers,
) -> Result<ExecReportView, ExecFault> {
    let (ids, supports, selected_id, isolation, result) = answers;
    if context.source_revision_ref.entity_kind@ != "object.revision"@ {
        Err(ExecFault::InvalidSourceRevision)
    } else if !executable_limits_valid(limits) {
        Err(ExecFault::InvalidLimits)
    } else if id_fault_spec(ids) is Some {
        match id_fault_spec(ids) {
            Some(IdFaultView::Duplicate(t)) => Err(ExecFault::DuplicateAdapterId(t)),
            _ => Err(ExecFault::EmptyAdapterId),
        }
    } else {
        let rev = context.source_revision_ref@;
        let sha = sha256_hex_of(source);
        match agreement {
            AgreementView::Agreed(v) => {
                let mt = normalize_type_spec(v);
                let base = empty_exec_view(sha, rev, Some(mt));
                match executable_class_spec(mt) {
                    None => Ok(
                        exec_gap(base, "B02 agreed type "@ + mt + " is outside the B05 executable/application-package domain"@),
                    ),
                    Some(class) => {
                        let base2 = ExecReportView { class: Some(class), ..base };
                        if count_yes(supports) > 1 {
                            Err(ExecFault::AmbiguousAdapter(mt))
                        } else if count_yes(supports) == 0 {
                            Ok(exec_gap(base2, "no B05 static-analysis adapter is registered for agreed type "@ + mt))
                        } else {
                            let id = trim_spec(selected_id);
                            if !static_isolation_safe(isolation) {
                                Err(ExecFault::UnsafeAdapterIsolation(id))
                            } else {
                                match result {
                                    Err(e) => Err(ExecFault::AdapterFailed(e@)),
                                    Ok(out) => match exec_output_fault(out@, source.len() as int) {
                                        Some(f) => Err(f),
                                        None => apply_spec(base2, out@, id, source.len() as int, limits, rev),
                                    },
                                }
                            }
                        }
                    },
                }
            },
            _ => Ok(exec_gap(empty_exec_view(sha, rev, None), exec_agreement_gap(agreement))),
        }
    }
}

/// Index of the first `true` answer, or 0 when there is none.
pub open spec fn first_yes(s: Seq<bool>) -> int
    decreases s.len(),
{
    if s.len() == 0 {
        0
    } else if count_yes(s.drop_last()) > 0 {
        first_yes(s.drop_last())
    } else if s.last() {
        s.len() - 1
    } else {
        0
    }
}

proof fn lemma_first_yes_push(s: Seq<bool>, b: bool)
    ensures
        count_yes(s.push(b)) == count_yes(s) + if b { 1nat } else { 0nat },
        count_yes(s) > 0 ==> first_yes(s.push(b)) == first_yes(s),
        count_yes(s) == 0 && b ==> first_yes(s.push(b)) == s.len(),
{
    assert(s.push(b).drop_last() =~= s);
}

fn executable_adapter_ids(adapters: &[&dyn ExecutableAdapter]) -> (ids: Vec<String>)
    ensures
        ids@.len() == adapters@.len(),
        forall|j: int| 0 <= j < ids@.len() ==> adapters@[j].id_post(#[trigger] ids@[j]@),
{
    let mut ids: Vec<String> = Vec::new();
    let mut i: usize = 0;
    while i < adapters.len()
        invariant
            i <= adapters@.len(),
            ids@.len() == i,
            forall|j: int| 0 <= j < i ==> adapters@[j].id_post(#[trigger] ids@[j]@),
        decreases adapters.len() - i,
    {
        let id = adapters[i].adapter_id();
        ids.push(owned(id));
        assert(ids@[i as int]@ == id@);
        i = i + 1;
    }
    ids
}

fn executable_support(adapters: &[&dyn ExecutableAdapter], media_type: &String) -> (r: (usize, usize, Ghost<Seq<bool>>))
    ensures
        r.2@.len() == adapters@.len(),
        r.0 == count_yes(r.2@),
        r.0 > 0 ==> r.1 < adapters@.len() && r.1 == first_yes(r.2@),
        forall|j: int| 0 <= j < r.2@.len() ==> adapters@[j].supports_post(media_type@, #[trigger] r.2@[j]),
{
    let ghost mut supports: Seq<bool> = Seq::empty();
    let mut count: usize = 0;
    let mut selected: usize = 0;
    let mut k: usize = 0;
    while k < adapters.len()
        invariant
            k <= adapters@.len(),
            supports.len() == k,
            count == count_yes(supports),
            count <= k,
            count > 0 ==> selected < adapters@.len() && selected == first_yes(supports),
            forall|j: int| 0 <= j < k ==> adapters@[j].supports_post(media_type@, #[trigger] supports[j]),
        decreases adapters.len() - k,
    {
        let s = adapters[k].supports_media_type(media_type.as_str());
        proof {
            lemma_first_yes_push(supports, s);
            supports = supports.push(s);
        }
        if s {
            if count == 0 {
                selected = k;
            }
            count = count + 1;
        }
        k = k + 1;
    }
    (count, selected, Ghost(supports))
}

/// The answers are ones the adapters may give, for the calls an inspection makes: every
/// adapter's identity; once an executable type is looked up, every adapter's support answer for
/// it; once exactly one adapter supports it, that adapter's identity and isolation; and once that
/// isolation is passive, its inspection of `source` as the agreed type.
pub open spec fn executable_answers_from(
    adapters: Seq<&dyn ExecutableAdapter>,
    source: Seq<u8>,
    agreement: AgreementView,
    context: ExecutableContext,
    limits: ExecutableLimits,
    answers: ExecutableAnswers,
) -> bool {
    let (ids, supports, selected_id, isolation, result) = answers;
    &&& ids.len() == adapters.len()
    &&& forall|i: int| 0 <= i < ids.len() ==> adapters[i].id_post(#[trigger] ids[i])
    &&& match agreement {
        AgreementView::Agreed(v) => {
            let mt = normalize_type_spec(v);
            let lookup = context.source_revision_ref.entity_kind@ == "object.revision"@ && executable_limits_valid(limits)
                && id_fault_spec(ids) is None && executable_class_spec(mt) is Some;
            let sel = first_yes(supports);
            &&& lookup ==> supports.len() == adapters.len() && forall|i: int|
                0 <= i < supports.len() ==> adapters[i].supports_post(mt, #[trigger] supports[i])
            &&& lookup && count_yes(supports) == 1 ==> adapters[sel].id_post(selected_id)
                && adapters[sel].isolation_post(isolation)
            &&& lookup && count_yes(supports) == 1 && static_isolation_safe(isolation) ==> adapters[sel].inspect_post(
                source,
                mt,
                limits,
                result,
            )
        },
        _ => true,
    }
}

/// Whether an inspection result agrees with an expected outcome.
pub open spec fn executable_agrees(r: Result<ExecutableReport, B05Error>, expected: Result<ExecReportView, ExecFault>) -> bool {
    match r {
        Ok(rep) => expected == Ok::<ExecReportView, ExecFault>(rep@),
        Err(e) => expected == Err::<ExecReportView, ExecFault>(e@),
    }
}

fn empty_exec_report(sha: String, context: &ExecutableContext, agreed: Option<String>) -> (r: ExecutableReport)
    ensures
        r@ == empty_exec_view(sha@, context.source_revision_ref@, opt_view(agreed)),
{
    let r = ExecutableReport {
        source_sha256: sha,
        source_revision_ref: context.source_revision_ref.duplicate(),
        agreed_media_type: agreed,
        executable_class: None,
        adapter_id: None,
        metadata: Vec::new(),
        sections: Vec::new(),
        imports: Vec::new(),
        exports: Vec::new(),
        signatures: Vec::new(),
        children: Vec::new(),
        coverage: ExecutableCoverage {
            complete_claim: false,
            observed_source_bytes: 0,
            unknown_regions: Vec::new(),
            retained_child_bytes: 0,
        },
        execution_assessment: ExecutionAssessment::NotExecuted,
        warnings: Vec::new(),
        limitations: Vec::new(),
    };
    assert(r@.metadata =~= Seq::<(Seq<char>, Seq<char>)>::empty());
    assert(r@.sections =~= Seq::<SectionView>::empty());
    assert(r@.imports =~= Seq::<Seq<char>>::empty());
    assert(r@.exports =~= Seq::<Seq<char>>::empty());
    assert(r@.signatures =~= Seq::<crate::executable::SignatureView>::empty());
    assert(r@.children =~= Seq::<ChildView>::empty());
    assert(r@.gaps =~= Seq::<Seq<char>>::empty());
    assert(r@.warnings =~= Seq::<Seq<char>>::empty());
    assert(r@.limitations =~= Seq::<Seq<char>>::empty());
    r
}

/// Inspect one executable or application package under detector type agreement and passive
/// isolation policy. Nothing is executed. The result is `executable_spec` of the answers the
/// adapters gave, whatever they were.
pub fn inspect_executable(
    source_bytes: &[u8],
    type_assessment: &TypeAssessment,
    context: &ExecutableContext,
    limits: ExecutableLimits,
    adapters: &[&dyn ExecutableAdapter],
) -> (r: Result<ExecutableReport, B05Error>)
    ensures
        exists|answers: ExecutableAnswers|
            executable_answers_from(adapters@, source_bytes@, type_assessment@.agreement, *context, limits, answers)
                && executable_agrees(
                r,
                #[trigger] executable_spec(source_bytes@, type_assessment@.agreement, *context, limits, answers),
            ),
{
    let ghost agreement = type_assessment@.agreement;
    let ghost any: ExecutableAnswers = vstd::pervasive::arbitrary();
    let ids = executable_adapter_ids(adapters);
    let ghost idv = string_views(ids@);
    assert(idv.len() == adapters@.len());
    if !context.source_revision_ref.has_kind("object.revision") {
        let ghost ans: ExecutableAnswers = (idv, any.1, any.2, any.3, any.4);
        assert(executable_agrees(Err(B05Error::InvalidSourceRevision), executable_spec(source_bytes@, agreement, *context, limits, ans)));
        return Err(B05Error::InvalidSourceRevision);
    }
    if limits.max_metadata_fields == 0 || limits.max_sections == 0 || limits.max_imports == 0 || limits.max_exports == 0
        || limits.max_signatures == 0 || limits.max_children == 0 || limits.max_child_bytes == 0
        || limits.max_total_child_bytes == 0 {
        let ghost ans: ExecutableAnswers = (idv, any.1, any.2, any.3, any.4);
        assert(executable_agrees(Err(B05Error::InvalidLimits), executable_spec(source_bytes@, agreement, *context, limits, ans)));
        return Err(B05Error::InvalidLimits);
    }
    match first_id_fault(&ids) {
        Some(IdFault::Empty) => {
            let ghost ans: ExecutableAnswers = (idv, any.1, any.2, any.3, any.4);
            assert(executable_agrees(Err(B05Error::EmptyAdapterId), executable_spec(source_bytes@, agreement, *context, limits, ans)));
            return Err(B05Error::EmptyAdapterId);
        },
        Some(IdFault::Duplicate(t)) => {
            let ghost ans: ExecutableAnswers = (idv, any.1, any.2, any.3, any.4);
            assert(executable_agrees(
                Err(B05Error::DuplicateAdapterId(t)),
                executable_spec(source_bytes@, agreement, *context, limits, ans),
            ));
            return Err(B05Error::DuplicateAdapterId(t));
        },
        None => {},
    }
    let source_sha256 = sha256_hex(source_bytes);
    let agreed = match &type_assessment.agreement {
        TypeAgreement::Agreed(v) => Some(normalize_type(v.as_str())),
        _ => None,
    };
    let mut report = empty_exec_report(source_sha256, context, clone_opt_string(&agreed));
    let media_type = match agreed {
        None => {
            let gap = match &type_assessment.agreement {
                TypeAgreement::Disputed(values) => {
                    let mut g = owned("B02 detector disagreement prevents B05 adapter selection: ");
                    let joined = join_strings(values, ", ");
                    g.append(joined.as_str());
                    g
                },
                _ => owned("B02 did not establish an agreed executable/package type"),
            };
            mark_gap(&mut report, gap);
            let ghost ans: ExecutableAnswers = (idv, any.1, any.2, any.3, any.4);
            assert(executable_agrees(Ok(report), executable_spec(source_bytes@, agreement, *context, limits, ans)));
            return Ok(report);
        },
        Some(m) => m,
    };
    let class = match executable_class_for_type(&media_type) {
        None => {
            let mut g = owned("B02 agreed type ");
            g.append(media_type.as_str());
            g.append(" is outside the B05 executable/application-package domain");
            mark_gap(&mut report, g);
            let ghost ans: ExecutableAnswers = (idv, any.1, any.2, any.3, any.4);
            assert(executable_agrees(Ok(report), executable_spec(source_bytes@, agreement, *context, limits, ans)));
            return Ok(report);
        },
        Some(c) => c,
    };
    report.executable_class = Some(class);
    let (count, selected, Ghost(supports)) = executable_support(adapters, &media_type);
    if count > 1 {
        let ghost ans: ExecutableAnswers = (idv, supports, any.2, any.3, any.4);
        assert(executable_agrees(
            Err(B05Error::AmbiguousAdapter(media_type)),
            executable_spec(source_bytes@, agreement, *context, limits, ans),
        ));
        return Err(B05Error::AmbiguousAdapter(media_type));
    }
    if count == 0 {
        let mut gap = owned("no B05 static-analysis adapter is registered for agreed type ");
        gap.append(media_type.as_str());
        mark_gap(&mut report, gap);
        let ghost ans: ExecutableAnswers = (idv, supports, any.2, any.3, any.4);
        assert(executable_agrees(Ok(report), executable_spec(source_bytes@, agreement, *context, limits, ans)));
        return Ok(report);
    }
    let raw_id = adapters[selected].adapter_id();
    let adapter_id = trimmed(raw_id);
    let isolation = adapters[selected].isolation();
    if !isolation.is_safe() {
        let ghost ans: ExecutableAnswers = (idv, supports, raw_id@, isolation, any.4);
        assert(executable_agrees(
            Err(B05Error::UnsafeAdapterIsolation(adapter_id)),
            executable_spec(source_bytes@, agreement, *context, limits, ans),
        ));
        return Err(B05Error::UnsafeAdapterIsolation(adapter_id));
    }
    let result = adapters[selected].inspect(source_bytes, media_type.as_str(), limits);
    let ghost ans: ExecutableAnswers = (idv, supports, raw_id@, isolation, result);
    let output = match result {
        Err(e) => {
            assert(executable_agrees(Err(B05Error::AdapterFailed(e)), executable_spec(source_bytes@, agreement, *context, limits, ans)));
            return Err(B05Error::AdapterFailed(e));
        },
        Ok(o) => o,
    };
    if let Err(e) = validate_executable_output(&output, source_bytes.len()) {
        assert(executable_agrees(Err(e), executable_spec(source_bytes@, agreement, *context, limits, ans)));
        return Err(e);
    }
    let rev = context.source_revision_ref.duplicate();
    let applied = apply_stage(&mut report, output, adapter_id, source_bytes.len(), limits, &rev);
    match applied {
        Err(e) => {
            assert(executable_agrees(Err(e), executable_spec(source_bytes@, agreement, *context, limits, ans)));
            Err(e)
        },
        Ok(()) => {
            assert(executable_agrees(Ok(report), executable_spec(source_bytes@, agreement, *context, limits, ans)));
            Ok(report)
        },
    }
}

} // verus!
