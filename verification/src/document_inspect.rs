//! Document inspection under detector type agreement and passive isolation policy.
use vstd::prelude::*;
use crate::digest::{sha256_hex, sha256_hex_of};
use crate::document::{
    conversion_spec, conversion_view, document_limits_valid, finish_spec, isolation_safe, mark_gap_spec, output_fault,
    preview_spec, retain_pages_spec, retain_text_spec, validate_adapter_output, AdapterDocument, B03Error,
    DocumentAdapter, DocumentContext, DocumentCoverage, DocumentFault, DocumentIsolation, DocumentLimits,
    DocumentReport, DocumentView,
};
use crate::partition_map::{clone_opt_string, opt_view, push_string, string_views};
use crate::text::owned;
use crate::text_ops::{first_id_fault, id_fault_spec, join_spec, join_strings, normalize_type, normalize_type_spec, trim_spec, trimmed, IdFault, IdFaultView};
use crate::typing::{AgreementView, TypeAgreement, TypeAssessment};

verus! {

/// What the adapters answered: every adapter's identity, whether each supports the agreed type,
/// then the selected adapter's identity, isolation and inspection result.
pub type DocumentAnswers = (Seq<Seq<char>>, Seq<bool>, Seq<char>, DocumentIsolation, Result<AdapterDocument, String>);

/// Number of `true` answers.
pub open spec fn count_true(s: Seq<bool>) -> nat
    decreases s.len(),
{
    if s.len() == 0 {
        0
    } else {
        count_true(s.drop_last()) + if s.last() { 1nat } else { 0nat }
    }
}

/// Index of the first `true` answer, or 0 when there is none.
pub open spec fn first_true(s: Seq<bool>) -> int
    decreases s.len(),
{
    if s.len() == 0 {
        0
    } else if count_true(s.drop_last()) > 0 {
        first_true(s.drop_last())
    } else if s.last() {
        s.len() - 1
    } else {
        0
    }
}

/// A report with nothing extracted.
pub open spec fn empty_view(sha: Seq<char>, rev: (Seq<char>, Seq<char>), agreed: Option<Seq<char>>) -> DocumentView {
    DocumentView {
        source_sha256: sha,
        revision: rev,
        agreed_media_type: agreed,
        adapter_id: None,
        metadata: Seq::empty(),
        text: Seq::empty(),
        pages: Seq::empty(),
        preview: None,
        conversion: None,
        active: false,
        complete: false,
        text_bytes: 0,
        retained_pages: 0,
        gaps: Seq::empty(),
        warnings: Seq::empty(),
        limitations: Seq::empty(),
    }
}

/// Gap recorded when detectors did not agree on a type.
pub open spec fn no_agreement_gap(a: AgreementView) -> Seq<char> {
    match a {
        AgreementView::Disputed(vs) => "B02 detector disagreement prevents document adapter selection: "@ + join_spec(vs, ", "@),
        _ => "B02 did not establish an agreed document type"@,
    }
}

/// The report, or the failure, that inspecting `source` yields given the adapters' answers.
pub open spec fn document_spec(
    source: Seq<u8>,
    agreement: AgreementView,
    context: DocumentContext,
    limits: DocumentLimits,
    answers: DocumentAnswers,
) -> Result<DocumentView, DocumentFault> {
    let (ids, supports, selected_id, isolation, result) = answers;
    if context.source_revision_ref.entity_kind@ != "object.revision"@ {
        Err(DocumentFault::InvalidSourceRevision)
    } else if !document_limits_valid(limits) {
        Err(DocumentFault::InvalidLimits)
    } else if id_fault_spec(ids) is Some {
        match id_fault_spec(ids) {
            Some(IdFaultView::Duplicate(t)) => Err(DocumentFault::DuplicateAdapterId(t)),
            _ => Err(DocumentFault::EmptyAdapterId),
        }
    } else {
        let rev = context.source_revision_ref@;
        let sha = sha256_hex_of(source);
        match agreement {
            AgreementView::Agreed(v) => {
                let mt = normalize_type_spec(v);
                let base = empty_view(sha, rev, Some(mt));
                if count_true(supports) > 1 {
                    Err(DocumentFault::AmbiguousAdapter(mt))
                } else if count_true(supports) == 0 {
                    Ok(mark_gap_spec(base, "no B03 document adapter is registered for agreed type "@ + mt))
                } else {
                    document_answer_spec(source, context, limits, mt, selected_id, isolation, result)
                }
            },
            _ => Ok(mark_gap_spec(empty_view(sha, rev, None), no_agreement_gap(agreement))),
        }
    }
}

/// The report, or the failure, that the selected adapter's answer yields for `source` of agreed
/// type `mt`: its identity `selected_id` (trimmed), declared isolation and result.
pub open spec fn document_answer_spec(
    source: Seq<u8>,
    context: DocumentContext,
    limits: DocumentLimits,
    mt: Seq<char>,
    selected_id: Seq<char>,
    isolation: DocumentIsolation,
    result: Result<AdapterDocument, String>,
) -> Result<DocumentView, DocumentFault> {
    let rev = context.source_revision_ref@;
    let sha = sha256_hex_of(source);
    let base = empty_view(sha, rev, Some(mt));
    let id = trim_spec(selected_id);
    if !isolation_safe(isolation) {
        Err(DocumentFault::UnsafeAdapterIsolation(id))
    } else {
        match result {
            Err(e) => Err(DocumentFault::AdapterFailed(e@)),
            Ok(out) => match output_fault(out@, source.len() as int) {
                Some(f) => Err(f),
                None => {
                    let o = out@;
                    let r1 = DocumentView {
                        adapter_id: Some(id),
                        active: o.active,
                        metadata: o.metadata,
                        warnings: o.warnings,
                        limitations: o.limitations,
                        complete: o.complete,
                        ..base
                    };
                    let r2 = retain_text_spec(r1, o.text, rev, limits.max_text_bytes as int);
                    let r3 = retain_pages_spec(r2, o.pages, rev, limits.max_pages as int, limits.max_page_render_bytes as int);
                    let r4 = preview_spec(r3, rev, limits.max_preview_bytes as int);
                    let r5 = conversion_spec(r4, o.conversion, rev, sha, id, limits.max_conversion_bytes as int);
                    Ok(finish_spec(r5))
                },
            },
        }
    }
}

/// The answers are ones the adapters may give, for the calls an inspection makes: every
/// adapter's identity; once the agreed type is looked up, every adapter's support answer for it;
/// once exactly one adapter supports it, that adapter's identity and isolation; and once that
/// isolation is passive, its inspection of `source` as the agreed type.
pub open spec fn document_answers_from(
    adapters: Seq<&dyn DocumentAdapter>,
    source: Seq<u8>,
    agreement: AgreementView,
    context: DocumentContext,
    limits: DocumentLimits,
    answers: DocumentAnswers,
) -> bool {
    let (ids, supports, selected_id, isolation, result) = answers;
    &&& ids.len() == adapters.len()
    &&& forall|i: int| 0 <= i < ids.len() ==> adapters[i].id_post(#[trigger] ids[i])
    &&& match agreement {
        AgreementView::Agreed(v) => {
            let mt = normalize_type_spec(v);
            let lookup = context.source_revision_ref.entity_kind@ == "object.revision"@ && document_limits_valid(limits)
                && id_fault_spec(ids) is None;
            let sel = first_true(supports);
            &&& lookup ==> supports.len() == adapters.len() && forall|i: int|
                0 <= i < supports.len() ==> adapters[i].supports_post(mt, #[trigger] supports[i])
            &&& lookup && count_true(supports) == 1 ==> adapters[sel].id_post(selected_id)
                && adapters[sel].isolation_post(isolation)
            &&& lookup && count_true(supports) == 1 && isolation_safe(isolation) ==> adapters[sel].inspect_post(
                source,
                mt,
                result,
            )
        },
        _ => true,
    }
}

/// Whether an inspection result agrees with an expected outcome.
pub open spec fn document_agrees(r: Result<DocumentReport, B03Error>, expected: Result<DocumentView, DocumentFault>) -> bool {
    match r {
        Ok(rep) => expected == Ok::<DocumentView, DocumentFault>(rep@),
        Err(e) => expected == Err::<DocumentView, DocumentFault>(e@),
    }
}

fn empty_report(sha: String, context: &DocumentContext, agreed: Option<String>) -> (r: DocumentReport)
    ensures
        r@ == empty_view(sha@, context.source_revision_ref@, opt_view(agreed)),
{
    let r = DocumentReport {
        source_sha256: sha,
        source_revision_ref: context.source_revision_ref.duplicate(),
        agreed_media_type: agreed,
        adapter_id: None,
        metadata: Vec::new(),
        text: Vec::new(),
        pages: Vec::new(),
        preview: None,
        conversion: None,
        active_content_observed: false,
        coverage: DocumentCoverage {
            complete_claim: false,
            retained_text_bytes: 0,
            retained_pages: 0,
            unknown_gaps: Vec::new(),
        },
        warnings: Vec::new(),
        limitations: Vec::new(),
    };
    assert(r@.metadata =~= Seq::<(Seq<char>, Seq<char>)>::empty());
    assert(r@.text =~= Seq::<(Seq<char>, crate::document::AnchorView)>::empty());
    assert(r@.pages =~= Seq::<crate::document::PageOutView>::empty());
    assert(r@.gaps =~= Seq::<Seq<char>>::empty());
    assert(r@.warnings =~= Seq::<Seq<char>>::empty());
    assert(r@.limitations =~= Seq::<Seq<char>>::empty());
    r
}

fn document_adapter_ids(adapters: &[&dyn DocumentAdapter]) -> (ids: Vec<String>)
    ensures
        ids@.len() == adapters@.len(),
        forall|j: int| 0 <= j < ids@.len() ==> adapters@[j].id_post(#[trigger] ids@[j]@),
{
    let mut ids: Vec<String> = Vec::new();
    let mut i: usize = 0;
    while i < adapters.len()
        invariant
            i <= adapters@.len(),
            ids@.len() == i,
            forall|j: int| 0 <= j < i ==> adapters@[j].id_post(#[trigger] ids@[j]@),
        decreases adapters.len() - i,
    {
        let id = adapters[i].adapter_id();
        assert(adapters@[i as int].id_post(id@));
        ids.push(owned(id));
        assert(ids@[i as int]@ == id@);
        i = i + 1;
    }
    ids
}

pub(crate) proof fn lemma_first_true_push(s: Seq<bool>, b: bool)
    ensures
        count_true(s.push(b)) == count_true(s) + if b { 1nat } else { 0nat },
        count_true(s) > 0 ==> first_true(s.push(b)) == first_true(s),
        count_true(s) == 0 && b ==> first_true(s.push(b)) == s.len(),
{
    assert(s.push(b).drop_last() =~= s);
}

fn document_support(adapters: &[&dyn DocumentAdapter], media_type: &String) -> (r: (usize, usize, Ghost<Seq<bool>>))
    ensures
        r.2@.len() == adapters@.len(),
        r.0 == count_true(r.2@),
        r.0 > 0 ==> r.1 < adapters@.len() && r.1 == first_true(r.2@),
        forall|j: int| 0 <= j < r.2@.len() ==> adapters@[j].supports_post(media_type@, #[trigger] r.2@[j]),
{
    let ghost mut supports: Seq<bool> = Seq::empty();
    let mut count: usize = 0;
    let mut selected: usize = 0;
    let mut k: usize = 0;
    while k < adapters.len()
        invariant
            k <= adapters@.len(),
            supports.len() == k,
            count == count_true(supports),
            count <= k,
            count > 0 ==> selected < adapters@.len() && selected == first_true(supports),
            forall|j: int| 0 <= j < k ==> adapters@[j].supports_post(media_type@, #[trigger] supports[j]),
        decreases adapters.len() - k,
    {
        let s = adapters[k].supports_media_type(media_type.as_str());
        proof {
            lemma_first_true_push(supports, s);
            supports = supports.push(s);
        }
        if s {
            if count == 0 {
                selected = k;
            }
            count = count + 1;
        }
        k = k + 1;
    }
    (count, selected, Ghost(supports))
}

/// The report, or the failure, that the selected adapter's answer yields: its identity,
/// declared isolation and result, checked and bounded; exactly `document_answer_spec` of them.
/// `source_sha256` is the digest of the source, as `sha256_hex` gives it.
pub fn document_report_from_answer(
    source_bytes: &[u8],
    context: &DocumentContext,
    limits: DocumentLimits,
    media_type: &String,
    raw_id: &str,
    isolation: DocumentIsolation,
    result: Result<AdapterDocument, String>,
    source_sha256: String,
) -> (r: Result<DocumentReport, B03Error>)
    requires
        source_sha256@ == sha256_hex_of(source_bytes@),
    ensures
        document_agrees(
            r,
            document_answer_spec(source_bytes@, *context, limits, media_type@, raw_id@, isolation, result),
        ),
{
    let adapter_id = trimmed(raw_id);
    if !isolation.is_safe() {
        return Err(B03Error::UnsafeAdapterIsolation(adapter_id));
    }
    let output = match result {
        Err(e) => {
            return Err(B03Error::AdapterFailed(e));
        },
        Ok(o) => o,
    };
    if let Err(e) = validate_adapter_output(&output, source_bytes.len()) {
        return Err(e);
    }
    let mut report = empty_report(source_sha256.clone(), context, Some(media_type.clone()));
    let AdapterDocument { metadata, text, pages, conversion, active_content_observed, complete_claim, warnings, limitations } =
        output;
    report.adapter_id = Some(adapter_id.clone());
    report.active_content_observed = active_content_observed;
    report.metadata = metadata;
    report.warnings = warnings;
    report.limitations = limitations;
    report.coverage.complete_claim = complete_claim;
    let rev = context.source_revision_ref.duplicate();
    crate::document::retain_text_stage(&mut report, &text, &rev, limits.max_text_bytes);
    crate::document::retain_pages_stage(&mut report, &pages, &rev, limits.max_pages, limits.max_page_render_bytes);
    crate::document::preview_stage(&mut report, &rev, limits.max_preview_bytes);
    crate::document::conversion_stage(&mut report, conversion, &rev, &source_sha256, &adapter_id, limits.max_conversion_bytes);
    crate::document::finish_stage(&mut report);
    Ok(report)
}

/// Inspect one document under detector type agreement and passive isolation policy.
///
/// Unknown and disputed types, and agreed types no adapter supports, give explicit partial
/// reports rather than a false extraction. The result is `document_spec` of the answers the
/// adapters gave, whatever they were.
pub fn inspect_document(
    source_bytes: &[u8],
    type_assessment: &TypeAssessment,
    context: &DocumentContext,
    limits: DocumentLimits,
    adapters: &[&dyn DocumentAdapter],
) -> (r: Result<DocumentReport, B03Error>)
    ensures
        exists|answers: DocumentAnswers|
            document_answers_from(adapters@, source_bytes@, type_assessment@.agreement, *context, limits, answers)
                && document_agrees(
                r,
                #[trigger] document_spec(source_bytes@, type_assessment@.agreement, *context, limits, answers),
            ),
{
    let ghost agreement = type_assessment@.agreement;
    let ghost any: DocumentAnswers = vstd::pervasive::arbitrary();
    let ids = document_adapter_ids(adapters);
    let ghost idv = string_views(ids@);
    assert(idv.len() == adapters@.len());
    if !context.source_revision_ref.has_kind("object.revision") {
        let ghost ans: DocumentAnswers = (idv, any.1, any.2, any.3, any.4);
        assert(document_agrees(Err(B03Error::InvalidSourceRevision), document_spec(source_bytes@, agreement, *context, limits, ans)));
        return Err(B03Error::InvalidSourceRevision);
    }
    if limits.max_text_bytes == 0 || limits.max_pages == 0 || limits.max_page_render_bytes == 0
        || limits.max_preview_bytes == 0 || limits.max_conversion_bytes == 0 {
        let ghost ans: DocumentAnswers = (idv, any.1, any.2, any.3, any.4);
        assert(document_agrees(Err(B03Error::InvalidLimits), document_spec(source_bytes@, agreement, *context, limits, ans)));
        return Err(B03Error::InvalidLimits);
    }
    match first_id_fault(&ids) {
        Some(IdFault::Empty) => {
            let ghost ans: DocumentAnswers = (idv, any.1, any.2, any.3, any.4);
            assert(document_agrees(Err(B03Error::EmptyAdapterId), document_spec(source_bytes@, agreement, *context, limits, ans)));
            return Err(B03Error::EmptyAdapterId);
        },
        Some(IdFault::Duplicate(t)) => {
            let ghost ans: DocumentAnswers = (idv, any.1, any.2, any.3, any.4);
            assert(document_agrees(
                Err(B03Error::DuplicateAdapterId(t)),
                document_spec(source_bytes@, agreement, *context, limits, ans),
            ));
            return Err(B03Error::DuplicateAdapterId(t));
        },
        None => {},
    }
    let source_sha256 = sha256_hex(source_bytes);
    let agreed = match &type_assessment.agreement {
        TypeAgreement::Agreed(v) => Some(normalize_type(v.as_str())),
        _ => None,
    };
    let mut report = empty_report(source_sha256.clone(), context, clone_opt_string(&agreed));
    let media_type = match agreed {
        None => {
            let gap = match &type_assessment.agreement {
                TypeAgreement::Disputed(values) => {
                    let mut g = owned("B02 detector disagreement prevents document adapter selection: ");
                    let joined = join_strings(values, ", ");
                    g.append(joined.as_str());
                    g
                },
                _ => owned("B02 did not establish an agreed document type"),
            };
            push_string(&mut report.coverage.unknown_gaps, gap);
            let ghost ans: DocumentAnswers = (idv, any.1, any.2, any.3, any.4);
            assert(document_agrees(Ok(report), document_spec(source_bytes@, agreement, *context, limits, ans)));
            return Ok(report);
        },
        Some(m) => m,
    };
    let (count, selected, Ghost(supports)) = document_support(adapters, &media_type);
    if count > 1 {
        let ghost ans: DocumentAnswers = (idv, supports, any.2, any.3, any.4);
        assert(document_agrees(
            Err(B03Error::AmbiguousAdapter(media_type)),
            document_spec(source_bytes@, agreement, *context, limits, ans),
        ));
        return Err(B03Error::AmbiguousAdapter(media_type));
    }
    if count == 0 {
        let mut gap = owned("no B03 document adapter is registered for agreed type ");
        gap.append(media_type.as_str());
        push_string(&mut report.coverage.unknown_gaps, gap);
        let ghost ans: DocumentAnswers = (idv, supports, any.2, any.3, any.4);
        assert(document_agrees(Ok(report), document_spec(source_bytes@, agreement, *context, limits, ans)));
        return Ok(report);
    }
    let raw_id = adapters[selected].adapter_id();
    let isolation = adapters[selected].isolation();
    let result = if isolation.is_safe() {
        adapters[selected].inspect(source_bytes, media_type.as_str())
    } else {
        Err(String::new())
    };
    let ghost ans: DocumentAnswers = (idv, supports, raw_id@, isolation, result);
    let r = document_report_from_answer(source_bytes, context, limits, &media_type, raw_id, isolation, result, source_sha256);
    assert(document_agrees(r, document_spec(source_bytes@, agreement, *context, limits, ans)));
    r
}

} // verus!
