//! Media inspection and derivation under detector type agreement and passive isolation policy.
use vstd::prelude::*;
use crate::digest::{sha256_hex, sha256_hex_of};
use crate::document_inspect::{count_true, first_true, lemma_first_true_push};
use crate::media::{
    media_class_for_type, media_class_of, media_isolation_safe, media_limits_valid, media_output_fault, request_fault,
    validate_media_output, validate_request, AdapterMedia, AdapterMediaOut, B04Error, MediaAdapter, MediaClass,
    MediaContext, MediaFault, MediaIsolation, MediaLimits, MediaRequest, RequestView,
};
use crate::media_report::{
    absorb_spec, absorb_stage, derive_spec, derive_stage, finish_media, finish_media_spec, mark_gap, mgap,
    missing_frames_fold, note_missing_frames, retain_frames, retain_frames_spec, retain_view, retain_view_spec,
    MediaCoverage, MediaReport, MediaReportView, ViewValue,
};
use crate::identity::EntityRef;
use crate::partition_map::{clone_opt_string, opt_view, push_string, string_views};
use crate::text::owned;
use crate::text_ops::{first_id_fault, id_fault_spec, join_spec, join_strings, normalize_type, normalize_type_spec, trim_spec, trimmed, IdFault, IdFaultView};
use crate::typing::{AgreementView, TypeAgreement, TypeAssessment};

verus! {

/// Adapter failure text reserved for output that samples a frame beyond a duration the same
/// output claims complete.
pub open spec fn duration_sentinel() -> Seq<char> {
    "ptah.b04.provider_frame_beyond_complete_duration"@
}

/// What the adapters answered: every adapter's identity, whether each supports the agreed type,
/// then the selected adapter's identity, isolation and result.
pub type MediaAnswers = (Seq<Seq<char>>, Seq<bool>, Seq<char>, MediaIsolation, Result<AdapterMedia, String>);

/// A report with nothing interpreted.
pub open spec fn empty_media_view(sha: Seq<char>, rev: (Seq<char>, Seq<char>), agreed: Option<Seq<char>>) -> MediaReportView {
    MediaReportView {
        source_sha256: sha,
        revision: rev,
        agreed_media_type: agreed,
        media_class: None,
        adapter_id: None,
        metadata: Seq::empty(),
        dimensions: None,
        duration: None,
        thumbnail: None,
        preview: None,
        frames: Seq::empty(),
        waveform: None,
        derivatives: Seq::empty(),
        complete: false,
        observed: 0,
        cached: 0,
        retained_frames: 0,
        gaps: Seq::empty(),
        warnings: Seq::empty(),
        limitations: Seq::empty(),
    }
}

/// Output samples a frame beyond a duration it claims is complete.
pub open spec fn duration_conflict(o: AdapterMediaOut) -> bool {
    o.duration matches Some(d) && d.complete && exists|i: int| 0 <= i < o.frames.len() && (#[trigger] o.frames[i]).0
        > d.milliseconds
}

/// The parts of provider output that are retained after its evidence was absorbed.
pub ghost struct RetainedOutput {
    /// Thumbnail payload.
    pub thumbnail: Option<(Seq<char>, Seq<u8>)>,
    /// Preview payload.
    pub preview: Option<(Seq<char>, Seq<u8>)>,
    /// Frames.
    pub frames: Seq<(u64, Seq<char>, Seq<u8>)>,
    /// Waveform payload.
    pub waveform: Option<(Seq<char>, Seq<u8>)>,
    /// Derivatives.
    pub derivatives: Seq<(crate::media::DerivedMediaKind, Seq<char>, Seq<u8>)>,
}

/// The retained parts of provider output.
pub open spec fn retained_of(o: AdapterMediaOut) -> RetainedOutput {
    RetainedOutput { thumbnail: o.thumbnail, preview: o.preview, frames: o.frames, waveform: o.waveform, derivatives: o.derivatives }
}

/// Retain an optional view and record a gap when it was requested but not retained; `slot`
/// selects which view field receives it.
pub open spec fn view_stage_spec(
    m: MediaReportView,
    v: Option<(Seq<char>, Seq<u8>)>,
    label: Seq<char>,
    wanted: bool,
    max_payload: int,
    max_cache: int,
    rev: (Seq<char>, Seq<char>),
    slot: int,
) -> Result<MediaReportView, MediaFault> {
    match retain_view_spec(m, v, label, max_payload, max_cache, rev) {
        Err(e) => Err(e),
        Ok((m2, kept)) => {
            let m3 = if slot == 0 {
                MediaReportView { thumbnail: kept, ..m2 }
            } else if slot == 1 {
                MediaReportView { preview: kept, ..m2 }
            } else {
                MediaReportView { waveform: kept, ..m2 }
            };
            if wanted && kept is None {
                Ok(mgap(m3, "requested media "@ + label + " was not retained"@))
            } else {
                Ok(m3)
            }
        },
    }
}

/// Retention of views, frames and derivatives after the provider evidence was absorbed.
pub open spec fn retention_spec(
    m1: MediaReportView,
    o: RetainedOutput,
    r: RequestView,
    limits: MediaLimits,
    rev: (Seq<char>, Seq<char>),
    sha: Seq<char>,
    id: Seq<char>,
) -> Result<MediaReportView, MediaFault> {
    let cache = limits.max_cached_view_bytes as int;
    match view_stage_spec(m1, o.thumbnail, "thumbnail"@, r.thumbnail, limits.max_thumbnail_bytes as int, cache, rev, 0) {
        Err(e) => Err(e),
        Ok(m3) => match view_stage_spec(m3, o.preview, "preview"@, r.preview, limits.max_preview_bytes as int, cache, rev, 1) {
            Err(e) => Err(e),
            Ok(m5) => match retain_frames_spec(m5, o.frames, limits.max_frames as int, limits.max_frame_bytes as int, cache, rev) {
                Err(e) => Err(e),
                Ok(m6) => {
                    let m7 = missing_frames_fold(m6, r.frames, r.frames.len() as int);
                    match view_stage_spec(m7, o.waveform, "waveform"@, r.waveform, limits.max_waveform_bytes as int, cache, rev, 2) {
                        Err(e) => Err(e),
                        Ok(m9) => Ok(
                            finish_media_spec(derive_spec(m9, o.derivatives, r, limits.max_derived_bytes as int, rev, sha, id)),
                        ),
                    }
                },
            },
        },
    }
}

/// The report, or the failure, that the selected adapter's answer yields for `source` of agreed
/// type `mt` in class `class`: its identity `selected_id` (trimmed), declared isolation and result.
pub open spec fn media_answer_spec(
    source: Seq<u8>,
    context: MediaContext,
    r: RequestView,
    limits: MediaLimits,
    mt: Seq<char>,
    class: MediaClass,
    selected_id: Seq<char>,
    isolation: MediaIsolation,
    result: Result<AdapterMedia, String>,
) -> Result<MediaReportView, MediaFault> {
    let rev = context.source_revision_ref@;
    let sha = sha256_hex_of(source);
    let b1 = MediaReportView { media_class: Some(class), ..empty_media_view(sha, rev, Some(mt)) };
    let id = trim_spec(selected_id);
    if !media_isolation_safe(isolation) {
        Err(MediaFault::UnsafeAdapterIsolation(id))
    } else {
        match result {
            Err(e) => if e@ == duration_sentinel() {
                Err(MediaFault::RequestOutputMismatch)
            } else {
                Err(MediaFault::AdapterFailed(e@))
            },
            Ok(out) => {
                let o = out@;
                if duration_conflict(o) {
                    Err(MediaFault::RequestOutputMismatch)
                } else if media_output_fault(o, source.len() as int, class, r) is Some {
                    Err(media_output_fault(o, source.len() as int, class, r)->0)
                } else {
                    let m1 = absorb_spec(b1, o, id, limits.max_metadata_fields as int, source.len() as int);
                    retention_spec(m1, retained_of(o), r, limits, rev, sha, id)
                }
            },
        }
    }
}

/// The report, or the failure, that inspecting `source` yields given the adapters' answers.
pub open spec fn media_spec(
    source: Seq<u8>,
    agreement: AgreementView,
    context: MediaContext,
    r: RequestView,
    limits: MediaLimits,
    answers: MediaAnswers,
) -> Result<MediaReportView, MediaFault> {
    let (ids, supports, selected_id, isolation, result) = answers;
    if context.source_revision_ref.entity_kind@ != "object.revision"@ {
        Err(MediaFault::InvalidSourceRevision)
    } else if !media_limits_valid(limits) {
        Err(MediaFault::InvalidLimits)
    } else if id_fault_spec(ids) is Some {
        match id_fault_spec(ids) {
            Some(IdFaultView::Duplicate(t)) => Err(MediaFault::DuplicateAdapterId(t)),
            _ => Err(MediaFault::EmptyAdapterId),
        }
    } else {
        let rev = context.source_revision_ref@;
        let sha = sha256_hex_of(source);
        match agreement {
            AgreementView::Agreed(v) => {
                let mt = normalize_type_spec(v);
                let base = empty_media_view(sha, rev, Some(mt));
                match media_class_of(mt) {
                    None => Ok(mgap(base, "B02 agreed type "@ + mt + " is outside the B04 image/audio/video domain"@)),
                    Some(class) => {
                        let b1 = MediaReportView { media_class: Some(class), ..base };
                        if request_fault(r, class, limits) is Some {
                            Err(MediaFault::InvalidRequest(request_fault(r, class, limits)->0))
                        } else if count_true(supports) > 1 {
                            Err(MediaFault::AmbiguousAdapter(mt))
                        } else if count_true(supports) == 0 {
                            Ok(mgap(b1, "no B04 media adapter is registered for agreed type "@ + mt))
                        } else {
                            media_answer_spec(source, context, r, limits, mt, class, selected_id, isolation, result)
                        }
                    },
                }
            },
            _ => Ok(
                mgap(
                    empty_media_view(sha, rev, None),
                    match agreement {
                        AgreementView::Disputed(vs) => "B02 detector disagreement prevents media adapter selection: "@
                            + join_spec(vs, ", "@),
                        _ => "B02 did not establish an agreed media type"@,
                    },
                ),
            ),
        }
    }
}

/// Whether an inspection result agrees with an expected outcome.
pub open spec fn media_agrees(r: Result<MediaReport, B04Error>, expected: Result<MediaReportView, MediaFault>) -> bool {
    match r {
        Ok(rep) => expected == Ok::<MediaReportView, MediaFault>(rep@),
        Err(e) => expected == Err::<MediaReportView, MediaFault>(e@),
    }
}

fn empty_media_report(sha: String, context: &MediaContext, agreed: Option<String>) -> (r: MediaReport)
    ensures
        r@ == empty_media_view(sha@, context.source_revision_ref@, opt_view(agreed)),
{
    let r = MediaReport {
        source_sha256: sha,
        source_revision_ref: context.source_revision_ref.duplicate(),
        agreed_media_type: agreed,
        media_class: None,
        adapter_id: None,
        metadata: Vec::new(),
        dimensions: None,
        duration: None,
        thumbnail: None,
        preview: None,
        frames: Vec::new(),
        waveform: None,
        derivatives: Vec::new(),
        coverage: MediaCoverage {
            complete_claim: false,
            observed_source_bytes: 0,
            cached_view_bytes: 0,
            retained_frames: 0,
            unknown_gaps: Vec::new(),
        },
        warnings: Vec::new(),
        limitations: Vec::new(),
    };
    assert(r@.metadata =~= Seq::<(Seq<char>, Seq<char>)>::empty());
    assert(r@.frames =~= Seq::<crate::media_report::FrameValue>::empty());
    assert(r@.derivatives =~= Seq::<crate::media_report::DerivedValue>::empty());
    assert(r@.gaps =~= Seq::<Seq<char>>::empty());
    assert(r@.warnings =~= Seq::<Seq<char>>::empty());
    assert(r@.limitations =~= Seq::<Seq<char>>::empty());
    r
}

fn has_duration_conflict(o: &AdapterMedia) -> (r: bool)
    ensures
        r == duration_conflict(o@),
{
    match o.duration {
        None => false,
        Some(d) => {
            if !d.complete {
                return false;
            }
            let ghost fv = o@.frames;
            let mut i: usize = 0;
            while i < o.frames.len()
                invariant
                    i <= fv.len(),
                    fv == o@.frames,
                    o@.duration == Some(d),
                    d.complete,
                    forall|j: int| 0 <= j < i ==> (#[trigger] fv[j]).0 <= d.milliseconds,
                decreases fv.len() - i,
            {
                assert(fv[i as int].0 == o.frames@[i as int].timestamp_ms);
                if o.frames[i].timestamp_ms > d.milliseconds {
                    assert(fv[i as int].0 > d.milliseconds);
                    return true;
                }
                i = i + 1;
            }
            false
        },
    }
}

fn view_stage(
    report: &mut MediaReport,
    v: Option<crate::media::AdapterMediaView>,
    label: &str,
    wanted: bool,
    max_payload: usize,
    max_cache: usize,
    rev: &EntityRef,
    slot: u8,
) -> (r: Result<(), B04Error>)
    requires
        slot <= 2,
    ensures
        match r {
            Ok(_) => view_stage_spec(
                old(report)@,
                crate::media::payload_view(v),
                label@,
                wanted,
                max_payload as int,
                max_cache as int,
                rev@,
                slot as int,
            ) == Ok::<MediaReportView, MediaFault>(final(report)@),
            Err(e) => view_stage_spec(
                old(report)@,
                crate::media::payload_view(v),
                label@,
                wanted,
                max_payload as int,
                max_cache as int,
                rev@,
                slot as int,
            ) == Err::<MediaReportView, MediaFault>(e@),
        },
{
    let kept = retain_view(report, v, label, max_payload, max_cache, rev)?;
    let missing = kept.is_none();
    if slot == 0 {
        report.thumbnail = kept;
    } else if slot == 1 {
        report.preview = kept;
    } else {
        report.waveform = kept;
    }
    if wanted && missing {
        let mut g = owned("requested media ");
        g.append(label);
        g.append(" was not retained");
        mark_gap(report, g);
    }
    Ok(())
}

fn retention(
    report: &mut MediaReport,
    out: AdapterMedia,
    request: &MediaRequest,
    limits: MediaLimits,
    rev: &EntityRef,
    sha: &String,
    id: &String,
) -> (r: Result<(), B04Error>)
    ensures
        match r {
            Ok(_) => retention_spec(old(report)@, retained_of(out@), request@, limits, rev@, sha@, id@) == Ok::<
                MediaReportView,
                MediaFault,
            >(final(report)@),
            Err(e) => retention_spec(old(report)@, retained_of(out@), request@, limits, rev@, sha@, id@) == Err::<
                MediaReportView,
                MediaFault,
            >(e@),
        },
{
    let ghost o = retained_of(out@);
    let AdapterMedia { metadata: _, dimensions: _, duration: _, observed_source_bytes: _, thumbnail, preview, frames, waveform, derivatives, complete_claim: _, unknown_gaps: _, warnings: _, limitations: _ } =
        out;
    let cache = limits.max_cached_view_bytes;
    view_stage(report, thumbnail, "thumbnail", request.thumbnail, limits.max_thumbnail_bytes, cache, rev, 0)?;
    view_stage(report, preview, "preview", request.preview, limits.max_preview_bytes, cache, rev, 1)?;
    retain_frames(report, &frames, limits.max_frames, limits.max_frame_bytes, cache, rev)?;
    note_missing_frames(report, &request.frame_timestamps_ms);
    view_stage(report, waveform, "waveform", request.waveform, limits.max_waveform_bytes, cache, rev, 2)?;
    derive_stage(
        report,
        &derivatives,
        request.image_transform.is_some(),
        request.transcode.is_some(),
        limits.max_derived_bytes,
        rev,
        sha,
        id,
        Ghost(request@),
    );
    finish_media(report);
    Ok(())
}

fn media_adapter_ids(adapters: &[&dyn MediaAdapter]) -> (ids: Vec<String>)
    ensures
        ids@.len() == adapters@.len(),
        forall|j: int| 0 <= j < ids@.len() ==> adapters@[j].id_post(#[trigger] ids@[j]@),
{
    let mut ids: Vec<String> = Vec::new();
    let mut i: usize = 0;
    while i < adapters.len()
        invariant
            i <= adapters@.len(),
            ids@.len() == i,
            forall|j: int| 0 <= j < i ==> adapters@[j].id_post(#[trigger] ids@[j]@),
        decreases adapters.len() - i,
    {
        let id = adapters[i].adapter_id();
        ids.push(owned(id));
        assert(ids@[i as int]@ == id@);
        i = i + 1;
    }
    ids
}

fn media_support(adapters: &[&dyn MediaAdapter], media_type: &String) -> (r: (usize, usize, Ghost<Seq<bool>>))
    ensures
        r.2@.len() == adapters@.len(),
        r.0 == count_true(r.2@),
        r.0 > 0 ==> r.1 < adapters@.len() && r.1 == first_true(r.2@),
        forall|j: int| 0 <= j < r.2@.len() ==> adapters@[j].supports_post(media_type@, #[trigger] r.2@[j]),
{
    let ghost mut supports: Seq<bool> = Seq::empty();
    let mut count: usize = 0;
    let mut selected: usize = 0;
    let mut k: usize = 0;
    while k < adapters.len()
        invariant
            k <= adapters@.len(),
            supports.len() == k,
            count == count_true(supports),
            count <= k,
            count > 0 ==> selected < adapters@.len() && selected == first_true(supports),
            forall|j: int| 0 <= j < k ==> adapters@[j].supports_post(media_type@, #[trigger] supports[j]),
        decreases adapters.len() - k,
    {
        let s = adapters[k].supports_media_type(media_type.as_str());
        proof {
            lemma_first_true_push(supports, s);
            supports = supports.push(s);
        }
        if s {
            if count == 0 {
                selected = k;
            }
            count = count + 1;
        }
        k = k + 1;
    }
    (count, selected, Ghost(supports))
}

/// The answers are ones the adapters may give, for the calls an inspection makes: every
/// adapter's identity; once a valid request for a media type is looked up, every adapter's
/// support answer for it; once exactly one adapter supports it, that adapter's identity and
/// isolation; and once that isolation is passive, its inspection of `source` under the request.
pub open spec fn media_answers_from(
    adapters: Seq<&dyn MediaAdapter>,
    source: Seq<u8>,
    agreement: AgreementView,
    context: MediaContext,
    r: RequestView,
    limits: MediaLimits,
    answers: MediaAnswers,
) -> bool {
    let (ids, supports, selected_id, isolation, result) = answers;
    &&& ids.len() == adapters.len()
    &&& forall|i: int| 0 <= i < ids.len() ==> adapters[i].id_post(#[trigger] ids[i])
    &&& match agreement {
        AgreementView::Agreed(v) => {
            let mt = normalize_type_spec(v);
            let lookup = context.source_revision_ref.entity_kind@ == "object.revision"@ && media_limits_valid(limits)
                && id_fault_spec(ids) is None && media_class_of(mt) is Some && request_fault(
                r,
                media_class_of(mt)->0,
                limits,
            ) is None;
            let sel = first_true(supports);
            &&& lookup ==> supports.len() == adapters.len() && forall|i: int|
                0 <= i < supports.len() ==> adapters[i].supports_post(mt, #[trigger] supports[i])
            &&& lookup && count_true(supports) == 1 ==> adapters[sel].id_post(selected_id)
                && adapters[sel].isolation_post(isolation)
            &&& lookup && count_true(supports) == 1 && media_isolation_safe(isolation) ==> adapters[sel].inspect_post(
                source,
                mt,
                r,
                limits,
                result,
            )
        },
        _ => true,
    }
}

/// The report, or the failure, that the selected adapter's answer yields: its identity,
/// declared isolation and result, checked and bounded; exactly `media_answer_spec` of them.
/// `source_sha256` is the digest of the source, as `sha256_hex` gives it.
pub fn media_report_from_answer(
    source_bytes: &[u8],
    context: &MediaContext,
    request: &MediaRequest,
    limits: MediaLimits,
    media_type: &String,
    media_class: MediaClass,
    raw_id: &str,
    isolation: MediaIsolation,
    result: Result<AdapterMedia, String>,
    source_sha256: String,
) -> (r: Result<MediaReport, B04Error>)
    requires
        source_sha256@ == sha256_hex_of(source_bytes@),
    ensures
        media_agrees(
            r,
            media_answer_spec(
                source_bytes@,
                *context,
                request@,
                limits,
                media_type@,
                media_class,
                raw_id@,
                isolation,
                result,
            ),
        ),
{
    let ghost ans = media_answer_spec(
        source_bytes@,
        *context,
        request@,
        limits,
        media_type@,
        media_class,
        raw_id@,
        isolation,
        result,
    );
    let adapter_id = trimmed(raw_id);
    if !isolation.is_safe() {
        return Err(B04Error::UnsafeAdapterIsolation(adapter_id));
    }
    let output = match result {
        Err(e) => {
            if e == owned("ptah.b04.provider_frame_beyond_complete_duration") {
                return Err(B04Error::RequestOutputMismatch);
            }
            return Err(B04Error::AdapterFailed(e));
        },
        Ok(o) => o,
    };
    if has_duration_conflict(&output) {
        return Err(B04Error::RequestOutputMismatch);
    }
    if let Err(e) = validate_media_output(&output, source_bytes.len(), media_class, request) {
        return Err(e);
    }
    let mut report = empty_media_report(source_sha256.clone(), context, Some(media_type.clone()));
    report.media_class = Some(media_class);
    let ghost o = output@;
    let AdapterMedia { metadata, dimensions, duration, observed_source_bytes, thumbnail, preview, frames, waveform, derivatives, complete_claim, unknown_gaps, warnings, limitations } =
        output;
    absorb_stage(
        &mut report,
        metadata,
        dimensions,
        duration,
        observed_source_bytes,
        complete_claim,
        unknown_gaps,
        warnings,
        limitations,
        adapter_id.clone(),
        limits.max_metadata_fields,
        source_bytes.len(),
        Ghost(o),
    );
    let rest = AdapterMedia {
        metadata: Vec::new(),
        dimensions: None,
        duration: None,
        observed_source_bytes: 0,
        thumbnail,
        preview,
        frames,
        waveform,
        derivatives,
        complete_claim: false,
        unknown_gaps: Vec::new(),
        warnings: Vec::new(),
        limitations: Vec::new(),
    };
    let rev = context.source_revision_ref.duplicate();
    assert(retained_of(rest@) == retained_of(o));
    match retention(&mut report, rest, request, limits, &rev, &source_sha256, &adapter_id) {
        Err(e) => Err(e),
        Ok(_) => Ok(report),
    }
}

/// Inspect and optionally derive one media source under detector type agreement and passive
/// isolation policy.
///
/// Unknown, disputed and non-media types, and agreed types no adapter supports, give explicit
/// partial reports. Outputs exist only when requested, and every retained payload is bounded.
/// The result is `media_spec` of the answers the adapters gave, whatever they were.
pub fn inspect_media(
    source_bytes: &[u8],
    type_assessment: &TypeAssessment,
    context: &MediaContext,
    request: &MediaRequest,
    limits: MediaLimits,
    adapters: &[&dyn MediaAdapter],
) -> (r: Result<MediaReport, B04Error>)
    ensures
        exists|answers: MediaAnswers|
            media_answers_from(adapters@, source_bytes@, type_assessment@.agreement, *context, request@, limits, answers)
                && media_agrees(
                r,
                #[trigger] media_spec(source_bytes@, type_assessment@.agreement, *context, request@, limits, answers),
            ),
{
    let ghost agreement = type_assessment@.agreement;
    let ghost any: MediaAnswers = vstd::pervasive::arbitrary();
    let ids = media_adapter_ids(adapters);
    let ghost idv = string_views(ids@);
    assert(idv.len() == adapters@.len());
    let ghost a0: MediaAnswers = (idv, any.1, any.2, any.3, any.4);
    if !context.source_revision_ref.has_kind("object.revision") {
        assert(media_agrees(Err(B04Error::InvalidSourceRevision), media_spec(source_bytes@, agreement, *context, request@, limits, a0)));
        return Err(B04Error::InvalidSourceRevision);
    }
    if limits.max_metadata_fields == 0 || limits.max_thumbnail_bytes == 0 || limits.max_preview_bytes == 0
        || limits.max_frames == 0 || limits.max_frame_bytes == 0 || limits.max_waveform_bytes == 0
        || limits.max_cached_view_bytes == 0 || limits.max_derived_bytes == 0 {
        assert(media_agrees(Err(B04Error::InvalidLimits), media_spec(source_bytes@, agreement, *context, request@, limits, a0)));
        return Err(B04Error::InvalidLimits);
    }
    match first_id_fault(&ids) {
        Some(IdFault::Empty) => {
            assert(media_agrees(Err(B04Error::EmptyAdapterId), media_spec(source_bytes@, agreement, *context, request@, limits, a0)));
            return Err(B04Error::EmptyAdapterId);
        },
        Some(IdFault::Duplicate(t)) => {
            assert(media_agrees(
                Err(B04Error::DuplicateAdapterId(t)),
                media_spec(source_bytes@, agreement, *context, request@, limits, a0),
            ));
            return Err(B04Error::DuplicateAdapterId(t));
        },
        None => {},
    }
    let source_sha256 = sha256_hex(source_bytes);
    let agreed = match &type_assessment.agreement {
        TypeAgreement::Agreed(v) => Some(normalize_type(v.as_str())),
        _ => None,
    };
    let mut report = empty_media_report(source_sha256.clone(), context, clone_opt_string(&agreed));
    let media_type = match agreed {
        None => {
            let gap = match &type_assessment.agreement {
                TypeAgreement::Disputed(values) => {
                    let mut g = owned("B02 detector disagreement prevents media adapter selection: ");
                    let joined = join_strings(values, ", ");
                    g.append(joined.as_str());
                    g
                },
                _ => owned("B02 did not establish an agreed media type"),
            };
            mark_gap(&mut report, gap);
            assert(media_agrees(Ok(report), media_spec(source_bytes@, agreement, *context, request@, limits, a0)));
            return Ok(report);
        },
        Some(m) => m,
    };
    let media_class = match media_class_for_type(&media_type) {
        None => {
            let mut g = owned("B02 agreed type ");
            g.append(media_type.as_str());
            g.append(" is outside the B04 image/audio/video domain");
            mark_gap(&mut report, g);
            assert(media_agrees(Ok(report), media_spec(source_bytes@, agreement, *context, request@, limits, a0)));
            return Ok(report);
        },
        Some(c) => c,
    };
    report.media_class = Some(media_class);
    if let Err(e) = validate_request(request, media_class, limits) {
        assert(media_agrees(Err(e), media_spec(source_bytes@, agreement, *context, request@, limits, a0)));
        return Err(e);
    }
    let (count, selected, Ghost(supports)) = media_support(adapters, &media_type);
    let ghost a1: MediaAnswers = (idv, supports, any.2, any.3, any.4);
    if count > 1 {
        assert(media_agrees(
            Err(B04Error::AmbiguousAdapter(media_type)),
            media_spec(source_bytes@, agreement, *context, request@, limits, a1),
        ));
        return Err(B04Error::AmbiguousAdapter(media_type));
    }
    if count == 0 {
        let mut gap = owned("no B04 media adapter is registered for agreed type ");
        gap.append(media_type.as_str());
        mark_gap(&mut report, gap);
        assert(media_agrees(Ok(report), media_spec(source_bytes@, agreement, *context, request@, limits, a1)));
        return Ok(report);
    }
    let raw_id = adapters[selected].adapter_id();
    let isolation = adapters[selected].isolation();
    let result = if isolation.is_safe() {
        adapters[selected].inspect(source_bytes, media_type.as_str(), request, limits)
    } else {
        Err(String::new())
    };
    let ghost ans: MediaAnswers = (idv, supports, raw_id@, isolation, result);
    let r = media_report_from_answer(
        source_bytes,
        context,
        request,
        limits,
        &media_type,
        media_class,
        raw_id,
        isolation,
        result,
        source_sha256,
    );
    assert(media_agrees(r, media_spec(source_bytes@, agreement, *context, request@, limits, ans)));
    r
}

} // verus!
