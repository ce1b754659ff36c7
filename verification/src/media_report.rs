//! Media reports and the bounded retention of provider output: metadata, coverage truth,
//! passive views under a shared cache budget, sampled frames and requested derivatives.
use vstd::prelude::*;
use crate::digest::{sha256_hex, sha256_hex_of};
use crate::identity::EntityRef;
use crate::media::{
    derived_kind_token, frame_views, derivative_views, media_fields, payload_view, AdapterDerivedMedia, AdapterMediaFrame,
    AdapterMediaOut, AdapterMediaView, DerivedMediaKind, MediaClass, MediaDuration, MediaFault, MediaMetadata,
    PixelDimensions, RequestView, B04Error,
};
use crate::partition_map::{opt_view, push_string, string_views};
use crate::text::{decimal, numbered_message, owned};
use crate::text_ops::{dedup_spec, dedup_strings, normalize_type, normalize_type_spec};

verus! {

/// A retained passive view payload.
#[derive(Debug)]
pub struct MediaView {
    /// View media type.
    pub media_type: String,
    /// Exact retained bytes.
    pub bytes: Vec<u8>,
    /// Exact source revision.
    pub source_revision_ref: EntityRef,
}

/// Abstract value of a retained view: media type, bytes and source revision.
pub type ViewValue = (Seq<char>, Seq<u8>, (Seq<char>, Seq<char>));

/// View of an optional retained view.
pub open spec fn media_view_value(v: Option<MediaView>) -> Option<ViewValue> {
    match v {
        Some(x) => Some((x.media_type@, x.bytes@, x.source_revision_ref@)),
        None => None,
    }
}

/// A retained sampled video frame.
#[derive(Debug)]
pub struct MediaFrameView {
    /// Requested sample timestamp in milliseconds.
    pub timestamp_ms: u64,
    /// Frame media type.
    pub media_type: String,
    /// Exact retained frame bytes.
    pub bytes: Vec<u8>,
    /// Exact source revision.
    pub source_revision_ref: EntityRef,
}

/// Abstract value of a retained frame.
pub type FrameValue = (u64, Seq<char>, Seq<u8>, (Seq<char>, Seq<char>));

/// Views of retained frames.
pub open spec fn frame_values(s: Seq<MediaFrameView>) -> Seq<FrameValue> {
    s.map_values(|f: MediaFrameView| (f.timestamp_ms, f.media_type@, f.bytes@, f.source_revision_ref@))
}

/// Transformed or transcoded bytes bound to one exact source revision.
#[derive(Debug)]
pub struct DerivedMedia {
    /// Derivative operation class.
    pub kind: DerivedMediaKind,
    /// Exact output media type.
    pub media_type: String,
    /// Exact derived bytes.
    pub bytes: Vec<u8>,
    /// SHA-256 of the derived bytes.
    pub sha256: String,
    /// Exact source revision.
    pub source_revision_ref: EntityRef,
    /// SHA-256 of the immutable source bytes.
    pub source_sha256: String,
    /// Adapter that produced these bytes.
    pub adapter_id: String,
}

/// Abstract value of a derivative.
pub ghost struct DerivedValue {
    /// Kind.
    pub kind: DerivedMediaKind,
    /// Media type.
    pub media_type: Seq<char>,
    /// Bytes.
    pub bytes: Seq<u8>,
    /// Digest of the bytes.
    pub sha256: Seq<char>,
    /// Source revision.
    pub revision: (Seq<char>, Seq<char>),
    /// Source digest.
    pub source_sha256: Seq<char>,
    /// Producing adapter.
    pub adapter_id: Seq<char>,
}

/// Views of derivatives.
pub open spec fn derived_values(s: Seq<DerivedMedia>) -> Seq<DerivedValue> {
    s.map_values(
        |d: DerivedMedia|
            DerivedValue {
                kind: d.kind,
                media_type: d.media_type@,
                bytes: d.bytes@,
                sha256: d.sha256@,
                revision: d.source_revision_ref@,
                source_sha256: d.source_sha256@,
                adapter_id: d.adapter_id@,
            },
    )
}

/// Coverage and cache accounting.
#[derive(Debug)]
pub struct MediaCoverage {
    /// Whether complete supported coverage may be claimed.
    pub complete_claim: bool,
    /// Number of source bytes the provider reported inspecting.
    pub observed_source_bytes: u64,
    /// Aggregate retained bytes across cacheable views.
    pub cached_view_bytes: u64,
    /// Number of sampled frames retained.
    pub retained_frames: usize,
    /// Explicit omitted, partial or unsupported regions.
    pub unknown_gaps: Vec<String>,
}

/// Media inspection and derivation result.
#[derive(Debug)]
pub struct MediaReport {
    /// SHA-256 of the immutable source bytes.
    pub source_sha256: String,
    /// Exact source revision.
    pub source_revision_ref: EntityRef,
    /// Normalized agreed media type, when one exists.
    pub agreed_media_type: Option<String>,
    /// Media family selected from the agreed type.
    pub media_class: Option<MediaClass>,
    /// Selected adapter identity.
    pub adapter_id: Option<String>,
    /// Retained technical metadata.
    pub metadata: Vec<MediaMetadata>,
    /// Pixel dimensions when established.
    pub dimensions: Option<PixelDimensions>,
    /// Duration observation when applicable.
    pub duration: Option<MediaDuration>,
    /// Retained thumbnail.
    pub thumbnail: Option<MediaView>,
    /// Retained preview.
    pub preview: Option<MediaView>,
    /// Retained sampled frames.
    pub frames: Vec<MediaFrameView>,
    /// Retained waveform.
    pub waveform: Option<MediaView>,
    /// Retained transformed or transcoded outputs.
    pub derivatives: Vec<DerivedMedia>,
    /// Coverage and cache truth.
    pub coverage: MediaCoverage,
    /// Warnings.
    pub warnings: Vec<String>,
    /// Limitations.
    pub limitations: Vec<String>,
}

/// Abstract value of a media report.
pub ghost struct MediaReportView {
    /// Source digest.
    pub source_sha256: Seq<char>,
    /// Source revision.
    pub revision: (Seq<char>, Seq<char>),
    /// Agreed type.
    pub agreed_media_type: Option<Seq<char>>,
    /// Media family.
    pub media_class: Option<MediaClass>,
    /// Selected adapter.
    pub adapter_id: Option<Seq<char>>,
    /// Metadata fields.
    pub metadata: Seq<(Seq<char>, Seq<char>)>,
    /// Dimensions.
    pub dimensions: Option<PixelDimensions>,
    /// Duration.
    pub duration: Option<MediaDuration>,
    /// Thumbnail.
    pub thumbnail: Option<ViewValue>,
    /// Preview.
    pub preview: Option<ViewValue>,
    /// Frames.
    pub frames: Seq<FrameValue>,
    /// Waveform.
    pub waveform: Option<ViewValue>,
    /// Derivatives.
    pub derivatives: Seq<DerivedValue>,
    /// Completeness claim.
    pub complete: bool,
    /// Observed source bytes.
    pub observed: u64,
    /// Cached view bytes.
    pub cached: u64,
    /// Retained frame count.
    pub retained_frames: usize,
    /// Gaps.
    pub gaps: Seq<Seq<char>>,
    /// Warnings.
    pub warnings: Seq<Seq<char>>,
    /// Limitations.
    pub limitations: Seq<Seq<char>>,
}

impl View for MediaReport {
    type V = MediaReportView;

    open spec fn view(&self) -> MediaReportView {
        MediaReportView {
            source_sha256: self.source_sha256@,
            revision: self.source_revision_ref@,
            agreed_media_type: opt_view(self.agreed_media_type),
            media_class: self.media_class,
            adapter_id: opt_view(self.adapter_id),
            metadata: media_fields(self.metadata@),
            dimensions: self.dimensions,
            duration: self.duration,
            thumbnail: media_view_value(self.thumbnail),
            preview: media_view_value(self.preview),
            frames: frame_values(self.frames@),
            waveform: media_view_value(self.waveform),
            derivatives: derived_values(self.derivatives@),
            complete: self.coverage.complete_claim,
            observed: self.coverage.observed_source_bytes,
            cached: self.coverage.cached_view_bytes,
            retained_frames: self.coverage.retained_frames,
            gaps: string_views(self.coverage.unknown_gaps@),
            warnings: string_views(self.warnings@),
            limitations: string_views(self.limitations@),
        }
    }
}

/// Record an unknown gap: completeness can no longer be claimed.
pub open spec fn mgap(m: MediaReportView, g: Seq<char>) -> MediaReportView {
    MediaReportView { complete: false, gaps: m.gaps.push(g), ..m }
}

/// Record an unknown gap and a limitation.
pub open spec fn mgap_lim(m: MediaReportView, g: Seq<char>, l: Seq<char>) -> MediaReportView {
    MediaReportView { complete: false, gaps: m.gaps.push(g), limitations: m.limitations.push(l), ..m }
}

pub(crate) fn mark_gap(report: &mut MediaReport, reason: String)
    ensures
        final(report)@ == mgap(old(report)@, reason@),
{
    report.coverage.complete_claim = false;
    push_string(&mut report.coverage.unknown_gaps, reason);
}

fn mark_gap_lim(report: &mut MediaReport, reason: String, limitation: String)
    ensures
        final(report)@ == mgap_lim(old(report)@, reason@, limitation@),
{
    report.coverage.complete_claim = false;
    push_string(&mut report.coverage.unknown_gaps, reason);
    push_string(&mut report.limitations, limitation);
}

// ---------------------------------------------------------------------------------------------
// Absorbing provider evidence
// ---------------------------------------------------------------------------------------------

/// Gap recorded when metadata is over its bound.
pub open spec fn metadata_gap() -> Seq<char> {
    "media metadata exceeded B04 max_metadata_fields"@
}

/// Gap recorded when the provider inspected only part of the source.
pub open spec fn partial_source_gap() -> Seq<char> {
    "media Provider inspected only part of the immutable source bytes"@
}

/// Gap recorded when the provider reported partial coverage without a gap.
pub open spec fn partial_coverage_gap() -> Seq<char> {
    "media Provider reported partial supported coverage"@
}

/// Gap recorded when the duration is not complete.
pub open spec fn duration_gap() -> Seq<char> {
    "full media duration was not mechanically established"@
}

/// The report after absorbing validated provider evidence: bounded metadata, dimensions,
/// duration, observed bytes, the completeness claim, provider gaps, warnings and limitations;
/// then gaps for a partial source read, an unexplained partial claim, and an incomplete duration.
pub open spec fn absorb_spec(m: MediaReportView, o: AdapterMediaOut, id: Seq<char>, max_fields: int, source_len: int) -> MediaReportView {
    let k = if o.metadata.len() < max_fields { o.metadata.len() as int } else { max_fields };
    let g0 = if o.metadata.len() > max_fields { m.gaps.push(metadata_gap()) } else { m.gaps };
    let m1 = MediaReportView {
        adapter_id: Some(id),
        metadata: o.metadata.take(k),
        dimensions: o.dimensions,
        duration: o.duration,
        observed: o.observed,
        complete: o.complete,
        gaps: g0 + o.gaps,
        warnings: o.warnings,
        limitations: o.limitations,
        ..m
    };
    let m2 = if o.observed < source_len {
        MediaReportView {
            duration: match m1.duration {
                Some(d) => Some(MediaDuration { complete: false, ..d }),
                None => None,
            },
            ..mgap(m1, partial_source_gap())
        }
    } else {
        m1
    };
    let m3 = if !o.complete && m2.gaps.len() == 0 { mgap(m2, partial_coverage_gap()) } else { m2 };
    if m3.duration matches Some(d) && !d.complete {
        mgap(m3, duration_gap())
    } else {
        m3
    }
}

pub(crate) fn absorb_stage(
    report: &mut MediaReport,
    metadata: Vec<MediaMetadata>,
    dimensions: Option<PixelDimensions>,
    duration: Option<MediaDuration>,
    observed: u64,
    complete: bool,
    gaps: Vec<String>,
    warnings: Vec<String>,
    limitations: Vec<String>,
    id: String,
    max_fields: usize,
    source_len: usize,
    o: Ghost<AdapterMediaOut>,
)
    requires
        o@.metadata == media_fields(metadata@),
        o@.dimensions == dimensions,
        o@.duration == duration,
        o@.observed == observed,
        o@.complete == complete,
        o@.gaps == string_views(gaps@),
        o@.warnings == string_views(warnings@),
        o@.limitations == string_views(limitations@),
    ensures
        final(report)@ == absorb_spec(old(report)@, o@, id@, max_fields as int, source_len as int),
{
    let produced = metadata.len();
    let mut kept: Vec<MediaMetadata> = Vec::new();
    let mut i: usize = 0;
    let mut rest = metadata;
    let ghost all = media_fields(rest@);
    while i < produced && i < max_fields
        invariant
            i <= produced,
            i <= max_fields,
            rest@.len() == produced,
            all == media_fields(rest@),
            all == o@.metadata,
            all.len() == produced,
            media_fields(kept@) == all.take(i as int),
        decreases produced - i,
    {
        let ghost before = kept@;
        assert(all[i as int] == (rest@[i as int].key@, rest@[i as int].value@));
        let f = MediaMetadata { key: rest[i].key.clone(), value: rest[i].value.clone() };
        kept.push(f);
        assert(media_fields(kept@) =~= media_fields(before).push(all[i as int]));
        assert(all.take(i as int + 1) =~= all.take(i as int).push(all[i as int]));
        i = i + 1;
    }
    let mut all_gaps: Vec<String> = Vec::new();
    std::mem::swap(&mut all_gaps, &mut report.coverage.unknown_gaps);
    if produced > max_fields {
        push_string(&mut all_gaps, owned("media metadata exceeded B04 max_metadata_fields"));
    }
    let ghost g0 = string_views(all_gaps@);
    let mut j: usize = 0;
    while j < gaps.len()
        invariant
            j <= gaps@.len(),
            string_views(all_gaps@) == g0 + string_views(gaps@).take(j as int),
        decreases gaps.len() - j,
    {
        push_string(&mut all_gaps, gaps[j].clone());
        assert(string_views(gaps@).take(j as int + 1) =~= string_views(gaps@).take(j as int).push(gaps@[j as int]@));
        assert(g0 + string_views(gaps@).take(j as int + 1) =~= (g0 + string_views(gaps@).take(j as int)).push(
            gaps@[j as int]@,
        ));
        j = j + 1;
    }
    assert(string_views(gaps@).take(gaps@.len() as int) =~= string_views(gaps@));
    report.coverage.unknown_gaps = all_gaps;
    report.adapter_id = Some(id);
    report.metadata = kept;
    report.dimensions = dimensions;
    report.duration = duration;
    report.coverage.observed_source_bytes = observed;
    report.coverage.complete_claim = complete;
    report.warnings = warnings;
    report.limitations = limitations;
    let ghost m = old(report)@;
    let ghost k = if o@.metadata.len() < max_fields { o@.metadata.len() as int } else { max_fields as int };
    let ghost g0s = if o@.metadata.len() > max_fields { m.gaps.push(metadata_gap()) } else { m.gaps };
    assert(g0 == g0s);
    assert(i == k);
    assert(report@.metadata == o@.metadata.take(k));
    assert(report@ == MediaReportView {
        adapter_id: Some(id@),
        metadata: o@.metadata.take(k),
        dimensions: o@.dimensions,
        duration: o@.duration,
        observed: o@.observed,
        complete: o@.complete,
        gaps: g0s + o@.gaps,
        warnings: o@.warnings,
        limitations: o@.limitations,
        ..m
    });
    if observed < source_len as u64 {
        mark_gap(report, owned("media Provider inspected only part of the immutable source bytes"));
        report.duration = match report.duration {
            Some(d) => Some(MediaDuration { milliseconds: d.milliseconds, complete: false }),
            None => None,
        };
    }
    if !complete && report.coverage.unknown_gaps.len() == 0 {
        mark_gap(report, owned("media Provider reported partial supported coverage"));
    }
    let incomplete = match report.duration {
        Some(d) => !d.complete,
        None => false,
    };
    if incomplete {
        mark_gap(report, owned("full media duration was not mechanically established"));
    }
}

// ---------------------------------------------------------------------------------------------
// Views under the cache budget
// ---------------------------------------------------------------------------------------------

/// Retain an optional view of kind `label` within its own bound and the shared cache budget:
/// the updated report and the retained view, or an accounting overflow.
pub open spec fn retain_view_spec(
    m: MediaReportView,
    v: Option<(Seq<char>, Seq<u8>)>,
    label: Seq<char>,
    max_payload: int,
    max_cache: int,
    rev: (Seq<char>, Seq<char>),
) -> Result<(MediaReportView, Option<ViewValue>), MediaFault> {
    match v {
        None => Ok((m, None)),
        Some((mt, b)) => if b.len() > max_payload {
            Ok(
                (
                    mgap_lim(
                        m,
                        "media "@ + label + " exceeded its B04 per-View byte limit"@,
                        "oversized media "@ + label + " was not retained"@,
                    ),
                    None,
                ),
            )
        } else if m.cached + b.len() > u64::MAX {
            Err(MediaFault::AccountingOverflow)
        } else if m.cached + b.len() > max_cache {
            Ok(
                (
                    mgap_lim(
                        m,
                        "media "@ + label + " exceeded B04 aggregate cached-View policy"@,
                        "media "@ + label + " was not retained because the cached-View budget was exhausted"@,
                    ),
                    None,
                ),
            )
        } else {
            Ok((MediaReportView { cached: (m.cached + b.len()) as u64, ..m }, Some((normalize_type_spec(mt), b, rev))))
        },
    }
}

fn label_text(prefix: &str, label: &str, suffix: &str) -> (s: String)
    ensures
        s@ == prefix@ + label@ + suffix@,
{
    let mut s = owned(prefix);
    s.append(label);
    s.append(suffix);
    s
}

pub(crate) fn retain_view(
    report: &mut MediaReport,
    v: Option<AdapterMediaView>,
    label: &str,
    max_payload: usize,
    max_cache: usize,
    rev: &EntityRef,
) -> (r: Result<Option<MediaView>, B04Error>)
    ensures
        match r {
            Ok(x) => retain_view_spec(old(report)@, payload_view(v), label@, max_payload as int, max_cache as int, rev@)
                == Ok::<(MediaReportView, Option<ViewValue>), MediaFault>((final(report)@, media_view_value(x))),
            Err(e) => retain_view_spec(old(report)@, payload_view(v), label@, max_payload as int, max_cache as int, rev@)
                == Err::<(MediaReportView, Option<ViewValue>), MediaFault>(e@),
        },
{
    match v {
        None => Ok(None),
        Some(x) => {
            if x.bytes.len() > max_payload {
                mark_gap_lim(
                    report,
                    label_text("media ", label, " exceeded its B04 per-View byte limit"),
                    label_text("oversized media ", label, " was not retained"),
                );
                return Ok(None);
            }
            let add = x.bytes.len() as u64;
            if add > u64::MAX - report.coverage.cached_view_bytes {
                return Err(B04Error::AccountingOverflow);
            }
            let next = report.coverage.cached_view_bytes + add;
            if next > max_cache as u64 {
                mark_gap_lim(
                    report,
                    label_text("media ", label, " exceeded B04 aggregate cached-View policy"),
                    label_text("media ", label, " was not retained because the cached-View budget was exhausted"),
                );
                return Ok(None);
            }
            report.coverage.cached_view_bytes = next;
            Ok(
                Some(
                    MediaView {
                        media_type: normalize_type(x.media_type.as_str()),
                        bytes: x.bytes,
                        source_revision_ref: rev.duplicate(),
                    },
                ),
            )
        },
    }
}

// ---------------------------------------------------------------------------------------------
// Frames
// ---------------------------------------------------------------------------------------------

/// `"frame at "`, the timestamp, then `suffix`.
pub open spec fn frame_text(prefix: Seq<char>, ts: u64, suffix: Seq<char>) -> Seq<char> {
    prefix + decimal(ts as nat) + suffix
}

/// Retain one sampled frame within its own bound and the shared cache budget.
pub open spec fn frame_step(
    st: Result<MediaReportView, MediaFault>,
    f: (u64, Seq<char>, Seq<u8>),
    max_frame: int,
    max_cache: int,
    rev: (Seq<char>, Seq<char>),
) -> Result<MediaReportView, MediaFault> {
    match st {
        Err(e) => Err(e),
        Ok(m) => {
            let (ts, mt, b) = f;
            if b.len() > max_frame {
                Ok(
                    mgap_lim(
                        m,
                        frame_text("frame at "@, ts, " ms exceeded B04 max_frame_bytes"@),
                        frame_text("oversized frame at "@, ts, " ms was not retained"@),
                    ),
                )
            } else if m.cached + b.len() > u64::MAX {
                Err(MediaFault::AccountingOverflow)
            } else if m.cached + b.len() > max_cache {
                Ok(
                    mgap_lim(
                        m,
                        frame_text("frame at "@, ts, " ms exceeded B04 aggregate cached-View policy"@),
                        frame_text("frame at "@, ts, " ms was not retained because the cached-View budget was exhausted"@),
                    ),
                )
            } else {
                Ok(
                    MediaReportView {
                        cached: (m.cached + b.len()) as u64,
                        frames: m.frames.push((ts, normalize_type_spec(mt), b, rev)),
                        ..m
                    },
                )
            }
        },
    }
}

/// Retention after the first `n` frames.
pub open spec fn frames_fold(
    fs: Seq<(u64, Seq<char>, Seq<u8>)>,
    n: int,
    m0: MediaReportView,
    max_frame: int,
    max_cache: int,
    rev: (Seq<char>, Seq<char>),
) -> Result<MediaReportView, MediaFault>
    decreases n,
{
    if n <= 0 {
        Ok(m0)
    } else {
        frame_step(frames_fold(fs, n - 1, m0, max_frame, max_cache, rev), fs[n - 1], max_frame, max_cache, rev)
    }
}

/// Retain at most `max_frames` frames; a gap when more were produced; the retained count.
pub open spec fn retain_frames_spec(
    m0: MediaReportView,
    fs: Seq<(u64, Seq<char>, Seq<u8>)>,
    max_frames: int,
    max_frame: int,
    max_cache: int,
    rev: (Seq<char>, Seq<char>),
) -> Result<MediaReportView, MediaFault> {
    let k = if fs.len() < max_frames { fs.len() as int } else { max_frames };
    match frames_fold(fs, k, m0, max_frame, max_cache, rev) {
        Err(e) => Err(e),
        Ok(m) => {
            let m2 = if fs.len() > max_frames { mgap(m, "sampled frames exceeded B04 max_frames"@) } else { m };
            Ok(MediaReportView { retained_frames: m2.frames.len() as usize, ..m2 })
        },
    }
}

proof fn lemma_frames_fold_err(
    fs: Seq<(u64, Seq<char>, Seq<u8>)>,
    j: int,
    n: int,
    m0: MediaReportView,
    max_frame: int,
    max_cache: int,
    rev: (Seq<char>, Seq<char>),
)
    requires
        0 <= j <= n,
        frames_fold(fs, j, m0, max_frame, max_cache, rev) is Err,
    ensures
        frames_fold(fs, n, m0, max_frame, max_cache, rev) == frames_fold(fs, j, m0, max_frame, max_cache, rev),
    decreases n - j,
{
    if j < n {
        lemma_frames_fold_err(fs, j, n - 1, m0, max_frame, max_cache, rev);
    }
}

pub(crate) fn retain_frames(
    report: &mut MediaReport,
    frames: &Vec<AdapterMediaFrame>,
    max_frames: usize,
    max_frame_bytes: usize,
    max_cache: usize,
    rev: &EntityRef,
) -> (r: Result<(), B04Error>)
    ensures
        match r {
            Ok(_) => retain_frames_spec(
                old(report)@,
                frame_views(frames@),
                max_frames as int,
                max_frame_bytes as int,
                max_cache as int,
                rev@,
            ) == Ok::<MediaReportView, MediaFault>(final(report)@),
            Err(e) => retain_frames_spec(
                old(report)@,
                frame_views(frames@),
                max_frames as int,
                max_frame_bytes as int,
                max_cache as int,
                rev@,
            ) == Err::<MediaReportView, MediaFault>(e@),
        },
{
    let ghost m0 = report@;
    let ghost fv = frame_views(frames@);
    let k = if frames.len() < max_frames { frames.len() } else { max_frames };
    let mut i: usize = 0;
    while i < k
        invariant
            i <= k <= fv.len(),
            k == (if fv.len() < max_frames { fv.len() as int } else { max_frames as int }),
            fv == frame_views(frames@),
            m0 == old(report)@,
            frames_fold(fv, i as int, m0, max_frame_bytes as int, max_cache as int, rev@) == Ok::<
                MediaReportView,
                MediaFault,
            >(report@),
        decreases k - i,
    {
        let f = &frames[i];
        assert(fv[i as int] == (f.timestamp_ms, f.media_type@, f.bytes@));
        if f.bytes.len() > max_frame_bytes {
            mark_gap_lim(
                report,
                numbered_message("frame at ", f.timestamp_ms, " ms exceeded B04 max_frame_bytes"),
                numbered_message("oversized frame at ", f.timestamp_ms, " ms was not retained"),
            );
        } else {
            let add = f.bytes.len() as u64;
            if add > u64::MAX - report.coverage.cached_view_bytes {
                proof {
                    assert(frames_fold(fv, i as int + 1, m0, max_frame_bytes as int, max_cache as int, rev@) == frame_step(
                        frames_fold(fv, i as int, m0, max_frame_bytes as int, max_cache as int, rev@),
                        fv[i as int],
                        max_frame_bytes as int,
                        max_cache as int,
                        rev@,
                    ));
                    assert(frames_fold(fv, i as int + 1, m0, max_frame_bytes as int, max_cache as int, rev@) is Err);
                    lemma_frames_fold_err(fv, i as int + 1, k as int, m0, max_frame_bytes as int, max_cache as int, rev@);
                    assert(frames_fold(fv, k as int, m0, max_frame_bytes as int, max_cache as int, rev@) == Err::<
                        MediaReportView,
                        MediaFault,
                    >(MediaFault::AccountingOverflow));
                    assert(retain_frames_spec(m0, fv, max_frames as int, max_frame_bytes as int, max_cache as int, rev@)
                        == Err::<MediaReportView, MediaFault>(MediaFault::AccountingOverflow));
                }
                return Err(B04Error::AccountingOverflow);
            }
            let next = report.coverage.cached_view_bytes + add;
            if next > max_cache as u64 {
                mark_gap_lim(
                    report,
                    numbered_message("frame at ", f.timestamp_ms, " ms exceeded B04 aggregate cached-View policy"),
                    numbered_message(
                        "frame at ",
                        f.timestamp_ms,
                        " ms was not retained because the cached-View budget was exhausted",
                    ),
                );
            } else {
                report.coverage.cached_view_bytes = next;
                let ghost before = report.frames@;
                report.frames.push(
                    MediaFrameView {
                        timestamp_ms: f.timestamp_ms,
                        media_type: normalize_type(f.media_type.as_str()),
                        bytes: vstd::slice::slice_to_vec(f.bytes.as_slice()),
                        source_revision_ref: rev.duplicate(),
                    },
                );
                assert(frame_values(report.frames@) =~= frame_values(before).push(
                    (f.timestamp_ms, normalize_type_spec(f.media_type@), f.bytes@, rev@),
                ));
            }
        }
        i = i + 1;
    }
    if frames.len() > max_frames {
        mark_gap(report, owned("sampled frames exceeded B04 max_frames"));
    }
    report.coverage.retained_frames = report.frames.len();
    Ok(())
}

/// Some retained frame has timestamp `ts`.
pub open spec fn has_frame(fs: Seq<FrameValue>, ts: u64) -> bool {
    exists|k: int| 0 <= k < fs.len() && (#[trigger] fs[k]).0 == ts
}

/// A gap for each of the first `n` requested timestamps that no retained frame has.
pub open spec fn missing_frames_fold(m: MediaReportView, req: Seq<u64>, n: int) -> MediaReportView
    decreases n,
{
    if n <= 0 {
        m
    } else {
        let m1 = missing_frames_fold(m, req, n - 1);
        if has_frame(m1.frames, req[n - 1]) {
            m1
        } else {
            mgap(m1, frame_text("requested frame at "@, req[n - 1], " ms was not retained"@))
        }
    }
}

proof fn lemma_missing_frames_keep(m: MediaReportView, req: Seq<u64>, n: int)
    ensures
        missing_frames_fold(m, req, n).frames == m.frames,
    decreases n,
{
    if n > 0 {
        lemma_missing_frames_keep(m, req, n - 1);
    }
}

pub(crate) fn note_missing_frames(report: &mut MediaReport, requested: &Vec<u64>)
    ensures
        final(report)@ == missing_frames_fold(old(report)@, requested@, requested@.len() as int),
{
    let ghost m0 = report@;
    let mut i: usize = 0;
    while i < requested.len()
        invariant
            i <= requested@.len(),
            report@ == missing_frames_fold(m0, requested@, i as int),
        decreases requested.len() - i,
    {
        proof { lemma_missing_frames_keep(m0, requested@, i as int); }
        let ts = requested[i];
        let mut found = false;
        let mut j: usize = 0;
        while j < report.frames.len()
            invariant
                j <= report@.frames.len(),
                found <==> exists|k: int| 0 <= k < j && (#[trigger] report@.frames[k]).0 == ts,
            decreases report@.frames.len() - j,
        {
            assert(report@.frames[j as int].0 == report.frames@[j as int].timestamp_ms);
            if report.frames[j].timestamp_ms == ts {
                found = true;
            }
            j = j + 1;
        }
        if !found {
            mark_gap(report, numbered_message("requested frame at ", ts, " ms was not retained"));
        }
        i = i + 1;
    }
}

// ---------------------------------------------------------------------------------------------
// Derivatives and completion
// ---------------------------------------------------------------------------------------------

/// Retain one derivative within its bound, bound to the exact source.
pub open spec fn derivative_step(
    m: MediaReportView,
    d: (DerivedMediaKind, Seq<char>, Seq<u8>),
    max: int,
    rev: (Seq<char>, Seq<char>),
    sha: Seq<char>,
    id: Seq<char>,
) -> MediaReportView {
    let (kind, mt, b) = d;
    if b.len() > max {
        mgap_lim(
            m,
            derived_kind_token(kind) + " output exceeded B04 max_derived_bytes"@,
            "oversized "@ + derived_kind_token(kind) + " output was not retained"@,
        )
    } else {
        MediaReportView {
            derivatives: m.derivatives.push(
                DerivedValue {
                    kind,
                    media_type: normalize_type_spec(mt),
                    bytes: b,
                    sha256: sha256_hex_of(b),
                    revision: rev,
                    source_sha256: sha,
                    adapter_id: id,
                },
            ),
            ..m
        }
    }
}

/// Retention after the first `n` derivatives.
pub open spec fn derivatives_fold(
    ds: Seq<(DerivedMediaKind, Seq<char>, Seq<u8>)>,
    n: int,
    m0: MediaReportView,
    max: int,
    rev: (Seq<char>, Seq<char>),
    sha: Seq<char>,
    id: Seq<char>,
) -> MediaReportView
    decreases n,
{
    if n <= 0 {
        m0
    } else {
        derivative_step(derivatives_fold(ds, n - 1, m0, max, rev, sha, id), ds[n - 1], max, rev, sha, id)
    }
}

/// Some retained derivative has kind `k`.
pub open spec fn has_kind(ds: Seq<DerivedValue>, k: DerivedMediaKind) -> bool {
    exists|i: int| 0 <= i < ds.len() && (#[trigger] ds[i]).kind == k
}

/// Retain derivatives, then record a gap for each requested derivative kind not retained.
pub open spec fn derive_spec(
    m0: MediaReportView,
    ds: Seq<(DerivedMediaKind, Seq<char>, Seq<u8>)>,
    r: RequestView,
    max: int,
    rev: (Seq<char>, Seq<char>),
    sha: Seq<char>,
    id: Seq<char>,
) -> MediaReportView {
    let m = derivatives_fold(ds, ds.len() as int, m0, max, rev, sha, id);
    let m2 = if r.image_transform is Some && !has_kind(m.derivatives, DerivedMediaKind::ImageTransform) {
        mgap(m, "requested image transformation was not retained"@)
    } else {
        m
    };
    if r.transcode is Some && !has_kind(m2.derivatives, DerivedMediaKind::Transcode) {
        mgap(m2, "requested media transcode was not retained"@)
    } else {
        m2
    }
}

fn has_derived(report: &MediaReport, k: DerivedMediaKind) -> (r: bool)
    ensures
        r == has_kind(report@.derivatives, k),
{
    let mut i: usize = 0;
    while i < report.derivatives.len()
        invariant
            i <= report@.derivatives.len(),
            forall|j: int| 0 <= j < i ==> (#[trigger] report@.derivatives[j]).kind != k,
        decreases report@.derivatives.len() - i,
    {
        assert(report@.derivatives[i as int].kind == report.derivatives@[i as int].kind);
        if report.derivatives[i].kind == k {
            return true;
        }
        i = i + 1;
    }
    false
}

pub(crate) fn derive_stage(
    report: &mut MediaReport,
    ds: &Vec<AdapterDerivedMedia>,
    wants_transform: bool,
    wants_transcode: bool,
    max: usize,
    rev: &EntityRef,
    sha: &String,
    id: &String,
    r: Ghost<RequestView>,
)
    requires
        wants_transform == r@.image_transform is Some,
        wants_transcode == r@.transcode is Some,
    ensures
        final(report)@ == derive_spec(old(report)@, derivative_views(ds@), r@, max as int, rev@, sha@, id@),
{
    let ghost m0 = report@;
    let ghost dv = derivative_views(ds@);
    let mut i: usize = 0;
    while i < ds.len()
        invariant
            i <= dv.len(),
            dv == derivative_views(ds@),
            report@ == derivatives_fold(dv, i as int, m0, max as int, rev@, sha@, id@),
        decreases dv.len() - i,
    {
        let d = &ds[i];
        assert(dv[i as int] == (d.kind, d.media_type@, d.bytes@));
        if d.bytes.len() > max {
            let kind = d.kind.as_str();
            let mut g = owned(kind);
            g.append(" output exceeded B04 max_derived_bytes");
            let mut l = owned("oversized ");
            l.append(kind);
            l.append(" output was not retained");
            mark_gap_lim(report, g, l);
        } else {
            let ghost before = report.derivatives@;
            report.derivatives.push(
                DerivedMedia {
                    kind: d.kind,
                    media_type: normalize_type(d.media_type.as_str()),
                    bytes: vstd::slice::slice_to_vec(d.bytes.as_slice()),
                    sha256: sha256_hex(d.bytes.as_slice()),
                    source_revision_ref: rev.duplicate(),
                    source_sha256: sha.clone(),
                    adapter_id: id.clone(),
                },
            );
            assert(derived_values(report.derivatives@) =~= derived_values(before).push(report@.derivatives.last()));
        }
        i = i + 1;
    }
    if wants_transform && !has_derived(report, DerivedMediaKind::ImageTransform) {
        mark_gap(report, owned("requested image transformation was not retained"));
    }
    if wants_transcode && !has_derived(report, DerivedMediaKind::Transcode) {
        mark_gap(report, owned("requested media transcode was not retained"));
    }
}

/// Completion: any gap withdraws completeness, and gaps, warnings and limitations keep first
/// occurrences only.
pub open spec fn finish_media_spec(m: MediaReportView) -> MediaReportView {
    let c = if m.gaps.len() > 0 { false } else { m.complete };
    MediaReportView {
        complete: c,
        gaps: dedup_spec(m.gaps),
        warnings: dedup_spec(m.warnings),
        limitations: dedup_spec(m.limitations),
        ..m
    }
}

pub(crate) fn finish_media(report: &mut MediaReport)
    ensures
        final(report)@ == finish_media_spec(old(report)@),
{
    if report.coverage.unknown_gaps.len() != 0 {
        report.coverage.complete_claim = false;
    }
    dedup_strings(&mut report.coverage.unknown_gaps);
    dedup_strings(&mut report.warnings);
    dedup_strings(&mut report.limitations);
}

} // verus!
