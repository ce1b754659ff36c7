//! Passive media interpretation: request validation, provider output validation and the bounded
//! retention of views, frames and derivatives under a shared cache budget.
use vstd::prelude::*;
use crate::identity::EntityRef;
use crate::partition_map::{opt_view, string_views};
use crate::text_ops::{normalize_type, normalize_type_spec, trim_spec, trimmed};
use crate::text::owned;

verus! {

/// Media family selected from the agreed type.
#[derive(Debug, Clone, Copy, PartialEq, Eq, Structural)]
pub enum MediaClass {
    /// Image media.
    Image,
    /// Audio media.
    Audio,
    /// Video media.
    Video,
}

/// Resource and cache bounds applied after provider work returns.
#[derive(Debug, Clone, Copy, PartialEq, Eq, Structural)]
pub struct MediaLimits {
    /// Maximum retained metadata fields.
    pub max_metadata_fields: usize,
    /// Maximum retained thumbnail bytes.
    pub max_thumbnail_bytes: usize,
    /// Maximum retained preview bytes.
    pub max_preview_bytes: usize,
    /// Maximum retained frame count.
    pub max_frames: usize,
    /// Maximum retained bytes for any one sampled frame.
    pub max_frame_bytes: usize,
    /// Maximum retained waveform bytes.
    pub max_waveform_bytes: usize,
    /// Maximum aggregate bytes retained across thumbnail, preview, frame and waveform views.
    pub max_cached_view_bytes: usize,
    /// Maximum retained bytes for one transformed or transcoded derivative.
    pub max_derived_bytes: usize,
}

impl Default for MediaLimits {
    fn default() -> (r: Self)
        ensures
            r.max_metadata_fields == 256,
            r.max_thumbnail_bytes == 2 * 1024 * 1024,
            r.max_preview_bytes == 8 * 1024 * 1024,
            r.max_frames == 32,
            r.max_frame_bytes == 8 * 1024 * 1024,
            r.max_waveform_bytes == 2 * 1024 * 1024,
            r.max_cached_view_bytes == 64 * 1024 * 1024,
            r.max_derived_bytes == 128 * 1024 * 1024,
    {
        MediaLimits {
            max_metadata_fields: 256,
            max_thumbnail_bytes: 2 * 1024 * 1024,
            max_preview_bytes: 8 * 1024 * 1024,
            max_frames: 32,
            max_frame_bytes: 8 * 1024 * 1024,
            max_waveform_bytes: 2 * 1024 * 1024,
            max_cached_view_bytes: 64 * 1024 * 1024,
            max_derived_bytes: 128 * 1024 * 1024,
        }
    }
}

/// All media limits are non-zero.
pub open spec fn media_limits_valid(l: MediaLimits) -> bool {
    l.max_metadata_fields != 0 && l.max_thumbnail_bytes != 0 && l.max_preview_bytes != 0 && l.max_frames != 0
        && l.max_frame_bytes != 0 && l.max_waveform_bytes != 0 && l.max_cached_view_bytes != 0
        && l.max_derived_bytes != 0
}

/// Whether a media provider may use one potentially active capability.
#[derive(Debug, Clone, Copy, PartialEq, Eq, Structural)]
pub enum MediaIsolationPolicy {
    /// Capability is denied.
    Denied,
    /// Capability is allowed.
    Allowed,
}

/// Passive isolation declaration required from a media provider adapter.
#[derive(Debug, Clone, Copy, PartialEq, Eq, Structural)]
pub struct MediaIsolation {
    /// Execute active content embedded in media or container metadata.
    pub active_content_execution: MediaIsolationPolicy,
    /// Provider-originated network access.
    pub network_access: MediaIsolationPolicy,
    /// Loading external resources referenced by media metadata.
    pub external_resource_loading: MediaIsolationPolicy,
}

/// Every capability is denied.
pub open spec fn media_isolation_safe(i: MediaIsolation) -> bool {
    i.active_content_execution == MediaIsolationPolicy::Denied && i.network_access == MediaIsolationPolicy::Denied
        && i.external_resource_loading == MediaIsolationPolicy::Denied
}

impl MediaIsolation {
    /// Strict passive policy: every capability denied.
    pub fn passive() -> (r: Self)
        ensures
            media_isolation_safe(r),
    {
        MediaIsolation {
            active_content_execution: MediaIsolationPolicy::Denied,
            network_access: MediaIsolationPolicy::Denied,
            external_resource_loading: MediaIsolationPolicy::Denied,
        }
    }

    /// Whether every capability is denied.
    pub fn is_safe(self) -> (r: bool)
        ensures
            r == media_isolation_safe(self),
    {
        self.active_content_execution == MediaIsolationPolicy::Denied && self.network_access
            == MediaIsolationPolicy::Denied && self.external_resource_loading == MediaIsolationPolicy::Denied
    }
}

/// Exact media source context.
#[derive(Debug)]
pub struct MediaContext {
    /// Workspace owning source and derived records.
    pub workspace_ref: EntityRef,
    /// Exact authority for the operation.
    pub authority_ref: EntityRef,
    /// Immutable source object revision.
    pub source_revision_ref: EntityRef,
}

/// Image transform requested by the caller.
#[derive(Debug, Clone, Copy, PartialEq, Eq, Structural)]
pub enum ImageTransformOperation {
    /// Resize to exact non-zero pixel dimensions.
    Resize {
        /// Target width.
        width: u32,
        /// Target height.
        height: u32,
    },
    /// Rotate clockwise by one, two or three quarter turns.
    RotateQuarterTurns {
        /// Number of clockwise quarter turns.
        quarter_turns: u8,
    },
    /// Re-encode without a geometric transform.
    Reencode,
}

/// Controlled image transformation request.
#[derive(Debug)]
pub struct ImageTransformRequest {
    /// Exact requested output media type.
    pub target_media_type: String,
    /// Exact transformation operation.
    pub operation: ImageTransformOperation,
}

/// Controlled audio or video transcode request.
#[derive(Debug)]
pub struct TranscodeRequest {
    /// Exact requested output media type, in the source's media family.
    pub target_media_type: String,
}

/// Caller-selected outputs; expensive derivatives are never produced implicitly.
#[derive(Debug)]
pub struct MediaRequest {
    /// Request one bounded thumbnail view.
    pub thumbnail: bool,
    /// Request one bounded preview view.
    pub preview: bool,
    /// Optional controlled image transform.
    pub image_transform: Option<ImageTransformRequest>,
    /// Video frame timestamps requested, in milliseconds.
    pub frame_timestamps_ms: Vec<u64>,
    /// Request one bounded waveform view for audio-bearing media.
    pub waveform: bool,
    /// Optional controlled audio or video transcode.
    pub transcode: Option<TranscodeRequest>,
}

impl Default for MediaRequest {
    fn default() -> (r: Self)
        ensures
            !r.thumbnail && !r.preview && !r.waveform,
            r.image_transform is None && r.transcode is None,
            r.frame_timestamps_ms@.len() == 0,
    {
        MediaRequest {
            thumbnail: false,
            preview: false,
            image_transform: None,
            frame_timestamps_ms: Vec::new(),
            waveform: false,
            transcode: None,
        }
    }
}

/// Abstract value of a media request.
pub ghost struct RequestView {
    /// Thumbnail requested.
    pub thumbnail: bool,
    /// Preview requested.
    pub preview: bool,
    /// Image transform target and operation.
    pub image_transform: Option<(Seq<char>, ImageTransformOperation)>,
    /// Requested frame timestamps.
    pub frames: Seq<u64>,
    /// Waveform requested.
    pub waveform: bool,
    /// Transcode target.
    pub transcode: Option<Seq<char>>,
}

impl View for MediaRequest {
    type V = RequestView;

    open spec fn view(&self) -> RequestView {
        RequestView {
            thumbnail: self.thumbnail,
            preview: self.preview,
            image_transform: match self.image_transform {
                Some(t) => Some((t.target_media_type@, t.operation)),
                None => None,
            },
            frames: self.frame_timestamps_ms@,
            waveform: self.waveform,
            transcode: match self.transcode {
                Some(t) => Some(t.target_media_type@),
                None => None,
            },
        }
    }
}

/// Provider-supplied metadata field.
#[derive(Debug)]
pub struct MediaMetadata {
    /// Stable technical key.
    pub key: String,
    /// Exact observed value.
    pub value: String,
}

/// Views of metadata fields.
pub open spec fn media_fields(s: Seq<MediaMetadata>) -> Seq<(Seq<char>, Seq<char>)> {
    s.map_values(|m: MediaMetadata| (m.key@, m.value@))
}

/// Pixel dimensions when mechanically established.
#[derive(Debug, Clone, Copy, PartialEq, Eq, Structural)]
pub struct PixelDimensions {
    /// Width in pixels.
    pub width: u32,
    /// Height in pixels.
    pub height: u32,
}

/// Duration observation; `complete` distinguishes full duration truth from a partial probe.
#[derive(Debug, Clone, Copy, PartialEq, Eq, Structural)]
pub struct MediaDuration {
    /// Observed duration in milliseconds.
    pub milliseconds: u64,
    /// Whether the provider mechanically established full duration coverage.
    pub complete: bool,
}

/// Provider payload for a passive thumbnail, preview or waveform.
#[derive(Debug)]
pub struct AdapterMediaView {
    /// Payload media type.
    pub media_type: String,
    /// Exact payload bytes.
    pub bytes: Vec<u8>,
}

/// View of an optional provider payload.
pub open spec fn payload_view(v: Option<AdapterMediaView>) -> Option<(Seq<char>, Seq<u8>)> {
    match v {
        Some(x) => Some((x.media_type@, x.bytes@)),
        None => None,
    }
}

/// Provider-produced sampled video frame.
#[derive(Debug)]
pub struct AdapterMediaFrame {
    /// Requested sample timestamp in milliseconds.
    pub timestamp_ms: u64,
    /// Frame media type.
    pub media_type: String,
    /// Exact frame bytes.
    pub bytes: Vec<u8>,
}

/// Views of provider frames.
pub open spec fn frame_views(s: Seq<AdapterMediaFrame>) -> Seq<(u64, Seq<char>, Seq<u8>)> {
    s.map_values(|f: AdapterMediaFrame| (f.timestamp_ms, f.media_type@, f.bytes@))
}

/// Kind of caller-requested derived media output.
#[derive(Debug, Clone, Copy, PartialEq, Eq, Structural)]
pub enum DerivedMediaKind {
    /// Image transformation output.
    ImageTransform,
    /// Audio or video transcode output.
    Transcode,
}

/// Stable token of a derivative kind.
pub open spec fn derived_kind_token(k: DerivedMediaKind) -> Seq<char> {
    match k {
        DerivedMediaKind::ImageTransform => "image_transform"@,
        DerivedMediaKind::Transcode => "transcode"@,
    }
}

impl DerivedMediaKind {
    /// Stable token.
    pub fn as_str(self) -> (r: &'static str)
        ensures
            r@ == derived_kind_token(self),
    {
        match self {
            DerivedMediaKind::ImageTransform => "image_transform",
            DerivedMediaKind::Transcode => "transcode",
        }
    }
}

/// Provider-produced derivative before source provenance is attached.
#[derive(Debug)]
pub struct AdapterDerivedMedia {
    /// Requested derivative kind.
    pub kind: DerivedMediaKind,
    /// Exact output media type.
    pub media_type: String,
    /// Exact output bytes.
    pub bytes: Vec<u8>,
}

/// Views of provider derivatives.
pub open spec fn derivative_views(s: Seq<AdapterDerivedMedia>) -> Seq<(DerivedMediaKind, Seq<char>, Seq<u8>)> {
    s.map_values(|d: AdapterDerivedMedia| (d.kind, d.media_type@, d.bytes@))
}

/// Bounded mechanical output returned by one media provider adapter.
#[derive(Debug)]
pub struct AdapterMedia {
    /// Technical metadata observations.
    pub metadata: Vec<MediaMetadata>,
    /// Pixel dimensions when established.
    pub dimensions: Option<PixelDimensions>,
    /// Duration observation when applicable.
    pub duration: Option<MediaDuration>,
    /// Number of source bytes mechanically inspected.
    pub observed_source_bytes: u64,
    /// Optional requested thumbnail.
    pub thumbnail: Option<AdapterMediaView>,
    /// Optional requested preview.
    pub preview: Option<AdapterMediaView>,
    /// Requested sampled frames.
    pub frames: Vec<AdapterMediaFrame>,
    /// Optional requested waveform.
    pub waveform: Option<AdapterMediaView>,
    /// Caller-requested transformed or transcoded outputs.
    pub derivatives: Vec<AdapterDerivedMedia>,
    /// Whether the provider claims complete supported media coverage.
    pub complete_claim: bool,
    /// Explicit unknown or unsupported ranges and semantic gaps.
    pub unknown_gaps: Vec<String>,
    /// Provider warnings.
    pub warnings: Vec<String>,
    /// Provider limitations.
    pub limitations: Vec<String>,
}

/// Abstract value of provider output.
pub ghost struct AdapterMediaOut {
    /// Metadata fields.
    pub metadata: Seq<(Seq<char>, Seq<char>)>,
    /// Dimensions.
    pub dimensions: Option<PixelDimensions>,
    /// Duration.
    pub duration: Option<MediaDuration>,
    /// Observed source bytes.
    pub observed: u64,
    /// Thumbnail payload.
    pub thumbnail: Option<(Seq<char>, Seq<u8>)>,
    /// Preview payload.
    pub preview: Option<(Seq<char>, Seq<u8>)>,
    /// Frames.
    pub frames: Seq<(u64, Seq<char>, Seq<u8>)>,
    /// Waveform payload.
    pub waveform: Option<(Seq<char>, Seq<u8>)>,
    /// Derivatives.
    pub derivatives: Seq<(DerivedMediaKind, Seq<char>, Seq<u8>)>,
    /// Completeness claim.
    pub complete: bool,
    /// Gaps.
    pub gaps: Seq<Seq<char>>,
    /// Warnings.
    pub warnings: Seq<Seq<char>>,
    /// Limitations.
    pub limitations: Seq<Seq<char>>,
}

impl View for AdapterMedia {
    type V = AdapterMediaOut;

    open spec fn view(&self) -> AdapterMediaOut {
        AdapterMediaOut {
            metadata: media_fields(self.metadata@),
            dimensions: self.dimensions,
            duration: self.duration,
            observed: self.observed_source_bytes,
            thumbnail: payload_view(self.thumbnail),
            preview: payload_view(self.preview),
            frames: frame_views(self.frames@),
            waveform: payload_view(self.waveform),
            derivatives: derivative_views(self.derivatives@),
            complete: self.complete_claim,
            gaps: string_views(self.unknown_gaps@),
            warnings: string_views(self.warnings@),
            limitations: string_views(self.limitations@),
        }
    }
}

/// Replaceable passive media provider. Each method's answers are described by a relation the
/// implementation may state; by default any answer is allowed.
pub trait MediaAdapter {
    /// Whether `id` is an identity this adapter may report.
    open spec fn id_post(&self, id: Seq<char>) -> bool {
        true
    }

    /// Whether `r` is an answer this adapter may give for supporting `media_type`.
    open spec fn supports_post(&self, media_type: Seq<char>, r: bool) -> bool {
        true
    }

    /// Whether `r` is an isolation this adapter may declare.
    open spec fn isolation_post(&self, r: MediaIsolation) -> bool {
        true
    }

    /// Whether `r` is a result this adapter may give for `source` as `media_type` under
    /// `request` and `limits`.
    open spec fn inspect_post(
        &self,
        source: Seq<u8>,
        media_type: Seq<char>,
        request: RequestView,
        limits: MediaLimits,
        r: Result<AdapterMedia, String>,
    ) -> bool {
        true
    }

    /// Stable provider adapter identity.
    fn adapter_id(&self) -> (r: &str)
        ensures
            self.id_post(r@),
    ;

    /// Whether this adapter supports the exact normalized agreed media type.
    fn supports_media_type(&self, media_type: &str) -> (r: bool)
        ensures
            self.supports_post(media_type@, r),
    ;

    /// Passive isolation declaration.
    fn isolation(&self) -> (r: MediaIsolation)
        ensures
            self.isolation_post(r),
    ;

    /// Inspect and optionally derive media under the exact request and limits; a
    /// provider-specific message on failure.
    fn inspect(&self, source_bytes: &[u8], media_type: &str, request: &MediaRequest, limits: MediaLimits) -> (r: Result<
        AdapterMedia,
        String,
    >)
        ensures
            self.inspect_post(source_bytes@, media_type@, request@, limits, r),
    ;
}

/// Failures that prevent truthful media interpretation or derivation.
#[derive(Debug)]
pub enum B04Error {
    /// Source reference is not an exact object revision.
    InvalidSourceRevision,
    /// One or more resource limits are zero.
    InvalidLimits,
    /// The request is incompatible with the media family or limits.
    InvalidRequest(&'static str),
    /// Adapter identity is empty.
    EmptyAdapterId,
    /// Adapter identity is duplicated.
    DuplicateAdapterId(String),
    /// More than one adapter claims the selected media type.
    AmbiguousAdapter(String),
    /// Adapter isolation declaration is not passive.
    UnsafeAdapterIsolation(String),
    /// Provider failed mechanically.
    AdapterFailed(String),
    /// Provider claims to have inspected more bytes than exist.
    InvalidObservedSourceBytes,
    /// Provider emitted an empty metadata key.
    EmptyMetadataKey,
    /// Provider emitted zero pixel dimensions.
    InvalidDimensions,
    /// Provider emitted an empty media type.
    EmptyMediaType,
    /// Provider emitted an empty payload.
    EmptyPayload,
    /// Provider emitted work that was not requested.
    UnrequestedOutput(&'static str),
    /// Provider emitted a duplicate frame timestamp or derivative kind.
    DuplicateOutput,
    /// Provider output does not match the exact request.
    RequestOutputMismatch,
    /// Numeric accounting exceeded representable bounds.
    AccountingOverflow,
}

/// Abstract value of a media error.
pub ghost enum MediaFault {
    /// Not an object revision.
    InvalidSourceRevision,
    /// Zero limit.
    InvalidLimits,
    /// Invalid request, with its reason.
    InvalidRequest(Seq<char>),
    /// Empty adapter identity.
    EmptyAdapterId,
    /// Duplicate adapter identity.
    DuplicateAdapterId(Seq<char>),
    /// Several adapters claim the type.
    AmbiguousAdapter(Seq<char>),
    /// Unsafe isolation.
    UnsafeAdapterIsolation(Seq<char>),
    /// Provider failure.
    AdapterFailed(Seq<char>),
    /// Observed bytes beyond the source.
    InvalidObservedSourceBytes,
    /// Empty metadata key.
    EmptyMetadataKey,
    /// Zero dimensions.
    InvalidDimensions,
    /// Empty media type.
    EmptyMediaType,
    /// Empty payload.
    EmptyPayload,
    /// Unrequested output, by kind.
    UnrequestedOutput(Seq<char>),
    /// Duplicate output.
    DuplicateOutput,
    /// Output/request mismatch.
    RequestOutputMismatch,
    /// Accounting overflow.
    AccountingOverflow,
}

impl View for B04Error {
    type V = MediaFault;

    open spec fn view(&self) -> MediaFault {
        match self {
            B04Error::InvalidSourceRevision => MediaFault::InvalidSourceRevision,
            B04Error::InvalidLimits => MediaFault::InvalidLimits,
            B04Error::InvalidRequest(s) => MediaFault::InvalidRequest(s@),
            B04Error::EmptyAdapterId => MediaFault::EmptyAdapterId,
            B04Error::DuplicateAdapterId(s) => MediaFault::DuplicateAdapterId(s@),
            B04Error::AmbiguousAdapter(s) => MediaFault::AmbiguousAdapter(s@),
            B04Error::UnsafeAdapterIsolation(s) => MediaFault::UnsafeAdapterIsolation(s@),
            B04Error::AdapterFailed(s) => MediaFault::AdapterFailed(s@),
            B04Error::InvalidObservedSourceBytes => MediaFault::InvalidObservedSourceBytes,
            B04Error::EmptyMetadataKey => MediaFault::EmptyMetadataKey,
            B04Error::InvalidDimensions => MediaFault::InvalidDimensions,
            B04Error::EmptyMediaType => MediaFault::EmptyMediaType,
            B04Error::EmptyPayload => MediaFault::EmptyPayload,
            B04Error::UnrequestedOutput(s) => MediaFault::UnrequestedOutput(s@),
            B04Error::DuplicateOutput => MediaFault::DuplicateOutput,
            B04Error::RequestOutputMismatch => MediaFault::RequestOutputMismatch,
            B04Error::AccountingOverflow => MediaFault::AccountingOverflow,
        }
    }
}

// ---------------------------------------------------------------------------------------------
// Media class and request validation
// ---------------------------------------------------------------------------------------------

/// `s` starts with `p`.
pub open spec fn has_prefix(s: Seq<char>, p: Seq<char>) -> bool {
    p.len() <= s.len() && s.take(p.len() as int) == p
}

/// Media family of a normalized type: by its `image/`, `audio/` or `video/` prefix.
pub open spec fn media_class_of(t: Seq<char>) -> Option<MediaClass> {
    if has_prefix(t, "image/"@) {
        Some(MediaClass::Image)
    } else if has_prefix(t, "audio/"@) {
        Some(MediaClass::Audio)
    } else if has_prefix(t, "video/"@) {
        Some(MediaClass::Video)
    } else {
        None
    }
}

fn starts_with(s: &String, p: &str) -> (r: bool)
    ensures
        r == has_prefix(s@, p@),
{
    let cs = crate::text_ops::chars_of(s.as_str());
    let ps = crate::text_ops::chars_of(p);
    if ps.len() > cs.len() {
        return false;
    }
    let mut i: usize = 0;
    while i < ps.len()
        invariant
            i <= ps@.len() <= cs@.len(),
            cs@ == s@,
            ps@ == p@,
            forall|j: int| 0 <= j < i ==> cs@[j] == ps@[j],
        decreases ps.len() - i,
    {
        if cs[i] != ps[i] {
            assert(cs@.take(ps@.len() as int)[i as int] != ps@[i as int]);
            return false;
        }
        i = i + 1;
    }
    assert(cs@.take(ps@.len() as int) =~= ps@);
    true
}

/// The media family of a normalized type.
pub fn media_class_for_type(media_type: &String) -> (r: Option<MediaClass>)
    ensures
        r == media_class_of(media_type@),
{
    if starts_with(media_type, "image/") {
        Some(MediaClass::Image)
    } else if starts_with(media_type, "audio/") {
        Some(MediaClass::Audio)
    } else if starts_with(media_type, "video/") {
        Some(MediaClass::Video)
    } else {
        None
    }
}

/// A derivative target type stays in the expected family.
pub open spec fn target_ok(v: Seq<char>, expected: MediaClass) -> bool {
    normalize_type_spec(v).len() > 0 && media_class_of(normalize_type_spec(v)) == Some(expected)
}

/// Reason given when a target type leaves its family.
pub open spec fn family_reason() -> Seq<char> {
    "target media type must remain in the requested media family"@
}

/// Some requested frame timestamp repeats an earlier one.
pub open spec fn has_duplicate_u64(s: Seq<u64>) -> bool {
    exists|i: int, j: int| 0 <= i < j < s.len() && s[i] == s[j]
}

/// Target type of the requested image transform (empty when none is requested).
pub open spec fn transform_target(r: RequestView) -> Seq<char> {
    match r.image_transform {
        Some((t, _)) => t,
        None => Seq::empty(),
    }
}

/// The reason a request is invalid for a media family and limits, if it is.
pub open spec fn request_fault(r: RequestView, class: MediaClass, limits: MediaLimits) -> Option<Seq<char>> {
    if r.frames.len() > limits.max_frames {
        Some("requested frame count exceeds max_frames"@)
    } else if has_duplicate_u64(r.frames) {
        Some("duplicate requested frame timestamp"@)
    } else if r.frames.len() > 0 && class != MediaClass::Video {
        Some("frame sampling requires video media"@)
    } else if r.waveform && class == MediaClass::Image {
        Some("waveform generation requires audio or video media"@)
    } else if r.image_transform is Some && class != MediaClass::Image {
        Some("image transformation requires image media"@)
    } else if r.image_transform is Some && !target_ok(transform_target(r), MediaClass::Image) {
        Some(family_reason())
    } else if r.image_transform matches Some((_, ImageTransformOperation::Resize { width, height })) && (width == 0
        || height == 0) {
        Some("image resize dimensions must be non-zero"@)
    } else if r.image_transform matches Some((_, ImageTransformOperation::RotateQuarterTurns { quarter_turns })) && !(1
        <= quarter_turns <= 3) {
        Some("quarter-turn rotation must be one, two or three"@)
    } else if r.transcode is Some && class == MediaClass::Image {
        Some("audio/video transcode cannot be requested for image media"@)
    } else if r.transcode is Some && !target_ok(r.transcode->0, class) {
        Some(family_reason())
    } else {
        None
    }
}

fn is_target_ok(v: &String, expected: MediaClass) -> (r: bool)
    ensures
        r == target_ok(v@, expected),
{
    let n = normalize_type(v.as_str());
    if n.as_str().unicode_len() == 0 {
        return false;
    }
    match media_class_for_type(&n) {
        Some(c) => c == expected,
        None => false,
    }
}

fn has_duplicate(v: &Vec<u64>) -> (r: bool)
    ensures
        r == has_duplicate_u64(v@),
{
    let mut j: usize = 0;
    while j < v.len()
        invariant
            j <= v@.len(),
            forall|a: int, b: int| 0 <= a < b < j ==> v@[a] != v@[b],
        decreases v.len() - j,
    {
        let mut i: usize = 0;
        while i < j
            invariant
                i <= j < v@.len(),
                forall|a: int| 0 <= a < i ==> v@[a] != v@[j as int],
            decreases j - i,
        {
            if v[i] == v[j] {
                return true;
            }
            i = i + 1;
        }
        j = j + 1;
    }
    false
}

/// Check a request against the selected media family and limits.
pub fn validate_request(request: &MediaRequest, media_class: MediaClass, limits: MediaLimits) -> (r: Result<(), B04Error>)
    ensures
        match r {
            Ok(_) => request_fault(request@, media_class, limits) is None,
            Err(e) => e@ == MediaFault::InvalidRequest(request_fault(request@, media_class, limits)->0)
                && request_fault(request@, media_class, limits) is Some,
        },
{
    if request.frame_timestamps_ms.len() > limits.max_frames {
        return Err(B04Error::InvalidRequest("requested frame count exceeds max_frames"));
    }
    if has_duplicate(&request.frame_timestamps_ms) {
        return Err(B04Error::InvalidRequest("duplicate requested frame timestamp"));
    }
    if request.frame_timestamps_ms.len() != 0 && media_class != MediaClass::Video {
        return Err(B04Error::InvalidRequest("frame sampling requires video media"));
    }
    if request.waveform && media_class == MediaClass::Image {
        return Err(B04Error::InvalidRequest("waveform generation requires audio or video media"));
    }
    match &request.image_transform {
        Some(t) => {
            if media_class != MediaClass::Image {
                return Err(B04Error::InvalidRequest("image transformation requires image media"));
            }
            if !is_target_ok(&t.target_media_type, MediaClass::Image) {
                return Err(B04Error::InvalidRequest("target media type must remain in the requested media family"));
            }
            match t.operation {
                ImageTransformOperation::Resize { width, height } => {
                    if width == 0 || height == 0 {
                        return Err(B04Error::InvalidRequest("image resize dimensions must be non-zero"));
                    }
                },
                ImageTransformOperation::RotateQuarterTurns { quarter_turns } => {
                    if !(1 <= quarter_turns && quarter_turns <= 3) {
                        return Err(B04Error::InvalidRequest("quarter-turn rotation must be one, two or three"));
                    }
                },
                ImageTransformOperation::Reencode => {},
            }
        },
        None => {},
    }
    match &request.transcode {
        Some(t) => {
            if media_class == MediaClass::Image {
                return Err(B04Error::InvalidRequest("audio/video transcode cannot be requested for image media"));
            }
            if !is_target_ok(&t.target_media_type, media_class) {
                return Err(B04Error::InvalidRequest("target media type must remain in the requested media family"));
            }
        },
        None => {},
    }
    Ok(())
}

// ---------------------------------------------------------------------------------------------
// Provider output validation
// ---------------------------------------------------------------------------------------------

/// Fault of a payload: an empty normalized media type, or no bytes.
pub open spec fn payload_fault(p: Option<(Seq<char>, Seq<u8>)>) -> Option<MediaFault> {
    match p {
        Some((mt, b)) => if normalize_type_spec(mt).len() == 0 {
            Some(MediaFault::EmptyMediaType)
        } else if b.len() == 0 {
            Some(MediaFault::EmptyPayload)
        } else {
            None
        },
        None => None,
    }
}

/// First fault among the first `n` frames: payload, unrequested timestamp, repeated timestamp.
pub open spec fn frame_fault(frames: Seq<(u64, Seq<char>, Seq<u8>)>, requested: Seq<u64>, n: int) -> Option<MediaFault>
    decreases n,
{
    if n <= 0 {
        None
    } else {
        match frame_fault(frames, requested, n - 1) {
            Some(f) => Some(f),
            None => {
                let f = frames[n - 1];
                if payload_fault(Some((f.1, f.2))) is Some {
                    payload_fault(Some((f.1, f.2)))
                } else if !requested.contains(f.0) {
                    Some(MediaFault::UnrequestedOutput("frame"@))
                } else if exists|j: int| 0 <= j < n - 1 && (#[trigger] frames[j]).0 == f.0 {
                    Some(MediaFault::DuplicateOutput)
                } else {
                    None
                }
            },
        }
    }
}

/// First fault among the first `n` derivatives: payload, repeated kind, unrequested kind, or a
/// target type or family that does not match the request.
pub open spec fn derivative_fault(
    ds: Seq<(DerivedMediaKind, Seq<char>, Seq<u8>)>,
    class: MediaClass,
    r: RequestView,
    n: int,
) -> Option<MediaFault>
    decreases n,
{
    if n <= 0 {
        None
    } else {
        match derivative_fault(ds, class, r, n - 1) {
            Some(f) => Some(f),
            None => {
                let d = ds[n - 1];
                if payload_fault(Some((d.1, d.2))) is Some {
                    payload_fault(Some((d.1, d.2)))
                } else if exists|j: int| 0 <= j < n - 1 && (#[trigger] ds[j]).0 == d.0 {
                    Some(MediaFault::DuplicateOutput)
                } else {
                    match d.0 {
                        DerivedMediaKind::ImageTransform => match r.image_transform {
                            None => Some(MediaFault::UnrequestedOutput("image_transform"@)),
                            Some((t, _)) => if class != MediaClass::Image || normalize_type_spec(d.1)
                                != normalize_type_spec(t) {
                                Some(MediaFault::RequestOutputMismatch)
                            } else {
                                None
                            },
                        },
                        DerivedMediaKind::Transcode => match r.transcode {
                            None => Some(MediaFault::UnrequestedOutput("transcode"@)),
                            Some(t) => if class == MediaClass::Image || normalize_type_spec(d.1) != normalize_type_spec(t) {
                                Some(MediaFault::RequestOutputMismatch)
                            } else {
                                None
                            },
                        },
                    }
                }
            },
        }
    }
}

/// The first fault in provider output, in the order it is checked.
pub open spec fn media_output_fault(o: AdapterMediaOut, len: int, class: MediaClass, r: RequestView) -> Option<MediaFault> {
    if o.observed > len {
        Some(MediaFault::InvalidObservedSourceBytes)
    } else if exists|i: int| 0 <= i < o.metadata.len() && trim_spec((#[trigger] o.metadata[i]).0).len() == 0 {
        Some(MediaFault::EmptyMetadataKey)
    } else if o.dimensions matches Some(d) && (d.width == 0 || d.height == 0) {
        Some(MediaFault::InvalidDimensions)
    } else if payload_fault(o.thumbnail) is Some {
        payload_fault(o.thumbnail)
    } else if payload_fault(o.preview) is Some {
        payload_fault(o.preview)
    } else if payload_fault(o.waveform) is Some {
        payload_fault(o.waveform)
    } else if o.thumbnail is Some && !r.thumbnail {
        Some(MediaFault::UnrequestedOutput("thumbnail"@))
    } else if o.preview is Some && !r.preview {
        Some(MediaFault::UnrequestedOutput("preview"@))
    } else if o.waveform is Some && !r.waveform {
        Some(MediaFault::UnrequestedOutput("waveform"@))
    } else if frame_fault(o.frames, r.frames, o.frames.len() as int) is Some {
        frame_fault(o.frames, r.frames, o.frames.len() as int)
    } else {
        derivative_fault(o.derivatives, class, r, o.derivatives.len() as int)
    }
}

fn check_payload(media_type: &String, bytes: &Vec<u8>) -> (r: Result<(), B04Error>)
    ensures
        match r {
            Ok(_) => payload_fault(Some((media_type@, bytes@))) is None,
            Err(e) => payload_fault(Some((media_type@, bytes@))) == Some(e@),
        },
{
    let n = normalize_type(media_type.as_str());
    if n.as_str().unicode_len() == 0 {
        return Err(B04Error::EmptyMediaType);
    }
    if bytes.len() == 0 {
        return Err(B04Error::EmptyPayload);
    }
    Ok(())
}

fn check_optional_payload(v: &Option<AdapterMediaView>) -> (r: Result<(), B04Error>)
    ensures
        match r {
            Ok(_) => payload_fault(payload_view(*v)) is None,
            Err(e) => payload_fault(payload_view(*v)) == Some(e@),
        },
{
    match v {
        Some(x) => check_payload(&x.media_type, &x.bytes),
        None => Ok(()),
    }
}

fn contains_u64(v: &Vec<u64>, x: u64) -> (r: bool)
    ensures
        r == v@.contains(x),
{
    let mut i: usize = 0;
    while i < v.len()
        invariant
            i <= v@.len(),
            forall|j: int| 0 <= j < i ==> v@[j] != x,
        decreases v.len() - i,
    {
        if v[i] == x {
            return true;
        }
        i = i + 1;
    }
    false
}

proof fn lemma_frame_fault_extends(f: Seq<(u64, Seq<char>, Seq<u8>)>, r: Seq<u64>, k: int, n: int)
    requires
        0 <= k <= n,
        frame_fault(f, r, k) is Some,
    ensures
        frame_fault(f, r, n) == frame_fault(f, r, k),
    decreases n - k,
{
    if k < n {
        lemma_frame_fault_extends(f, r, k, n - 1);
    }
}

proof fn lemma_derivative_fault_extends(
    d: Seq<(DerivedMediaKind, Seq<char>, Seq<u8>)>,
    class: MediaClass,
    r: RequestView,
    k: int,
    n: int,
)
    requires
        0 <= k <= n,
        derivative_fault(d, class, r, k) is Some,
    ensures
        derivative_fault(d, class, r, n) == derivative_fault(d, class, r, k),
    decreases n - k,
{
    if k < n {
        lemma_derivative_fault_extends(d, class, r, k, n - 1);
    }
}

fn check_frames(frames: &Vec<AdapterMediaFrame>, requested: &Vec<u64>) -> (r: Result<(), B04Error>)
    ensures
        match r {
            Ok(_) => frame_fault(frame_views(frames@), requested@, frames@.len() as int) is None,
            Err(e) => frame_fault(frame_views(frames@), requested@, frames@.len() as int) == Some(e@),
        },
{
    let ghost fv = frame_views(frames@);
    let mut i: usize = 0;
    while i < frames.len()
        invariant
            i <= fv.len(),
            fv == frame_views(frames@),
            frame_fault(fv, requested@, i as int) is None,
        decreases fv.len() - i,
    {
        let f = &frames[i];
        assert(fv[i as int] == (f.timestamp_ms, f.media_type@, f.bytes@));
        if let Err(e) = check_payload(&f.media_type, &f.bytes) {
            proof { lemma_frame_fault_extends(fv, requested@, i as int + 1, fv.len() as int); }
            return Err(e);
        }
        if !contains_u64(requested, f.timestamp_ms) {
            proof { lemma_frame_fault_extends(fv, requested@, i as int + 1, fv.len() as int); }
            return Err(B04Error::UnrequestedOutput("frame"));
        }
        let mut dup = false;
        let mut j: usize = 0;
        while j < i
            invariant
                j <= i < fv.len(),
                fv == frame_views(frames@),
                f.timestamp_ms == fv[i as int].0,
                dup <==> exists|k: int| 0 <= k < j && (#[trigger] fv[k]).0 == f.timestamp_ms,
            decreases i - j,
        {
            assert(fv[j as int].0 == frames@[j as int].timestamp_ms);
            if frames[j].timestamp_ms == f.timestamp_ms {
                dup = true;
            }
            j = j + 1;
        }
        if dup {
            proof { lemma_frame_fault_extends(fv, requested@, i as int + 1, fv.len() as int); }
            return Err(B04Error::DuplicateOutput);
        }
        i = i + 1;
    }
    Ok(())
}

fn same_normalized(a: &String, b: &String) -> (r: bool)
    ensures
        r == (normalize_type_spec(a@) == normalize_type_spec(b@)),
{
    normalize_type(a.as_str()) == normalize_type(b.as_str())
}

fn check_derivatives(ds: &Vec<AdapterDerivedMedia>, class: MediaClass, request: &MediaRequest) -> (r: Result<(), B04Error>)
    ensures
        match r {
            Ok(_) => derivative_fault(derivative_views(ds@), class, request@, ds@.len() as int) is None,
            Err(e) => derivative_fault(derivative_views(ds@), class, request@, ds@.len() as int) == Some(e@),
        },
{
    let ghost dv = derivative_views(ds@);
    let mut i: usize = 0;
    while i < ds.len()
        invariant
            i <= dv.len(),
            dv == derivative_views(ds@),
            derivative_fault(dv, class, request@, i as int) is None,
        decreases dv.len() - i,
    {
        let d = &ds[i];
        assert(dv[i as int] == (d.kind, d.media_type@, d.bytes@));
        if let Err(e) = check_payload(&d.media_type, &d.bytes) {
            proof { lemma_derivative_fault_extends(dv, class, request@, i as int + 1, dv.len() as int); }
            return Err(e);
        }
        let mut dup = false;
        let mut j: usize = 0;
        while j < i
            invariant
                j <= i < dv.len(),
                dv == derivative_views(ds@),
                d.kind == dv[i as int].0,
                dup <==> exists|k: int| 0 <= k < j && (#[trigger] dv[k]).0 == d.kind,
            decreases i - j,
        {
            assert(dv[j as int].0 == ds@[j as int].kind);
            if ds[j].kind == d.kind {
                dup = true;
            }
            j = j + 1;
        }
        if dup {
            proof { lemma_derivative_fault_extends(dv, class, request@, i as int + 1, dv.len() as int); }
            return Err(B04Error::DuplicateOutput);
        }
        match d.kind {
            DerivedMediaKind::ImageTransform => match &request.image_transform {
                None => {
                    proof { lemma_derivative_fault_extends(dv, class, request@, i as int + 1, dv.len() as int); }
                    return Err(B04Error::UnrequestedOutput("image_transform"));
                },
                Some(t) => {
                    if class != MediaClass::Image || !same_normalized(&d.media_type, &t.target_media_type) {
                        proof { lemma_derivative_fault_extends(dv, class, request@, i as int + 1, dv.len() as int); }
                        return Err(B04Error::RequestOutputMismatch);
                    }
                },
            },
            DerivedMediaKind::Transcode => match &request.transcode {
                None => {
                    proof { lemma_derivative_fault_extends(dv, class, request@, i as int + 1, dv.len() as int); }
                    return Err(B04Error::UnrequestedOutput("transcode"));
                },
                Some(t) => {
                    if class == MediaClass::Image || !same_normalized(&d.media_type, &t.target_media_type) {
                        proof { lemma_derivative_fault_extends(dv, class, request@, i as int + 1, dv.len() as int); }
                        return Err(B04Error::RequestOutputMismatch);
                    }
                },
            },
        }
        i = i + 1;
    }
    Ok(())
}

/// Validate provider output against the source length, media family and exact request.
pub fn validate_media_output(output: &AdapterMedia, source_len: usize, class: MediaClass, request: &MediaRequest) -> (r:
    Result<(), B04Error>)
    ensures
        match r {
            Ok(_) => media_output_fault(output@, source_len as int, class, request@) is None,
            Err(e) => media_output_fault(output@, source_len as int, class, request@) == Some(e@),
        },
{
    let ghost o = output@;
    if output.observed_source_bytes > source_len as u64 {
        return Err(B04Error::InvalidObservedSourceBytes);
    }
    let mut i: usize = 0;
    while i < output.metadata.len()
        invariant
            i <= o.metadata.len(),
            o == output@,
            o.observed <= source_len,
            forall|j: int| 0 <= j < i ==> trim_spec((#[trigger] o.metadata[j]).0).len() != 0,
        decreases o.metadata.len() - i,
    {
        assert(o.metadata[i as int].0 == output.metadata@[i as int].key@);
        let k = trimmed(output.metadata[i].key.as_str());
        if k.as_str().unicode_len() == 0 {
            return Err(B04Error::EmptyMetadataKey);
        }
        i = i + 1;
    }
    match output.dimensions {
        Some(d) => {
            if d.width == 0 || d.height == 0 {
                return Err(B04Error::InvalidDimensions);
            }
        },
        None => {},
    }
    check_optional_payload(&output.thumbnail)?;
    check_optional_payload(&output.preview)?;
    check_optional_payload(&output.waveform)?;
    if output.thumbnail.is_some() && !request.thumbnail {
        return Err(B04Error::UnrequestedOutput("thumbnail"));
    }
    if output.preview.is_some() && !request.preview {
        return Err(B04Error::UnrequestedOutput("preview"));
    }
    if output.waveform.is_some() && !request.waveform {
        return Err(B04Error::UnrequestedOutput("waveform"));
    }
    check_frames(&output.frames, &request.frame_timestamps_ms)?;
    check_derivatives(&output.derivatives, class, request)?;
    Ok(())
}

} // verus!
