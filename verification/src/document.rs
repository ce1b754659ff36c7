//! Passive document interpretation: adapter output validation and the bounded retention of
//! extracted text, page renders, previews and conversions, each anchored to its exact source.
use vstd::prelude::*;
use crate::digest::{sha256_hex, sha256_hex_of};
use crate::identity::EntityRef;
use crate::partition_map::{opt_view, push_string, string_views};
use crate::text::{decimal, numbered_message, owned};
use crate::text_map::key_bytes;
use crate::text_ops::{
    dedup_spec, dedup_strings, normalize_type, normalize_type_spec, trim_spec, trimmed, truncate_spec, truncate_utf8,
    utf8_len,
};

verus! {

/// Maximum work accepted by the document layer for one source.
#[derive(Debug, Clone, Copy, PartialEq, Eq, Structural)]
pub struct DocumentLimits {
    /// Maximum retained extracted UTF-8 bytes.
    pub max_text_bytes: usize,
    /// Maximum retained page or render views.
    pub max_pages: usize,
    /// Maximum retained bytes for any one rendered page.
    pub max_page_render_bytes: usize,
    /// Maximum retained safe-preview bytes.
    pub max_preview_bytes: usize,
    /// Maximum retained converted-output bytes.
    pub max_conversion_bytes: usize,
}

impl Default for DocumentLimits {
    fn default() -> (r: Self)
        ensures
            r.max_text_bytes == 4 * 1024 * 1024,
            r.max_pages == 512,
            r.max_page_render_bytes == 8 * 1024 * 1024,
            r.max_preview_bytes == 512 * 1024,
            r.max_conversion_bytes == 16 * 1024 * 1024,
    {
        DocumentLimits {
            max_text_bytes: 4 * 1024 * 1024,
            max_pages: 512,
            max_page_render_bytes: 8 * 1024 * 1024,
            max_preview_bytes: 512 * 1024,
            max_conversion_bytes: 16 * 1024 * 1024,
        }
    }
}

/// All document limits are non-zero.
pub open spec fn document_limits_valid(l: DocumentLimits) -> bool {
    l.max_text_bytes != 0 && l.max_pages != 0 && l.max_page_render_bytes != 0 && l.max_preview_bytes != 0
        && l.max_conversion_bytes != 0
}

/// Whether one document-derived capability is denied or permitted by an adapter boundary.
#[derive(Debug, Clone, Copy, PartialEq, Eq, Structural)]
pub enum IsolationPolicy {
    /// The capability is denied.
    Denied,
    /// The capability is permitted.
    Allowed,
}

/// Mechanical isolation declaration required from a document adapter.
#[derive(Debug, Clone, Copy, PartialEq, Eq, Structural)]
pub struct DocumentIsolation {
    /// Execution of active content embedded in the document.
    pub active_content_execution: IsolationPolicy,
    /// Adapter-originated network access while inspecting the document.
    pub network_access: IsolationPolicy,
    /// Loading external resources referenced by the document.
    pub external_resource_loading: IsolationPolicy,
}

/// Every capability is denied.
pub open spec fn isolation_safe(i: DocumentIsolation) -> bool {
    i.active_content_execution == IsolationPolicy::Denied && i.network_access == IsolationPolicy::Denied
        && i.external_resource_loading == IsolationPolicy::Denied
}

impl DocumentIsolation {
    /// Strict passive-document policy: every capability denied.
    pub fn passive() -> (r: Self)
        ensures
            isolation_safe(r),
    {
        DocumentIsolation {
            active_content_execution: IsolationPolicy::Denied,
            network_access: IsolationPolicy::Denied,
            external_resource_loading: IsolationPolicy::Denied,
        }
    }

    /// Whether every capability is denied.
    pub fn is_safe(self) -> (r: bool)
        ensures
            r == isolation_safe(self),
    {
        self.active_content_execution == IsolationPolicy::Denied && self.network_access == IsolationPolicy::Denied
            && self.external_resource_loading == IsolationPolicy::Denied
    }
}

/// Exact document source context.
#[derive(Debug)]
pub struct DocumentContext {
    /// Workspace owning the source revision and derived records.
    pub workspace_ref: EntityRef,
    /// Authority authorizing the bounded work.
    pub authority_ref: EntityRef,
    /// Exact immutable source object revision.
    pub source_revision_ref: EntityRef,
}

/// Adapter-supplied metadata field.
#[derive(Debug)]
pub struct DocumentMetadata {
    /// Stable metadata key.
    pub key: String,
    /// Exact extracted value.
    pub value: String,
}

impl View for DocumentMetadata {
    type V = (Seq<char>, Seq<char>);

    open spec fn view(&self) -> (Seq<char>, Seq<char>) {
        (self.key@, self.value@)
    }
}

/// Views of metadata fields.
pub open spec fn field_views(s: Seq<DocumentMetadata>) -> Seq<(Seq<char>, Seq<char>)> {
    s.map_values(|m: DocumentMetadata| m@)
}

/// Adapter text fragment before source authority is attached.
#[derive(Debug)]
pub struct AdapterTextSpan {
    /// Extracted UTF-8 text.
    pub text: String,
    /// Exact source byte range when the adapter can prove one.
    pub source_byte_range: Option<(u64, u64)>,
    /// One-based source page when known.
    pub page: Option<u32>,
}

/// Abstract value of a text span.
pub ghost struct SpanView {
    /// Text.
    pub text: Seq<char>,
    /// Source range.
    pub range: Option<(u64, u64)>,
    /// Page.
    pub page: Option<u32>,
}

impl View for AdapterTextSpan {
    type V = SpanView;

    open spec fn view(&self) -> SpanView {
        SpanView { text: self.text@, range: self.source_byte_range, page: self.page }
    }
}

/// Views of text spans.
pub open spec fn span_views(s: Seq<AdapterTextSpan>) -> Seq<SpanView> {
    s.map_values(|x: AdapterTextSpan| x@)
}

/// Adapter-rendered page before source authority is attached.
#[derive(Debug)]
pub struct AdapterPage {
    /// One-based page number.
    pub page: u32,
    /// Passive render media type such as `image/png` or `text/plain`.
    pub media_type: String,
    /// Exact rendered bytes.
    pub bytes: Vec<u8>,
    /// Exact source byte range when the adapter can prove one.
    pub source_byte_range: Option<(u64, u64)>,
}

/// Abstract value of an adapter page.
pub ghost struct AdapterPageView {
    /// Page number.
    pub page: u32,
    /// Media type.
    pub media_type: Seq<char>,
    /// Render bytes.
    pub bytes: Seq<u8>,
    /// Source range.
    pub range: Option<(u64, u64)>,
}

impl View for AdapterPage {
    type V = AdapterPageView;

    open spec fn view(&self) -> AdapterPageView {
        AdapterPageView { page: self.page, media_type: self.media_type@, bytes: self.bytes@, range: self.source_byte_range }
    }
}

/// Views of adapter pages.
pub open spec fn adapter_page_views(s: Seq<AdapterPage>) -> Seq<AdapterPageView> {
    s.map_values(|x: AdapterPage| x@)
}

/// Optional adapter conversion result.
#[derive(Debug)]
pub struct AdapterConversion {
    /// Converted output media type.
    pub media_type: String,
    /// Exact converted bytes.
    pub bytes: Vec<u8>,
}

/// View of an optional conversion.
pub open spec fn conversion_view(c: Option<AdapterConversion>) -> Option<(Seq<char>, Seq<u8>)> {
    match c {
        Some(x) => Some((x.media_type@, x.bytes@)),
        None => None,
    }
}

/// Bounded mechanical result returned by one passive document adapter.
#[derive(Debug)]
pub struct AdapterDocument {
    /// Extracted metadata.
    pub metadata: Vec<DocumentMetadata>,
    /// Extracted text spans.
    pub text: Vec<AdapterTextSpan>,
    /// Rendered pages.
    pub pages: Vec<AdapterPage>,
    /// Optional safe conversion.
    pub conversion: Option<AdapterConversion>,
    /// Whether active content was observed and deliberately not executed.
    pub active_content_observed: bool,
    /// Whether the adapter claims complete coverage of its supported interpretation.
    pub complete_claim: bool,
    /// Adapter warnings.
    pub warnings: Vec<String>,
    /// Adapter limitations.
    pub limitations: Vec<String>,
}

/// Abstract value of adapter output.
pub ghost struct AdapterDocumentView {
    /// Metadata fields.
    pub metadata: Seq<(Seq<char>, Seq<char>)>,
    /// Text spans.
    pub text: Seq<SpanView>,
    /// Pages.
    pub pages: Seq<AdapterPageView>,
    /// Conversion.
    pub conversion: Option<(Seq<char>, Seq<u8>)>,
    /// Active content observed.
    pub active: bool,
    /// Completeness claim.
    pub complete: bool,
    /// Warnings.
    pub warnings: Seq<Seq<char>>,
    /// Limitations.
    pub limitations: Seq<Seq<char>>,
}

impl View for AdapterDocument {
    type V = AdapterDocumentView;

    open spec fn view(&self) -> AdapterDocumentView {
        AdapterDocumentView {
            metadata: field_views(self.metadata@),
            text: span_views(self.text@),
            pages: adapter_page_views(self.pages@),
            conversion: conversion_view(self.conversion),
            active: self.active_content_observed,
            complete: self.complete_claim,
            warnings: string_views(self.warnings@),
            limitations: string_views(self.limitations@),
        }
    }
}

/// Replaceable passive document adapter. Each method's answers are described by a relation the
/// implementation may state; by default any answer is allowed.
pub trait DocumentAdapter {
    /// Whether `id` is an identity this adapter may report.
    open spec fn id_post(&self, id: Seq<char>) -> bool {
        true
    }

    /// Whether `r` is an answer this adapter may give for supporting `media_type`.
    open spec fn supports_post(&self, media_type: Seq<char>, r: bool) -> bool {
        true
    }

    /// Whether `r` is an isolation this adapter may declare.
    open spec fn isolation_post(&self, r: DocumentIsolation) -> bool {
        true
    }

    /// Whether `r` is a result this adapter may give for inspecting `bytes` as `media_type`.
    open spec fn inspect_post(&self, bytes: Seq<u8>, media_type: Seq<char>, r: Result<AdapterDocument, String>) -> bool {
        true
    }

    /// Stable adapter identity.
    fn adapter_id(&self) -> (r: &str)
        ensures
            self.id_post(r@),
    ;

    /// Whether this adapter supports the normalized agreed media type.
    fn supports_media_type(&self, media_type: &str) -> (r: bool)
        ensures
            self.supports_post(media_type@, r),
    ;

    /// Isolation boundary declared by this adapter.
    fn isolation(&self) -> (r: DocumentIsolation)
        ensures
            self.isolation_post(r),
    ;

    /// Inspect immutable source bytes without executing document active content; an
    /// adapter-specific message on mechanical failure.
    fn inspect(&self, bytes: &[u8], media_type: &str) -> (r: Result<AdapterDocument, String>)
        ensures
            self.inspect_post(bytes@, media_type@, r),
    ;
}

/// Exact source anchor attached to text and page renders.
#[derive(Debug)]
pub struct SourceAnchor {
    /// Exact source object revision.
    pub source_revision_ref: EntityRef,
    /// Inclusive source byte start when known.
    pub byte_start: Option<u64>,
    /// Exclusive source byte end when known.
    pub byte_end_exclusive: Option<u64>,
    /// One-based source page when known.
    pub page: Option<u32>,
}

/// Abstract value of an anchor.
pub ghost struct AnchorView {
    /// Source revision.
    pub revision: (Seq<char>, Seq<char>),
    /// Byte start.
    pub start: Option<u64>,
    /// Byte end.
    pub end: Option<u64>,
    /// Page.
    pub page: Option<u32>,
}

impl View for SourceAnchor {
    type V = AnchorView;

    open spec fn view(&self) -> AnchorView {
        AnchorView {
            revision: self.source_revision_ref@,
            start: self.byte_start,
            end: self.byte_end_exclusive,
            page: self.page,
        }
    }
}

/// Extracted text with its source anchor.
#[derive(Debug)]
pub struct AnchoredText {
    /// Extracted UTF-8 text.
    pub text: String,
    /// Source anchor proving where the text came from.
    pub anchor: SourceAnchor,
}

impl View for AnchoredText {
    type V = (Seq<char>, AnchorView);

    open spec fn view(&self) -> (Seq<char>, AnchorView) {
        (self.text@, self.anchor@)
    }
}

/// Views of anchored texts.
pub open spec fn anchored_views(s: Seq<AnchoredText>) -> Seq<(Seq<char>, AnchorView)> {
    s.map_values(|x: AnchoredText| x@)
}

/// Passive page or render view.
#[derive(Debug)]
pub struct DocumentPageView {
    /// One-based page number.
    pub page: u32,
    /// Passive render media type.
    pub media_type: String,
    /// Render bytes.
    pub bytes: Vec<u8>,
    /// Source anchor.
    pub anchor: SourceAnchor,
}

/// Abstract value of a retained page.
pub ghost struct PageOutView {
    /// Page number.
    pub page: u32,
    /// Media type.
    pub media_type: Seq<char>,
    /// Bytes.
    pub bytes: Seq<u8>,
    /// Anchor.
    pub anchor: AnchorView,
}

impl View for DocumentPageView {
    type V = PageOutView;

    open spec fn view(&self) -> PageOutView {
        PageOutView { page: self.page, media_type: self.media_type@, bytes: self.bytes@, anchor: self.anchor@ }
    }
}

/// Views of retained pages.
pub open spec fn page_out_views(s: Seq<DocumentPageView>) -> Seq<PageOutView> {
    s.map_values(|x: DocumentPageView| x@)
}

/// Safe non-active preview.
#[derive(Debug)]
pub struct SafePreview {
    /// Preview media type; built-in previews are passive text.
    pub media_type: String,
    /// Exact preview bytes.
    pub bytes: Vec<u8>,
    /// Whether active or external content was removed or never interpreted.
    pub sanitized: bool,
    /// Exact source revision.
    pub source_revision_ref: EntityRef,
}

/// Abstract value of a preview.
pub ghost struct PreviewView {
    /// Media type.
    pub media_type: Seq<char>,
    /// Bytes.
    pub bytes: Seq<u8>,
    /// Sanitized.
    pub sanitized: bool,
    /// Source revision.
    pub revision: (Seq<char>, Seq<char>),
}

/// View of an optional preview.
pub open spec fn preview_view(p: Option<SafePreview>) -> Option<PreviewView> {
    match p {
        Some(x) => Some(
            PreviewView {
                media_type: x.media_type@,
                bytes: x.bytes@,
                sanitized: x.sanitized,
                revision: x.source_revision_ref@,
            },
        ),
        None => None,
    }
}

/// Converted output that remains explicitly derived from one exact source revision.
#[derive(Debug)]
pub struct ConvertedDocument {
    /// Converted media type.
    pub media_type: String,
    /// Exact converted bytes.
    pub bytes: Vec<u8>,
    /// SHA-256 of the converted bytes.
    pub sha256: String,
    /// Exact source revision.
    pub source_revision_ref: EntityRef,
    /// SHA-256 of the immutable source bytes.
    pub source_sha256: String,
    /// Adapter that produced this output.
    pub adapter_id: String,
}

/// Abstract value of a conversion.
pub ghost struct ConvertedView {
    /// Media type.
    pub media_type: Seq<char>,
    /// Bytes.
    pub bytes: Seq<u8>,
    /// Digest of the bytes.
    pub sha256: Seq<char>,
    /// Source revision.
    pub revision: (Seq<char>, Seq<char>),
    /// Source digest.
    pub source_sha256: Seq<char>,
    /// Adapter identity.
    pub adapter_id: Seq<char>,
}

/// View of an optional converted document.
pub open spec fn converted_view(c: Option<ConvertedDocument>) -> Option<ConvertedView> {
    match c {
        Some(x) => Some(
            ConvertedView {
                media_type: x.media_type@,
                bytes: x.bytes@,
                sha256: x.sha256@,
                revision: x.source_revision_ref@,
                source_sha256: x.source_sha256@,
                adapter_id: x.adapter_id@,
            },
        ),
        None => None,
    }
}

/// Truthful coverage statement for one inspection.
#[derive(Debug)]
pub struct DocumentCoverage {
    /// Whether the retained result can claim complete adapter coverage.
    pub complete_claim: bool,
    /// Total UTF-8 bytes retained in extracted text.
    pub retained_text_bytes: u64,
    /// Number of page or render views retained.
    pub retained_pages: usize,
    /// Explicit unknown or unsupported regions.
    pub unknown_gaps: Vec<String>,
}

/// Document inspection result.
#[derive(Debug)]
pub struct DocumentReport {
    /// SHA-256 of the immutable source bytes.
    pub source_sha256: String,
    /// Exact source revision.
    pub source_revision_ref: EntityRef,
    /// Agreed normalized media type, when one exists.
    pub agreed_media_type: Option<String>,
    /// Adapter selected for this report.
    pub adapter_id: Option<String>,
    /// Extracted metadata.
    pub metadata: Vec<DocumentMetadata>,
    /// Extracted text with source anchors.
    pub text: Vec<AnchoredText>,
    /// Passive page or render views.
    pub pages: Vec<DocumentPageView>,
    /// Passive preview.
    pub preview: Option<SafePreview>,
    /// Optional converted output.
    pub conversion: Option<ConvertedDocument>,
    /// Whether active content was observed but not executed.
    pub active_content_observed: bool,
    /// Coverage truth.
    pub coverage: DocumentCoverage,
    /// Warnings.
    pub warnings: Vec<String>,
    /// Limitations.
    pub limitations: Vec<String>,
}

/// Abstract value of a document report.
pub ghost struct DocumentView {
    /// Source digest.
    pub source_sha256: Seq<char>,
    /// Source revision.
    pub revision: (Seq<char>, Seq<char>),
    /// Agreed media type.
    pub agreed_media_type: Option<Seq<char>>,
    /// Selected adapter.
    pub adapter_id: Option<Seq<char>>,
    /// Metadata fields.
    pub metadata: Seq<(Seq<char>, Seq<char>)>,
    /// Anchored text.
    pub text: Seq<(Seq<char>, AnchorView)>,
    /// Retained pages.
    pub pages: Seq<PageOutView>,
    /// Preview.
    pub preview: Option<PreviewView>,
    /// Conversion.
    pub conversion: Option<ConvertedView>,
    /// Active content observed.
    pub active: bool,
    /// Completeness claim.
    pub complete: bool,
    /// Retained text bytes.
    pub text_bytes: u64,
    /// Retained page count.
    pub retained_pages: usize,
    /// Unknown gaps.
    pub gaps: Seq<Seq<char>>,
    /// Warnings.
    pub warnings: Seq<Seq<char>>,
    /// Limitations.
    pub limitations: Seq<Seq<char>>,
}

impl View for DocumentReport {
    type V = DocumentView;

    open spec fn view(&self) -> DocumentView {
        DocumentView {
            source_sha256: self.source_sha256@,
            revision: self.source_revision_ref@,
            agreed_media_type: opt_view(self.agreed_media_type),
            adapter_id: opt_view(self.adapter_id),
            metadata: field_views(self.metadata@),
            text: anchored_views(self.text@),
            pages: page_out_views(self.pages@),
            preview: preview_view(self.preview),
            conversion: converted_view(self.conversion),
            active: self.active_content_observed,
            complete: self.coverage.complete_claim,
            text_bytes: self.coverage.retained_text_bytes,
            retained_pages: self.coverage.retained_pages,
            gaps: string_views(self.coverage.unknown_gaps@),
            warnings: string_views(self.warnings@),
            limitations: string_views(self.limitations@),
        }
    }
}

/// Failures that prevent a truthful bounded document result.
#[derive(Debug)]
pub enum B03Error {
    /// Source reference is not an object revision.
    InvalidSourceRevision,
    /// One or more configured limits are zero.
    InvalidLimits,
    /// Adapter identity is empty.
    EmptyAdapterId,
    /// Adapter identity is duplicated.
    DuplicateAdapterId(String),
    /// More than one adapter claims the selected media type.
    AmbiguousAdapter(String),
    /// Selected adapter does not deny active content, network and external resource loading.
    UnsafeAdapterIsolation(String),
    /// Adapter failed mechanically.
    AdapterFailed(String),
    /// Adapter emitted an invalid source byte range.
    InvalidSourceRange,
    /// Adapter emitted page zero or a duplicate page number.
    InvalidPage,
    /// Adapter emitted an empty media type.
    EmptyMediaType,
    /// Adapter metadata key is empty.
    EmptyMetadataKey,
    /// Retained byte accounting exceeded representable bounds.
    AccountingOverflow,
}

/// Abstract value of a document error.
pub ghost enum DocumentFault {
    /// Source is not an object revision.
    InvalidSourceRevision,
    /// Zero limit.
    InvalidLimits,
    /// Empty adapter identity.
    EmptyAdapterId,
    /// Duplicate adapter identity.
    DuplicateAdapterId(Seq<char>),
    /// Several adapters claim the media type.
    AmbiguousAdapter(Seq<char>),
    /// Unsafe adapter isolation.
    UnsafeAdapterIsolation(Seq<char>),
    /// Adapter failure.
    AdapterFailed(Seq<char>),
    /// Invalid source range.
    InvalidSourceRange,
    /// Invalid page.
    InvalidPage,
    /// Empty media type.
    EmptyMediaType,
    /// Empty metadata key.
    EmptyMetadataKey,
    /// Accounting overflow.
    AccountingOverflow,
}

impl View for B03Error {
    type V = DocumentFault;

    open spec fn view(&self) -> DocumentFault {
        match self {
            B03Error::InvalidSourceRevision => DocumentFault::InvalidSourceRevision,
            B03Error::InvalidLimits => DocumentFault::InvalidLimits,
            B03Error::EmptyAdapterId => DocumentFault::EmptyAdapterId,
            B03Error::DuplicateAdapterId(s) => DocumentFault::DuplicateAdapterId(s@),
            B03Error::AmbiguousAdapter(s) => DocumentFault::AmbiguousAdapter(s@),
            B03Error::UnsafeAdapterIsolation(s) => DocumentFault::UnsafeAdapterIsolation(s@),
            B03Error::AdapterFailed(s) => DocumentFault::AdapterFailed(s@),
            B03Error::InvalidSourceRange => DocumentFault::InvalidSourceRange,
            B03Error::InvalidPage => DocumentFault::InvalidPage,
            B03Error::EmptyMediaType => DocumentFault::EmptyMediaType,
            B03Error::EmptyMetadataKey => DocumentFault::EmptyMetadataKey,
            B03Error::AccountingOverflow => DocumentFault::AccountingOverflow,
        }
    }
}

// ---------------------------------------------------------------------------------------------
// Adapter output validation
// ---------------------------------------------------------------------------------------------

/// A source range, when present, is ordered and within the source.
pub open spec fn range_ok(r: Option<(u64, u64)>, len: int) -> bool {
    match r {
        Some((s, e)) => s <= e && e <= len,
        None => true,
    }
}

/// The first fault in adapter output, in the order it is checked: metadata keys, text spans,
/// pages (non-zero, distinct, typed, in range), then the conversion media type.
pub open spec fn output_fault(o: AdapterDocumentView, len: int) -> Option<DocumentFault> {
    if exists|i: int| 0 <= i < o.metadata.len() && trim_spec((#[trigger] o.metadata[i]).0).len() == 0 {
        Some(DocumentFault::EmptyMetadataKey)
    } else {
        match span_fault(o.text, len, o.text.len() as int) {
            Some(f) => Some(f),
            None => match page_fault(o.pages, len, o.pages.len() as int) {
                Some(f) => Some(f),
                None => match o.conversion {
                    Some((mt, _)) => if normalize_type_spec(mt).len() == 0 {
                        Some(DocumentFault::EmptyMediaType)
                    } else {
                        None
                    },
                    None => None,
                },
            },
        }
    }
}

/// First fault among the first `n` text spans.
pub open spec fn span_fault(spans: Seq<SpanView>, len: int, n: int) -> Option<DocumentFault>
    decreases n,
{
    if n <= 0 {
        None
    } else {
        match span_fault(spans, len, n - 1) {
            Some(f) => Some(f),
            None => if !range_ok(spans[n - 1].range, len) {
                Some(DocumentFault::InvalidSourceRange)
            } else if spans[n - 1].page == Some(0u32) {
                Some(DocumentFault::InvalidPage)
            } else {
                None
            },
        }
    }
}

/// First fault among the first `n` pages.
pub open spec fn page_fault(pages: Seq<AdapterPageView>, len: int, n: int) -> Option<DocumentFault>
    decreases n,
{
    if n <= 0 {
        None
    } else {
        match page_fault(pages, len, n - 1) {
            Some(f) => Some(f),
            None => {
                let p = pages[n - 1];
                if p.page == 0 || exists|j: int| 0 <= j < n - 1 && (#[trigger] pages[j]).page == p.page {
                    Some(DocumentFault::InvalidPage)
                } else if normalize_type_spec(p.media_type).len() == 0 {
                    Some(DocumentFault::EmptyMediaType)
                } else if !range_ok(p.range, len) {
                    Some(DocumentFault::InvalidSourceRange)
                } else {
                    None
                }
            },
        }
    }
}

fn check_range(r: Option<(u64, u64)>, len: usize) -> (ok: bool)
    ensures
        ok == range_ok(r, len as int),
{
    match r {
        Some((s, e)) => s <= e && e <= len as u64,
        None => true,
    }
}

/// Validate adapter output against a source of `source_len` bytes.
pub fn validate_adapter_output(output: &AdapterDocument, source_len: usize) -> (r: Result<(), B03Error>)
    ensures
        match r {
            Ok(_) => output_fault(output@, source_len as int) is None,
            Err(e) => output_fault(output@, source_len as int) == Some(e@),
        },
{
    let ghost o = output@;
    let ghost len = source_len as int;
    let mut i: usize = 0;
    while i < output.metadata.len()
        invariant
            i <= o.metadata.len(),
            o == output@,
            forall|j: int| 0 <= j < i ==> trim_spec((#[trigger] o.metadata[j]).0).len() != 0,
        decreases o.metadata.len() - i,
    {
        assert(o.metadata[i as int] == output.metadata@[i as int]@);
        let k = trimmed(output.metadata[i].key.as_str());
        if k.as_str().unicode_len() == 0 {
            return Err(B03Error::EmptyMetadataKey);
        }
        i = i + 1;
    }
    let mut t: usize = 0;
    while t < output.text.len()
        invariant
            t <= o.text.len(),
            o == output@,
            len == source_len,
            forall|j: int| 0 <= j < o.metadata.len() ==> trim_spec((#[trigger] o.metadata[j]).0).len() != 0,
            span_fault(o.text, len, t as int) is None,
        decreases o.text.len() - t,
    {
        assert(o.text[t as int] == output.text@[t as int]@);
        if !check_range(output.text[t].source_byte_range, source_len) {
            proof { lemma_span_fault_extends(o.text, len, t as int + 1, o.text.len() as int); }
            return Err(B03Error::InvalidSourceRange);
        }
        if output.text[t].page == Some(0u32) {
            proof { lemma_span_fault_extends(o.text, len, t as int + 1, o.text.len() as int); }
            return Err(B03Error::InvalidPage);
        }
        t = t + 1;
    }
    let mut p: usize = 0;
    while p < output.pages.len()
        invariant
            p <= o.pages.len(),
            o == output@,
            len == source_len,
            forall|j: int| 0 <= j < o.metadata.len() ==> trim_spec((#[trigger] o.metadata[j]).0).len() != 0,
            span_fault(o.text, len, o.text.len() as int) is None,
            page_fault(o.pages, len, p as int) is None,
        decreases o.pages.len() - p,
    {
        let page = &output.pages[p];
        assert(o.pages[p as int] == page@);
        let mut dup = false;
        let mut j: usize = 0;
        while j < p
            invariant
                j <= p < o.pages.len(),
                o == output@,
                page@ == o.pages[p as int],
                dup <==> exists|k: int| 0 <= k < j && (#[trigger] o.pages[k]).page == page.page,
            decreases p - j,
        {
            assert(o.pages[j as int] == output.pages@[j as int]@);
            if output.pages[j].page == page.page {
                dup = true;
            }
            j = j + 1;
        }
        if page.page == 0 || dup {
            proof { lemma_page_fault_extends(o.pages, len, p as int + 1, o.pages.len() as int); }
            return Err(B03Error::InvalidPage);
        }
        let m = normalize_type(page.media_type.as_str());
        if m.as_str().unicode_len() == 0 {
            proof { lemma_page_fault_extends(o.pages, len, p as int + 1, o.pages.len() as int); }
            return Err(B03Error::EmptyMediaType);
        }
        if !check_range(page.source_byte_range, source_len) {
            proof { lemma_page_fault_extends(o.pages, len, p as int + 1, o.pages.len() as int); }
            return Err(B03Error::InvalidSourceRange);
        }
        p = p + 1;
    }
    match &output.conversion {
        Some(c) => {
            let m = normalize_type(c.media_type.as_str());
            if m.as_str().unicode_len() == 0 {
                return Err(B03Error::EmptyMediaType);
            }
        },
        None => {},
    }
    Ok(())
}

proof fn lemma_span_fault_extends(s: Seq<SpanView>, len: int, k: int, n: int)
    requires
        0 <= k <= n,
        span_fault(s, len, k) is Some,
    ensures
        span_fault(s, len, n) == span_fault(s, len, k),
    decreases n - k,
{
    if k < n {
        lemma_span_fault_extends(s, len, k, n - 1);
    }
}

proof fn lemma_page_fault_extends(s: Seq<AdapterPageView>, len: int, k: int, n: int)
    requires
        0 <= k <= n,
        page_fault(s, len, k) is Some,
    ensures
        page_fault(s, len, n) == page_fault(s, len, k),
    decreases n - k,
{
    if k < n {
        lemma_page_fault_extends(s, len, k, n - 1);
    }
}

// ---------------------------------------------------------------------------------------------
// Retention stages
// ---------------------------------------------------------------------------------------------

/// Gap recorded when extracted text is cut at the text bound.
pub open spec fn text_trunc_gap() -> Seq<char> {
    "text extraction truncated by B03 max_text_bytes"@
}

/// Gap recorded when more pages were produced than may be retained.
pub open spec fn page_count_gap() -> Seq<char> {
    "page/render coverage exceeded B03 max_pages"@
}

/// Gap recorded for a page render over the render bound.
pub open spec fn page_render_gap(page: u32) -> Seq<char> {
    "page "@ + decimal(page as nat) + " render exceeds B03 max_page_render_bytes"@
}

/// Gap recorded when the preview is cut.
pub open spec fn preview_gap() -> Seq<char> {
    "safe preview truncated by B03 max_preview_bytes"@
}

/// Gap recorded when a conversion is over its bound.
pub open spec fn conversion_gap() -> Seq<char> {
    "converted output exceeded B03 max_conversion_bytes"@
}

/// Limitation recorded when a conversion is dropped.
pub open spec fn conversion_limitation() -> Seq<char> {
    "converted output was not retained because it exceeded policy"@
}

/// Warning recorded when active content was observed.
pub open spec fn active_warning() -> Seq<char> {
    "active document content was observed and not executed"@
}

/// Record an unknown gap: the report can no longer claim completeness.
pub open spec fn mark_gap_spec(r: DocumentView, g: Seq<char>) -> DocumentView {
    DocumentView { complete: false, gaps: r.gaps.push(g), ..r }
}

fn mark_gap(report: &mut DocumentReport, reason: String)
    ensures
        final(report)@ == mark_gap_spec(old(report)@, reason@),
{
    report.coverage.complete_claim = false;
    push_string(&mut report.coverage.unknown_gaps, reason);
}

/// Anchor of retained material.
pub open spec fn anchor_of(rev: (Seq<char>, Seq<char>), range: Option<(u64, u64)>, page: Option<u32>) -> AnchorView {
    AnchorView {
        revision: rev,
        start: match range {
            Some(r) => Some(r.0),
            None => None,
        },
        end: match range {
            Some(r) => Some(r.1),
            None => None,
        },
        page,
    }
}

/// Retain one text span against the remaining text budget; the state is the report, the bytes
/// still allowed, and whether retention has stopped.
pub open spec fn text_step(st: (DocumentView, int, bool), span: SpanView, rev: (Seq<char>, Seq<char>)) -> (
    DocumentView,
    int,
    bool,
) {
    let (r, rem, stop) = st;
    if stop {
        st
    } else if rem <= 0 {
        (mark_gap_spec(r, text_trunc_gap()), rem, true)
    } else {
        let (t, cut) = truncate_spec(span.text, rem);
        let anchor = anchor_of(rev, if cut { None } else { span.range }, span.page);
        let r2 = DocumentView { text: r.text.push((t, anchor)), text_bytes: (r.text_bytes + utf8_len(t)) as u64, ..r };
        if cut {
            (mark_gap_spec(r2, text_trunc_gap()), rem - utf8_len(t), true)
        } else {
            (r2, rem - utf8_len(t), false)
        }
    }
}

/// Retention state after the first `n` spans.
pub open spec fn text_fold(spans: Seq<SpanView>, n: int, r0: DocumentView, rev: (Seq<char>, Seq<char>), max: int) -> (
    DocumentView,
    int,
    bool,
)
    decreases n,
{
    if n <= 0 {
        (r0, max, false)
    } else {
        text_step(text_fold(spans, n - 1, r0, rev, max), spans[n - 1], rev)
    }
}

/// The report after retaining extracted text within `max` bytes.
pub open spec fn retain_text_spec(r0: DocumentView, spans: Seq<SpanView>, rev: (Seq<char>, Seq<char>), max: int) -> DocumentView {
    text_fold(spans, spans.len() as int, r0, rev, max).0
}

proof fn lemma_text_fold_bytes(spans: Seq<SpanView>, n: int, r0: DocumentView, rev: (Seq<char>, Seq<char>), max: int)
    requires
        0 <= n <= spans.len(),
        r0.text_bytes == 0,
        0 <= max <= u64::MAX,
    ensures
        text_fold(spans, n, r0, rev, max).0.text_bytes + text_fold(spans, n, r0, rev, max).1 == max,
        0 <= text_fold(spans, n, r0, rev, max).1 <= max,
    decreases n,
{
    if n > 0 {
        lemma_text_fold_bytes(spans, n - 1, r0, rev, max);
        let (r, rem, stop) = text_fold(spans, n - 1, r0, rev, max);
        if !stop && rem > 0 {
            let (t, cut) = truncate_spec(spans[n - 1].text, rem);
            if !cut {
                assert(utf8_len(t) <= rem);
            } else {
                lemma_truncate_fits(spans[n - 1].text, rem);
            }
        }
    }
}

proof fn lemma_truncate_fits(s: Seq<char>, max: int)
    requires
        max >= 0,
    ensures
        utf8_len(truncate_spec(s, max).0) <= max,
{
    crate::text_ops::lemma_truncate_fits(s, max);
}

pub(crate) fn retain_text_stage(report: &mut DocumentReport, spans: &Vec<AdapterTextSpan>, rev: &EntityRef, max_text_bytes: usize)
    requires
        old(report).coverage.retained_text_bytes == 0,
    ensures
        final(report)@ == retain_text_spec(old(report)@, span_views(spans@), rev@, max_text_bytes as int),
{
    let ghost r0 = report@;
    let ghost sv = span_views(spans@);
    let mut remaining: usize = max_text_bytes;
    let mut stop = false;
    let mut i: usize = 0;
    while i < spans.len()
        invariant
            i <= sv.len(),
            sv == span_views(spans@),
            r0.text_bytes == 0,
            text_fold(sv, i as int, r0, rev@, max_text_bytes as int) == (report@, remaining as int, stop),
        decreases sv.len() - i,
    {
        proof { lemma_text_fold_bytes(sv, i as int, r0, rev@, max_text_bytes as int); }
        assert(sv[i as int] == spans@[i as int]@);
        if !stop {
            if remaining == 0 {
                mark_gap(report, owned("text extraction truncated by B03 max_text_bytes"));
                stop = true;
            } else {
                let span = &spans[i];
                let (text, cut) = truncate_utf8(span.text.as_str(), remaining);
                let n = text.as_str().as_bytes().len();
                let (start, end) = if cut {
                    (None, None)
                } else {
                    match span.source_byte_range {
                        Some((a, b)) => (Some(a), Some(b)),
                        None => (None, None),
                    }
                };
                remaining = remaining - n;
                report.coverage.retained_text_bytes = report.coverage.retained_text_bytes + n as u64;
                let ghost before = report.text@;
                report.text.push(
                    AnchoredText {
                        text,
                        anchor: SourceAnchor {
                            source_revision_ref: rev.duplicate(),
                            byte_start: start,
                            byte_end_exclusive: end,
                            page: span.page,
                        },
                    },
                );
                assert(anchored_views(report.text@) =~= anchored_views(before).push(report.text@.last()@));
                if cut {
                    mark_gap(report, owned("text extraction truncated by B03 max_text_bytes"));
                    stop = true;
                }
            }
        }
        i = i + 1;
    }
}

/// Retain one page render, or record its render-size gap.
pub open spec fn page_step(r: DocumentView, p: AdapterPageView, rev: (Seq<char>, Seq<char>), max_render: int) -> DocumentView {
    if p.bytes.len() > max_render {
        mark_gap_spec(r, page_render_gap(p.page))
    } else {
        DocumentView {
            pages: r.pages.push(
                PageOutView {
                    page: p.page,
                    media_type: normalize_type_spec(p.media_type),
                    bytes: p.bytes,
                    anchor: anchor_of(rev, p.range, Some(p.page)),
                },
            ),
            ..r
        }
    }
}

/// The report after the first `n` pages.
pub open spec fn pages_fold(pages: Seq<AdapterPageView>, n: int, r0: DocumentView, rev: (Seq<char>, Seq<char>), max_render: int) -> DocumentView
    decreases n,
{
    if n <= 0 {
        r0
    } else {
        page_step(pages_fold(pages, n - 1, r0, rev, max_render), pages[n - 1], rev, max_render)
    }
}

/// The report after retaining at most `max_pages` page renders of at most `max_render` bytes.
pub open spec fn retain_pages_spec(
    r0: DocumentView,
    pages: Seq<AdapterPageView>,
    rev: (Seq<char>, Seq<char>),
    max_pages: int,
    max_render: int,
) -> DocumentView {
    let k = if pages.len() < max_pages { pages.len() as int } else { max_pages };
    let r1 = pages_fold(pages, k, r0, rev, max_render);
    let r2 = if pages.len() > max_pages { mark_gap_spec(r1, page_count_gap()) } else { r1 };
    DocumentView { retained_pages: r2.pages.len() as usize, ..r2 }
}

pub(crate) fn retain_pages_stage(report: &mut DocumentReport, pages: &Vec<AdapterPage>, rev: &EntityRef, max_pages: usize, max_page_render_bytes: usize)
    ensures
        final(report)@ == retain_pages_spec(
            old(report)@,
            adapter_page_views(pages@),
            rev@,
            max_pages as int,
            max_page_render_bytes as int,
        ),
{
    let ghost r0 = report@;
    let ghost pv = adapter_page_views(pages@);
    let k = if pages.len() < max_pages { pages.len() } else { max_pages };
    let mut i: usize = 0;
    while i < k
        invariant
            i <= k <= pv.len(),
            pv == adapter_page_views(pages@),
            report@ == pages_fold(pv, i as int, r0, rev@, max_page_render_bytes as int),
        decreases k - i,
    {
        let page = &pages[i];
        assert(pv[i as int] == page@);
        if page.bytes.len() > max_page_render_bytes {
            mark_gap(report, numbered_message("page ", page.page as u64, " render exceeds B03 max_page_render_bytes"));
        } else {
            let (start, end) = match page.source_byte_range {
                Some((a, b)) => (Some(a), Some(b)),
                None => (None, None),
            };
            let ghost before = report.pages@;
            report.pages.push(
                DocumentPageView {
                    page: page.page,
                    media_type: normalize_type(page.media_type.as_str()),
                    bytes: vstd::slice::slice_to_vec(page.bytes.as_slice()),
                    anchor: SourceAnchor {
                        source_revision_ref: rev.duplicate(),
                        byte_start: start,
                        byte_end_exclusive: end,
                        page: Some(page.page),
                    },
                },
            );
            assert(page_out_views(report.pages@) =~= page_out_views(before).push(report.pages@.last()@));
        }
        i = i + 1;
    }
    if pages.len() > max_pages {
        mark_gap(report, owned("page/render coverage exceeded B03 max_pages"));
    }
    report.coverage.retained_pages = report.pages.len();
}

/// Retained texts joined by newlines, skipping the separator while nothing has been joined.
pub open spec fn preview_join(texts: Seq<Seq<char>>) -> Seq<char>
    decreases texts.len(),
{
    if texts.len() == 0 {
        Seq::empty()
    } else {
        let a = preview_join(texts.drop_last());
        if a.len() == 0 {
            texts.last()
        } else {
            a + seq!['\n'] + texts.last()
        }
    }
}

/// Texts of anchored text.
pub open spec fn texts_of(s: Seq<(Seq<char>, AnchorView)>) -> Seq<Seq<char>> {
    s.map_values(|x: (Seq<char>, AnchorView)| x.0)
}

/// The report with its passive text preview, cut to `max` bytes.
pub open spec fn preview_spec(r: DocumentView, rev: (Seq<char>, Seq<char>), max: int) -> DocumentView {
    let j = preview_join(texts_of(r.text));
    if j.len() == 0 {
        DocumentView { preview: None, ..r }
    } else {
        let (t, cut) = truncate_spec(j, max);
        let r2 = DocumentView {
            preview: Some(PreviewView { media_type: "text/plain"@, bytes: key_bytes(t), sanitized: true, revision: rev }),
            ..r
        };
        if cut {
            mark_gap_spec(r2, preview_gap())
        } else {
            r2
        }
    }
}

/// UTF-8 bytes of a string.
pub fn text_bytes_of(s: &String) -> (r: Vec<u8>)
    ensures
        r@ == key_bytes(s@),
{
    vstd::slice::slice_to_vec(s.as_str().as_bytes())
}

pub(crate) fn preview_stage(report: &mut DocumentReport, rev: &EntityRef, max_preview_bytes: usize)
    ensures
        final(report)@ == preview_spec(old(report)@, rev@, max_preview_bytes as int),
{
    let ghost ts = texts_of(report@.text);
    let mut joined = String::new();
    let mut i: usize = 0;
    while i < report.text.len()
        invariant
            i <= ts.len(),
            ts == texts_of(report@.text),
            joined@ == preview_join(ts.take(i as int)),
        decreases ts.len() - i,
    {
        assert(ts.take(i as int + 1).drop_last() =~= ts.take(i as int));
        assert(ts[i as int] == report.text@[i as int].text@);
        if joined.as_str().unicode_len() != 0 {
            proof {
                reveal_strlit("\n");
            }
            joined.append("\n");
        }
        joined.append(report.text[i].text.as_str());
        i = i + 1;
    }
    assert(ts.take(ts.len() as int) =~= ts);
    if joined.as_str().unicode_len() == 0 {
        report.preview = None;
        return;
    }
    let (text, cut) = truncate_utf8(joined.as_str(), max_preview_bytes);
    report.preview = Some(
        SafePreview {
            media_type: owned("text/plain"),
            bytes: text_bytes_of(&text),
            sanitized: true,
            source_revision_ref: rev.duplicate(),
        },
    );
    if cut {
        mark_gap(report, owned("safe preview truncated by B03 max_preview_bytes"));
    }
}

/// The report with the adapter conversion retained, or dropped with a gap and a limitation when
/// it is over `max` bytes.
pub open spec fn conversion_spec(
    r: DocumentView,
    conv: Option<(Seq<char>, Seq<u8>)>,
    rev: (Seq<char>, Seq<char>),
    source_sha256: Seq<char>,
    adapter_id: Seq<char>,
    max: int,
) -> DocumentView {
    match conv {
        None => DocumentView { conversion: None, ..r },
        Some((mt, bytes)) => if bytes.len() > max {
            DocumentView {
                conversion: None,
                complete: false,
                gaps: r.gaps.push(conversion_gap()),
                limitations: r.limitations.push(conversion_limitation()),
                ..r
            }
        } else {
            DocumentView {
                conversion: Some(
                    ConvertedView {
                        media_type: normalize_type_spec(mt),
                        bytes,
                        sha256: sha256_hex_of(bytes),
                        revision: rev,
                        source_sha256,
                        adapter_id,
                    },
                ),
                ..r
            }
        },
    }
}

pub(crate) fn conversion_stage(
    report: &mut DocumentReport,
    conversion: Option<AdapterConversion>,
    rev: &EntityRef,
    source_sha256: &String,
    adapter_id: &String,
    max_conversion_bytes: usize,
)
    ensures
        final(report)@ == conversion_spec(
            old(report)@,
            conversion_view(conversion),
            rev@,
            source_sha256@,
            adapter_id@,
            max_conversion_bytes as int,
        ),
{
    match conversion {
        None => {
            report.conversion = None;
        },
        Some(c) => {
            if c.bytes.len() > max_conversion_bytes {
                report.conversion = None;
                report.coverage.complete_claim = false;
                push_string(&mut report.coverage.unknown_gaps, owned("converted output exceeded B03 max_conversion_bytes"));
                push_string(&mut report.limitations, owned("converted output was not retained because it exceeded policy"));
            } else {
                let sha256 = sha256_hex(c.bytes.as_slice());
                report.conversion = Some(
                    ConvertedDocument {
                        media_type: normalize_type(c.media_type.as_str()),
                        bytes: c.bytes,
                        sha256,
                        source_revision_ref: rev.duplicate(),
                        source_sha256: source_sha256.clone(),
                        adapter_id: adapter_id.clone(),
                    },
                );
            }
        },
    }
}

/// The finished report: the active-content warning when content was observed, then gaps,
/// warnings and limitations reduced to first occurrences.
pub open spec fn finish_spec(r: DocumentView) -> DocumentView {
    let w = if r.active { r.warnings.push(active_warning()) } else { r.warnings };
    DocumentView { gaps: dedup_spec(r.gaps), warnings: dedup_spec(w), limitations: dedup_spec(r.limitations), ..r }
}

pub(crate) fn finish_stage(report: &mut DocumentReport)
    ensures
        final(report)@ == finish_spec(old(report)@),
{
    if report.active_content_observed {
        push_string(&mut report.warnings, owned("active document content was observed and not executed"));
    }
    dedup_strings(&mut report.coverage.unknown_gaps);
    dedup_strings(&mut report.warnings);
    dedup_strings(&mut report.limitations);
}

} // verus!
