//! Built-in passive document adapters.
use vstd::prelude::*;
use crate::document::{
    isolation_safe, AdapterConversion, AdapterDocument, AdapterDocumentView, AdapterPage, AdapterPageView,
    AdapterTextSpan, DocumentAdapter, DocumentIsolation, DocumentMetadata, SpanView, field_views,
};
use crate::html_text::{
    active_content_spec, extract_html_title_chars, html_contains_active_content_chars, html_text_spec, html_to_text_chars,
    passive_html_spec, remove_html_active_regions_chars, title_spec,
};
use crate::partition_map::{push_string, string_views};
use crate::text::{decimal, decimal_string, owned};
use crate::text_map::key_bytes;
use crate::text_ops::{chars_of, string_of};

verus! {

/// Calls `std::str::from_utf8` and tests for success: trusted to be `true` exactly when `bytes`
/// is well-formed UTF-8.
#[verifier::external_body]
pub(crate) fn utf8_is_valid(bytes: &[u8]) -> (r: bool)
    ensures
        r == vstd::utf8::valid_utf8(bytes@),
{
    std::str::from_utf8(bytes).is_ok()
}

/// The text `String::from_utf8_lossy` yields for `bytes`.
pub uninterp spec fn utf8_lossy_of(bytes: Seq<u8>) -> Seq<char>;

/// Calls `String::from_utf8_lossy`: trusted to return the lossy decoding named `utf8_lossy_of`,
/// which for well-formed UTF-8 is the exact decoding (the documentation promises the input is
/// then returned as is). What replaces malformed sequences is left unsaid.
#[verifier::external_body]
pub(crate) fn from_utf8_lossy(bytes: &[u8]) -> (s: String)
    ensures
        s@ == utf8_lossy_of(bytes@),
        vstd::utf8::valid_utf8(bytes@) ==> s@ == vstd::utf8::decode_utf8(bytes@),
{
    String::from_utf8_lossy(bytes).into_owned()
}

/// Number of `'\n'` characters in `s`.
pub open spec fn newline_count(s: Seq<char>) -> nat
    decreases s.len(),
{
    if s.len() == 0 {
        0
    } else {
        newline_count(s.drop_last()) + if s.last() == '\n' { 1nat } else { 0nat }
    }
}

/// Number of lines in `s` as Rust's `str::lines` yields them: each newline ends a line, and a
/// final line without a newline counts too.
pub open spec fn line_count_spec(s: Seq<char>) -> nat {
    if s.len() == 0 {
        0
    } else {
        newline_count(s) + if s.last() != '\n' { 1nat } else { 0nat }
    }
}

proof fn lemma_newline_le(s: Seq<char>)
    ensures
        newline_count(s) <= s.len(),
    decreases s.len(),
{
    if s.len() > 0 {
        lemma_newline_le(s.drop_last());
    }
}

fn line_count(s: &String) -> (n: usize)
    ensures
        n == line_count_spec(s@),
{
    let cs = chars_of(s.as_str());
    let mut count: usize = 0;
    let mut i: usize = 0;
    while i < cs.len()
        invariant
            i <= cs@.len(),
            count == newline_count(cs@.take(i as int)),
            count <= i,
        decreases cs.len() - i,
    {
        assert(cs@.take(i as int + 1).drop_last() =~= cs@.take(i as int));
        if cs[i] == '\n' {
            count = count + 1;
        }
        i = i + 1;
    }
    assert(cs@.take(cs@.len() as int) =~= cs@);
    if cs.len() == 0 {
        0
    } else if cs[cs.len() - 1] != '\n' {
        proof {
            lemma_newline_le(cs@.drop_last());
            assert(newline_count(cs@) == newline_count(cs@.drop_last()));
        }
        count + 1
    } else {
        count
    }
}

/// Media types the structured-text adapter supports.
pub open spec fn text_media_type(m: Seq<char>) -> bool {
    m == "text/plain"@ || m == "application/json"@ || m == "text/csv"@ || m == "text/markdown"@
}

/// Limitation recorded when text had to be decoded lossily.
pub open spec fn lossy_text_note() -> Seq<char> {
    "invalid UTF-8 sequences were replaced; exact text coverage is partial"@
}

/// What the structured-text adapter reports for `bytes` of type `media_type`.
pub open spec fn safe_text_spec(bytes: Seq<u8>, media_type: Seq<char>) -> AdapterDocumentView {
    let valid = vstd::utf8::valid_utf8(bytes);
    let text = utf8_lossy_of(bytes);
    let range = if valid { Some((0u64, bytes.len() as u64)) } else { None };
    AdapterDocumentView {
        metadata: seq![
            ("media_type"@, media_type),
            ("line_count"@, decimal(line_count_spec(text))),
            ("source_byte_size"@, decimal(bytes.len())),
        ],
        text: seq![SpanView { text, range, page: None }],
        pages: seq![AdapterPageView { page: 1, media_type: "text/plain"@, bytes: key_bytes(text), range }],
        conversion: None,
        active: false,
        complete: valid,
        warnings: Seq::empty(),
        limitations: if valid { Seq::empty() } else { seq![lossy_text_note()] },
    }
}

/// Built-in passive structured-text adapter.
#[derive(Debug, Default, Clone, Copy)]
pub struct SafeTextAdapter;

impl DocumentAdapter for SafeTextAdapter {
    open spec fn id_post(&self, id: Seq<char>) -> bool {
        id == "b03.safe-text"@
    }

    open spec fn supports_post(&self, media_type: Seq<char>, r: bool) -> bool {
        r == text_media_type(media_type)
    }

    open spec fn isolation_post(&self, r: DocumentIsolation) -> bool {
        isolation_safe(r)
    }

    open spec fn inspect_post(&self, bytes: Seq<u8>, media_type: Seq<char>, r: Result<AdapterDocument, String>) -> bool {
        r matches Ok(d) && d@ == safe_text_spec(bytes, media_type)
    }

    fn adapter_id(&self) -> (r: &str)
        ensures
            r@ == "b03.safe-text"@,
    {
        "b03.safe-text"
    }

    fn supports_media_type(&self, media_type: &str) -> (r: bool)
        ensures
            r == text_media_type(media_type@),
    {
        let m = owned(media_type);
        m == owned("text/plain") || m == owned("application/json") || m == owned("text/csv") || m == owned(
            "text/markdown",
        )
    }

    fn isolation(&self) -> (r: DocumentIsolation)
        ensures
            isolation_safe(r),
    {
        DocumentIsolation::passive()
    }

    fn inspect(&self, bytes: &[u8], media_type: &str) -> (r: Result<AdapterDocument, String>)
        ensures
            r matches Ok(d) && d@ == safe_text_spec(bytes@, media_type@),
    {
        let valid = utf8_is_valid(bytes);
        let text = from_utf8_lossy(bytes);
        let lines = line_count(&text);
        let source_len = bytes.len() as u64;
        let range = if valid {
            Some((0u64, source_len))
        } else {
            None
        };
        let mut limitations: Vec<String> = Vec::new();
        if !valid {
            push_string(&mut limitations, owned("invalid UTF-8 sequences were replaced; exact text coverage is partial"));
        }
        let metadata = vec![
            DocumentMetadata { key: owned("media_type"), value: owned(media_type) },
            DocumentMetadata { key: owned("line_count"), value: decimal_string(lines as u64) },
            DocumentMetadata { key: owned("source_byte_size"), value: decimal_string(bytes.len() as u64) },
        ];
        let page_bytes = crate::document::text_bytes_of(&text);
        let spans = vec![AdapterTextSpan { text, source_byte_range: range, page: None }];
        let pages = vec![AdapterPage { page: 1, media_type: owned("text/plain"), bytes: page_bytes, source_byte_range: range }];
        let d = AdapterDocument {
            metadata,
            text: spans,
            pages,
            conversion: None,
            active_content_observed: false,
            complete_claim: valid,
            warnings: Vec::new(),
            limitations,
        };
        assert(d@.metadata =~= safe_text_spec(bytes@, media_type@).metadata);
        assert(d@.text =~= safe_text_spec(bytes@, media_type@).text);
        assert(d@.pages =~= safe_text_spec(bytes@, media_type@).pages);
        assert(d@.warnings =~= Seq::<Seq<char>>::empty());
        assert(d@.limitations =~= safe_text_spec(bytes@, media_type@).limitations);
        Ok(d)
    }
}


/// Media types the passive HTML adapter supports.
pub open spec fn html_media_type(m: Seq<char>) -> bool {
    m == "text/html"@ || m == "application/xhtml+xml"@
}

/// Limitation: layout and style fidelity are not claimed.
pub open spec fn html_fidelity_note() -> Seq<char> {
    "HTML layout/CSS fidelity is not claimed by the passive text adapter"@
}

/// Limitation: external resources are not fetched.
pub open spec fn html_external_note() -> Seq<char> {
    "external resources are not loaded"@
}

/// Limitation: malformed UTF-8 was replaced.
pub open spec fn html_lossy_note() -> Seq<char> {
    "invalid UTF-8 sequences were replaced during HTML decoding"@
}

/// Limitation: active regions were removed.
pub open spec fn html_removed_note() -> Seq<char> {
    "active/embedded HTML regions were removed before extraction"@
}

/// What the passive HTML adapter reports for `bytes` of type `media_type`: the lossy decoding's
/// active-content flag and title, and the passive text of the decoding with its active regions
/// removed, as one text span, one plain-text page and a plain-text conversion; never complete.
pub open spec fn safe_html_spec(bytes: Seq<u8>, media_type: Seq<char>) -> AdapterDocumentView {
    let src = utf8_lossy_of(bytes);
    let active = active_content_spec(src);
    let text = html_text_spec(passive_html_spec(src));
    AdapterDocumentView {
        metadata: seq![
            ("media_type"@, media_type),
            ("active_content_observed"@, if active { "true"@ } else { "false"@ }),
        ] + match title_spec(src) {
            Some(t) => seq![("title"@, t)],
            None => Seq::empty(),
        },
        text: seq![SpanView { text, range: None, page: None }],
        pages: seq![AdapterPageView { page: 1, media_type: "text/plain"@, bytes: key_bytes(text), range: None }],
        conversion: Some(("text/plain"@, key_bytes(text))),
        active,
        complete: false,
        warnings: Seq::empty(),
        limitations: seq![html_fidelity_note(), html_external_note()] + (if vstd::utf8::valid_utf8(bytes) {
            Seq::empty()
        } else {
            seq![html_lossy_note()]
        }) + (if active {
            seq![html_removed_note()]
        } else {
            Seq::empty()
        }),
    }
}

/// Built-in passive HTML adapter: active regions are removed and never executed, external
/// resources are never loaded.
#[derive(Debug, Default, Clone, Copy)]
pub struct SafeHtmlAdapter;

impl DocumentAdapter for SafeHtmlAdapter {
    open spec fn id_post(&self, id: Seq<char>) -> bool {
        id == "b03.safe-html"@
    }

    open spec fn supports_post(&self, media_type: Seq<char>, r: bool) -> bool {
        r == html_media_type(media_type)
    }

    open spec fn isolation_post(&self, r: DocumentIsolation) -> bool {
        isolation_safe(r)
    }

    open spec fn inspect_post(&self, bytes: Seq<u8>, media_type: Seq<char>, r: Result<AdapterDocument, String>) -> bool {
        r matches Ok(d) && d@ == safe_html_spec(bytes, media_type)
    }

    fn adapter_id(&self) -> (r: &str)
        ensures
            r@ == "b03.safe-html"@,
    {
        "b03.safe-html"
    }

    fn supports_media_type(&self, media_type: &str) -> (r: bool)
        ensures
            r == html_media_type(media_type@),
    {
        let m = owned(media_type);
        m == owned("text/html") || m == owned("application/xhtml+xml")
    }

    fn isolation(&self) -> (r: DocumentIsolation)
        ensures
            isolation_safe(r),
    {
        DocumentIsolation::passive()
    }

    fn inspect(&self, bytes: &[u8], media_type: &str) -> (r: Result<AdapterDocument, String>)
        ensures
            r matches Ok(d) && d@ == safe_html_spec(bytes@, media_type@),
    {
        let valid = utf8_is_valid(bytes);
        let source = from_utf8_lossy(bytes);
        let cs = chars_of(source.as_str());
        let active = html_contains_active_content_chars(&cs);
        let title = extract_html_title_chars(&cs);
        let passive = remove_html_active_regions_chars(&cs);
        let text_chars = html_to_text_chars(&passive);
        let text = string_of(text_chars.as_slice());
        let flag = if active {
            owned("true")
        } else {
            owned("false")
        };
        let mut metadata = vec![
            DocumentMetadata { key: owned("media_type"), value: owned(media_type) },
            DocumentMetadata { key: owned("active_content_observed"), value: flag },
        ];
        let ghost m0 = field_views(metadata@);
        match title {
            Some(t) => {
                let entry = DocumentMetadata { key: owned("title"), value: string_of(t.as_slice()) };
                metadata.push(entry);
                assert(field_views(metadata@) =~= m0 + seq![("title"@, t@)]);
            },
            None => {
                assert(field_views(metadata@) =~= m0 + Seq::<(Seq<char>, Seq<char>)>::empty());
            },
        }
        let mut limitations: Vec<String> = Vec::new();
        push_string(&mut limitations, owned("HTML layout/CSS fidelity is not claimed by the passive text adapter"));
        push_string(&mut limitations, owned("external resources are not loaded"));
        let ghost l0 = string_views(limitations@);
        if !valid {
            push_string(&mut limitations, owned("invalid UTF-8 sequences were replaced during HTML decoding"));
        }
        let ghost l1 = string_views(limitations@);
        if active {
            push_string(&mut limitations, owned("active/embedded HTML regions were removed before extraction"));
        }
        let page_bytes = crate::document::text_bytes_of(&text);
        let conversion_bytes = crate::document::text_bytes_of(&text);
        let spans = vec![AdapterTextSpan { text, source_byte_range: None, page: None }];
        let pages = vec![AdapterPage { page: 1, media_type: owned("text/plain"), bytes: page_bytes, source_byte_range: None }];
        let d = AdapterDocument {
            metadata,
            text: spans,
            pages,
            conversion: Some(AdapterConversion { media_type: owned("text/plain"), bytes: conversion_bytes }),
            active_content_observed: active,
            complete_claim: false,
            warnings: Vec::new(),
            limitations,
        };
        let ghost spec = safe_html_spec(bytes@, media_type@);
        assert(d@.metadata =~= spec.metadata);
        assert(d@.text =~= spec.text);
        assert(d@.pages =~= spec.pages);
        assert(d@.warnings =~= Seq::<Seq<char>>::empty());
        assert(d@.limitations =~= spec.limitations);
        Ok(d)
    }
}

} // verus!
