//! Derived, rebuildable search vocabulary: domains, source-bound documents, limits, the
//! document builders and the index lifecycle.
use vstd::prelude::*;
use crate::digest::{sha256_hex, sha256_hex_of};
use crate::document::AnchoredText;
use crate::identity::EntityRef;
use crate::partition_map::opt_view;
use crate::text::{decimal, numbered_message, owned};
use crate::text_ops::{trim_chars, trim_spec};
use crate::typing::{MetaView, SearchMetadata, meta_views};

verus! {

/// Search domains.
#[derive(Debug, Clone, Copy, PartialEq, Eq, PartialOrd, Ord, Structural)]
pub enum SearchDomain {
    /// User-facing filename or logical path.
    Filename,
    /// Evidence-derived metadata key/value material.
    Metadata,
    /// Anchored document text.
    DocumentText,
    /// Source-code symbol names.
    SourceSymbol,
    /// Log text.
    Log,
    /// Activity text, status or labels.
    Activity,
    /// Artifact type, purpose or labels.
    Artifact,
}

impl SearchDomain {
    /// Stable token of the domain.
    pub fn as_str(&self) -> (r: &'static str)
        ensures
            r@ == domain_token(*self),
    {
        match self {
            SearchDomain::Filename => "filename",
            SearchDomain::Metadata => "metadata",
            SearchDomain::DocumentText => "document_text",
            SearchDomain::SourceSymbol => "source_symbol",
            SearchDomain::Log => "log",
            SearchDomain::Activity => "activity",
            SearchDomain::Artifact => "artifact",
        }
    }
}

/// Stable token of a domain.
pub open spec fn domain_token(d: SearchDomain) -> Seq<char> {
    match d {
        SearchDomain::Filename => "filename"@,
        SearchDomain::Metadata => "metadata"@,
        SearchDomain::DocumentText => "document_text"@,
        SearchDomain::SourceSymbol => "source_symbol"@,
        SearchDomain::Log => "log"@,
        SearchDomain::Activity => "activity"@,
        SearchDomain::Artifact => "artifact"@,
    }
}

/// Logical indexed-document class.
#[derive(Debug, Clone, Copy, PartialEq, Eq, PartialOrd, Ord, Structural)]
pub enum SearchDocumentKind {
    /// Filename and metadata projection.
    ObjectMetadata,
    /// Anchored document text projection.
    DocumentText,
    /// Source symbol projection.
    SourceSymbols,
    /// Log projection.
    Log,
    /// Activity projection.
    Activity,
    /// Artifact projection.
    Artifact,
}

impl SearchDocumentKind {
    /// Stable token of the document kind.
    pub fn as_str(&self) -> (r: &'static str)
        ensures
            r@ == kind_token(*self),
    {
        match self {
            SearchDocumentKind::ObjectMetadata => "object_metadata",
            SearchDocumentKind::DocumentText => "document_text",
            SearchDocumentKind::SourceSymbols => "source_symbols",
            SearchDocumentKind::Log => "log",
            SearchDocumentKind::Activity => "activity",
            SearchDocumentKind::Artifact => "artifact",
        }
    }
}

/// Stable token of a document kind.
pub open spec fn kind_token(k: SearchDocumentKind) -> Seq<char> {
    match k {
        SearchDocumentKind::ObjectMetadata => "object_metadata"@,
        SearchDocumentKind::DocumentText => "document_text"@,
        SearchDocumentKind::SourceSymbols => "source_symbols"@,
        SearchDocumentKind::Log => "log"@,
        SearchDocumentKind::Activity => "activity"@,
        SearchDocumentKind::Artifact => "artifact"@,
    }
}

/// One searchable field copied from source truth.
#[derive(Debug, Clone)]
pub struct SearchField {
    /// Search domain of this field.
    pub domain: SearchDomain,
    /// Optional stable key.
    pub key: Option<String>,
    /// Exact searchable value.
    pub value: String,
    /// Evidence or projection source that supplied this field.
    pub evidence_source: String,
}

/// Abstract value of a field: domain, key, value and evidence source.
pub type FieldView = (SearchDomain, Option<Seq<char>>, Seq<char>, Seq<char>);

/// Views of fields.
pub open spec fn field_views(s: Seq<SearchField>) -> Seq<FieldView> {
    s.map_values(|f: SearchField| (f.domain, opt_view(f.key), f.value@, f.evidence_source@))
}

/// Exact source binding retained by every indexed document and every hit.
#[derive(Debug)]
pub struct SearchSourceBinding {
    /// Workspace owning the canonical source.
    pub workspace_ref: EntityRef,
    /// Canonical source entity.
    pub source_ref: EntityRef,
    /// Exact canonical record revision of the source entity.
    pub source_record_revision: u64,
    /// Exact object revision when the material is content derived.
    pub object_revision_ref: Option<EntityRef>,
    /// Canonical serialized text of `workspace_ref`; it orders and digests indexed documents.
    pub workspace_key: String,
    /// Canonical serialized text of `source_ref`; it orders documents and hits.
    pub source_key: String,
    /// Canonical serialized text of `object_revision_ref`, present exactly when it is.
    pub object_revision_key: Option<String>,
}

/// Abstract value of a binding.
pub ghost struct BindingView {
    /// Workspace reference.
    pub workspace: (Seq<char>, Seq<char>),
    /// Source reference.
    pub source: (Seq<char>, Seq<char>),
    /// Record revision.
    pub revision: u64,
    /// Object revision reference.
    pub object_revision: Option<(Seq<char>, Seq<char>)>,
    /// Serialized workspace reference.
    pub workspace_key: Seq<char>,
    /// Serialized source reference.
    pub source_key: Seq<char>,
    /// Serialized object revision reference.
    pub object_key: Option<Seq<char>>,
}

/// View of an optional reference.
pub open spec fn ref_opt_view(o: Option<EntityRef>) -> Option<(Seq<char>, Seq<char>)> {
    match o {
        Some(r) => Some(r@),
        None => None,
    }
}

impl View for SearchSourceBinding {
    type V = BindingView;

    open spec fn view(&self) -> BindingView {
        BindingView {
            workspace: self.workspace_ref@,
            source: self.source_ref@,
            revision: self.source_record_revision,
            object_revision: ref_opt_view(self.object_revision_ref),
            workspace_key: self.workspace_key@,
            source_key: self.source_key@,
            object_key: opt_view(self.object_revision_key),
        }
    }
}

impl SearchSourceBinding {
    /// Copy of this binding.
    pub fn duplicate(&self) -> (r: Self)
        ensures
            r@ == self@,
    {
        SearchSourceBinding {
            workspace_ref: self.workspace_ref.duplicate(),
            source_ref: self.source_ref.duplicate(),
            source_record_revision: self.source_record_revision,
            object_revision_ref: match &self.object_revision_ref {
                Some(r) => Some(r.duplicate()),
                None => None,
            },
            workspace_key: self.workspace_key.clone(),
            source_key: self.source_key.clone(),
            object_revision_key: self.object_revision_key.clone(),
        }
    }
}

/// One derived index document; not canonical source truth.
#[derive(Debug)]
pub struct SearchDocument {
    /// Exact source binding.
    pub source: SearchSourceBinding,
    /// Logical projection class.
    pub kind: SearchDocumentKind,
    /// Searchable copied fields.
    pub fields: Vec<SearchField>,
}

/// Abstract value of a document: binding, kind and fields.
pub type DocumentView = (BindingView, SearchDocumentKind, Seq<FieldView>);

impl View for SearchDocument {
    type V = DocumentView;

    open spec fn view(&self) -> DocumentView {
        (self.source@, self.kind, field_views(self.fields@))
    }
}

/// Resource and query limits for one index.
#[derive(Debug, Clone, Copy, PartialEq, Eq, Structural)]
pub struct SearchLimits {
    /// Maximum documents retained by one rebuild.
    pub max_documents: usize,
    /// Maximum fields retained in one document.
    pub max_fields_per_document: usize,
    /// Maximum UTF-8 bytes retained in one field value.
    pub max_field_bytes: usize,
    /// Maximum UTF-8 bytes accepted in one query.
    pub max_query_bytes: usize,
    /// Maximum results returned by one query.
    pub max_results: usize,
}

impl Default for SearchLimits {
    fn default() -> (r: Self)
        ensures
            r.max_documents == 100_000,
            r.max_fields_per_document == 4_096,
            r.max_field_bytes == 1024 * 1024,
            r.max_query_bytes == 8_192,
            r.max_results == 1_000,
    {
        SearchLimits {
            max_documents: 100_000,
            max_fields_per_document: 4_096,
            max_field_bytes: 1024 * 1024,
            max_query_bytes: 8_192,
            max_results: 1_000,
        }
    }
}

/// Every search limit is non-zero.
pub open spec fn search_limits_valid(l: SearchLimits) -> bool {
    l.max_documents != 0 && l.max_fields_per_document != 0 && l.max_field_bytes != 0 && l.max_query_bytes != 0
        && l.max_results != 0
}

/// Immutable identity of one derived index state.
#[derive(Debug, Clone)]
pub struct SearchIndexRevision {
    /// Monotonic local index revision.
    pub revision: u64,
    /// SHA-256 of the canonical index content.
    pub content_sha256: String,
    /// Number of retained documents.
    pub document_count: usize,
}

/// One exact field that matched a query.
#[derive(Debug, Clone)]
pub struct SearchMatch {
    /// Matching search domain.
    pub domain: SearchDomain,
    /// Optional copied field key.
    pub key: Option<String>,
    /// Exact copied field value.
    pub value: String,
    /// Evidence or projection source retained from indexing.
    pub evidence_source: String,
}

/// Abstract value of a match: domain, key, value and evidence source.
pub type MatchView = (SearchDomain, Option<Seq<char>>, Seq<char>, Seq<char>);

/// Views of matches.
pub open spec fn match_views(s: Seq<SearchMatch>) -> Seq<MatchView> {
    s.map_values(|m: SearchMatch| (m.domain, opt_view(m.key), m.value@, m.evidence_source@))
}

/// Workspace-scoped query.
#[derive(Debug, Clone)]
pub struct SearchQuery {
    /// Workspace within which results may be returned.
    pub workspace_ref: EntityRef,
    /// Case-insensitive conjunctive query text, split on Unicode white space.
    pub text: String,
    /// Optional domain filter; empty means all domains.
    pub domains: Vec<SearchDomain>,
    /// Maximum number of hits requested.
    pub limit: usize,
}

/// Abstract value of a query.
pub ghost struct QueryView {
    /// Workspace reference.
    pub workspace: (Seq<char>, Seq<char>),
    /// Query text.
    pub text: Seq<char>,
    /// Domain filter.
    pub domains: Seq<SearchDomain>,
    /// Requested hit count.
    pub limit: usize,
}

impl View for SearchQuery {
    type V = QueryView;

    open spec fn view(&self) -> QueryView {
        QueryView { workspace: self.workspace_ref@, text: self.text@, domains: self.domains@, limit: self.limit }
    }
}

/// One source-bound result.
#[derive(Debug)]
pub struct SearchHit {
    /// Exact source binding.
    pub source: SearchSourceBinding,
    /// Projection class that matched.
    pub kind: SearchDocumentKind,
    /// Number of matching fields in this document.
    pub score: u32,
    /// Exact matching copied fields.
    pub matches: Vec<SearchMatch>,
}

/// Abstract value of a hit: binding, kind, score and matches.
pub type HitView = (BindingView, SearchDocumentKind, u32, Seq<MatchView>);

impl View for SearchHit {
    type V = HitView;

    open spec fn view(&self) -> HitView {
        (self.source@, self.kind, self.score, match_views(self.matches@))
    }
}

/// Views of hits.
pub open spec fn hit_views(s: Seq<SearchHit>) -> Seq<HitView> {
    s.map_values(|h: SearchHit| h@)
}

/// Search response bound to one exact index revision.
#[derive(Debug)]
pub struct SearchResponse {
    /// Exact index revision queried.
    pub index: SearchIndexRevision,
    /// Deterministically ordered source-bound hits.
    pub hits: Vec<SearchHit>,
}

/// Search validation failures; index state never upgrades canonical truth.
#[derive(Debug)]
pub enum SearchError {
    /// At least one configured limit is zero.
    InvalidLimits,
    /// Workspace reference is not `core.workspace`.
    InvalidWorkspaceRef,
    /// Object revision binding is not `object.revision`.
    InvalidObjectRevisionRef,
    /// Source record revision must be positive.
    InvalidSourceRecordRevision,
    /// A required copied text is empty or not trimmed; the text is named.
    InvalidText(&'static str),
    /// A copied field exceeds the configured bound.
    FieldTooLarge,
    /// A document exceeds the configured field-count bound.
    TooManyFields,
    /// A rebuild exceeds the configured document bound.
    TooManyDocuments,
    /// Two documents claim the same exact source binding and projection class.
    DuplicateDocument,
    /// Query text is invalid or exceeds configured bounds.
    InvalidQuery,
    /// Query asks for an unsupported result count.
    InvalidResultLimit,
    /// A text anchor does not bind the supplied exact object revision.
    AnchorMismatch,
    /// The local index revision overflowed.
    RevisionOverflow,
}

/// Abstract value of a search failure.
pub ghost enum SearchFault {
    /// Zero limit.
    InvalidLimits,
    /// Workspace kind.
    InvalidWorkspaceRef,
    /// Object revision kind.
    InvalidObjectRevisionRef,
    /// Zero record revision.
    InvalidSourceRecordRevision,
    /// Invalid text, named.
    InvalidText(Seq<char>),
    /// Field too large.
    FieldTooLarge,
    /// Too many fields.
    TooManyFields,
    /// Too many documents.
    TooManyDocuments,
    /// Duplicate document identity.
    DuplicateDocument,
    /// Invalid query.
    InvalidQuery,
    /// Invalid result limit.
    InvalidResultLimit,
    /// Anchor mismatch.
    AnchorMismatch,
    /// Revision overflow.
    RevisionOverflow,
}

impl View for SearchError {
    type V = SearchFault;

    open spec fn view(&self) -> SearchFault {
        match self {
            SearchError::InvalidLimits => SearchFault::InvalidLimits,
            SearchError::InvalidWorkspaceRef => SearchFault::InvalidWorkspaceRef,
            SearchError::InvalidObjectRevisionRef => SearchFault::InvalidObjectRevisionRef,
            SearchError::InvalidSourceRecordRevision => SearchFault::InvalidSourceRecordRevision,
            SearchError::InvalidText(s) => SearchFault::InvalidText(s@),
            SearchError::FieldTooLarge => SearchFault::FieldTooLarge,
            SearchError::TooManyFields => SearchFault::TooManyFields,
            SearchError::TooManyDocuments => SearchFault::TooManyDocuments,
            SearchError::DuplicateDocument => SearchFault::DuplicateDocument,
            SearchError::InvalidQuery => SearchFault::InvalidQuery,
            SearchError::InvalidResultLimit => SearchFault::InvalidResultLimit,
            SearchError::AnchorMismatch => SearchFault::AnchorMismatch,
            SearchError::RevisionOverflow => SearchFault::RevisionOverflow,
        }
    }
}

/// A canonical copied text: non-empty once trimmed, and already trimmed.
pub open spec fn canonical_text(v: Seq<char>) -> bool {
    trim_spec(v).len() > 0 && trim_spec(v) == v
}

/// Whether `value` is canonical copied text.
pub fn is_canonical_text(value: &str) -> (r: bool)
    ensures
        r == canonical_text(value@),
{
    let t = trim_chars(value);
    let v = crate::text_ops::chars_of(value);
    if t.len() == 0 || t.len() != v.len() {
        return false;
    }
    let mut i: usize = 0;
    while i < t.len()
        invariant
            i <= t@.len() == v@.len(),
            v@ == value@,
            t@ == trim_spec(value@),
            forall|j: int| 0 <= j < i ==> t@[j] == v@[j],
        decreases t.len() - i,
    {
        if t[i] != v[i] {
            return false;
        }
        i = i + 1;
    }
    assert(t@ =~= v@);
    true
}

/// The failure of binding validation, if any.
pub open spec fn binding_fault(b: BindingView) -> Option<SearchFault> {
    if b.workspace.1 != "core.workspace"@ {
        Some(SearchFault::InvalidWorkspaceRef)
    } else if b.revision == 0 {
        Some(SearchFault::InvalidSourceRecordRevision)
    } else {
        match b.object_revision {
            Some(r) => if r.1 != "object.revision"@ {
                Some(SearchFault::InvalidObjectRevisionRef)
            } else {
                None
            },
            None => None,
        }
    }
}

/// Reject a binding outside a workspace, with a zero record revision, or with an object
/// reference that is not an object revision.
pub fn validate_binding(source: &SearchSourceBinding) -> (r: Result<(), SearchError>)
    ensures
        match binding_fault(source@) {
            Some(f) => r matches Err(e) && e@ == f,
            None => r is Ok,
        },
{
    if !source.workspace_ref.has_kind("core.workspace") {
        return Err(SearchError::InvalidWorkspaceRef);
    }
    if source.source_record_revision == 0 {
        return Err(SearchError::InvalidSourceRecordRevision);
    }
    if let Some(rev) = &source.object_revision_ref {
        if !rev.has_kind("object.revision") {
            return Err(SearchError::InvalidObjectRevisionRef);
        }
    }
    Ok(())
}

/// The fields of a multi-value document, or the first invalid value.
pub open spec fn multi_value_spec(
    b: BindingView,
    domain: SearchDomain,
    key: Seq<char>,
    values: Seq<Seq<char>>,
    evidence: Seq<char>,
) -> Result<Seq<FieldView>, SearchFault> {
    match binding_fault(b) {
        Some(f) => Err(f),
        None => if values.len() == 0 {
            Err(SearchFault::InvalidText("search values"@))
        } else if exists|i: int| 0 <= i < values.len() && !canonical_text(#[trigger] values[i]) {
            Err(SearchFault::InvalidText("search value"@))
        } else {
            Ok(values.map_values(|v: Seq<char>| (domain, Some(key), v, evidence)))
        },
    }
}

fn multi_value_document(
    source: SearchSourceBinding,
    kind: SearchDocumentKind,
    domain: SearchDomain,
    key: &str,
    values: &[String],
    evidence_source: &str,
) -> (r: Result<SearchDocument, SearchError>)
    ensures
        match multi_value_spec(source@, domain, key@, values@.map_values(|v: String| v@), evidence_source@) {
            Ok(fs) => r matches Ok(d) && d@ == (source@, kind, fs),
            Err(f) => r matches Err(e) && e@ == f,
        },
{
    let ghost vs = values@.map_values(|v: String| v@);
    if let Err(e) = validate_binding(&source) {
        return Err(e);
    }
    if values.len() == 0 {
        return Err(SearchError::InvalidText("search values"));
    }
    let mut fields: Vec<SearchField> = Vec::new();
    let mut i: usize = 0;
    while i < values.len()
        invariant
            i <= values@.len(),
            values@.len() > 0,
            binding_fault(source@) is None,
            vs == values@.map_values(|v: String| v@),
            forall|j: int| 0 <= j < i ==> canonical_text(#[trigger] vs[j]),
            field_views(fields@) == vs.take(i as int).map_values(|v: Seq<char>| (domain, Some(key@), v, evidence_source@)),
        decreases values.len() - i,
    {
        assert(vs[i as int] == values@[i as int]@);
        if !is_canonical_text(values[i].as_str()) {
            assert(!canonical_text(vs[i as int]));
            return Err(SearchError::InvalidText("search value"));
        }
        let f = SearchField {
            domain,
            key: Some(owned(key)),
            value: values[i].clone(),
            evidence_source: owned(evidence_source),
        };
        let ghost before = field_views(fields@);
        fields.push(f);
        assert(field_views(fields@) =~= before.push((domain, Some(key@), vs[i as int], evidence_source@)));
        assert(vs.take(i as int + 1).map_values(|v: Seq<char>| (domain, Some(key@), v, evidence_source@))
            =~= vs.take(i as int).map_values(|v: Seq<char>| (domain, Some(key@), v, evidence_source@)).push(
            (domain, Some(key@), vs[i as int], evidence_source@),
        ));
        i = i + 1;
    }
    assert(vs.take(vs.len() as int) =~= vs);
    Ok(SearchDocument { source, kind, fields })
}

/// Build a source-symbol search document.
pub fn source_symbol_search_document(source: SearchSourceBinding, symbols: &[String]) -> (r: Result<
    SearchDocument,
    SearchError,
>)
    ensures
        match multi_value_spec(
            source@,
            SearchDomain::SourceSymbol,
            "symbol"@,
            symbols@.map_values(|v: String| v@),
            "source.symbol.adapter"@,
        ) {
            Ok(fs) => r matches Ok(d) && d@ == (source@, SearchDocumentKind::SourceSymbols, fs),
            Err(f) => r matches Err(e) && e@ == f,
        },
{
    multi_value_document(
        source,
        SearchDocumentKind::SourceSymbols,
        SearchDomain::SourceSymbol,
        "symbol",
        symbols,
        "source.symbol.adapter",
    )
}

/// Build a log search document.
pub fn log_search_document(source: SearchSourceBinding, values: &[String]) -> (r: Result<SearchDocument, SearchError>)
    ensures
        match multi_value_spec(source@, SearchDomain::Log, "log"@, values@.map_values(|v: String| v@), "log.adapter"@) {
            Ok(fs) => r matches Ok(d) && d@ == (source@, SearchDocumentKind::Log, fs),
            Err(f) => r matches Err(e) && e@ == f,
        },
{
    multi_value_document(source, SearchDocumentKind::Log, SearchDomain::Log, "log", values, "log.adapter")
}

/// Build an activity search document.
pub fn activity_search_document(source: SearchSourceBinding, values: &[String]) -> (r: Result<
    SearchDocument,
    SearchError,
>)
    ensures
        match multi_value_spec(
            source@,
            SearchDomain::Activity,
            "activity"@,
            values@.map_values(|v: String| v@),
            "activity.adapter"@,
        ) {
            Ok(fs) => r matches Ok(d) && d@ == (source@, SearchDocumentKind::Activity, fs),
            Err(f) => r matches Err(e) && e@ == f,
        },
{
    multi_value_document(source, SearchDocumentKind::Activity, SearchDomain::Activity, "activity", values, "activity.adapter")
}

/// Build an artifact search document.
pub fn artifact_search_document(source: SearchSourceBinding, values: &[String]) -> (r: Result<
    SearchDocument,
    SearchError,
>)
    ensures
        match multi_value_spec(
            source@,
            SearchDomain::Artifact,
            "artifact"@,
            values@.map_values(|v: String| v@),
            "artifact.adapter"@,
        ) {
            Ok(fs) => r matches Ok(d) && d@ == (source@, SearchDocumentKind::Artifact, fs),
            Err(f) => r matches Err(e) && e@ == f,
        },
{
    multi_value_document(source, SearchDocumentKind::Artifact, SearchDomain::Artifact, "artifact", values, "artifact.adapter")
}


/// The first failure among the first `n` metadata items.
pub open spec fn meta_fault(ms: Seq<MetaView>, n: int) -> Option<SearchFault>
    decreases n,
{
    if n <= 0 {
        None
    } else {
        match meta_fault(ms, n - 1) {
            Some(f) => Some(f),
            None => {
                let m = ms[n - 1];
                if !canonical_text(m.key) {
                    Some(SearchFault::InvalidText("metadata.key"@))
                } else if !canonical_text(m.value) {
                    Some(SearchFault::InvalidText("metadata.value"@))
                } else if !canonical_text(m.source) {
                    Some(SearchFault::InvalidText("metadata.source"@))
                } else if m.path is Some && !canonical_text(m.path->0) {
                    Some(SearchFault::InvalidText("metadata.path"@))
                } else {
                    None
                }
            },
        }
    }
}

/// The field of a metadata item: keyed `path:key` under a path, else `key`.
pub open spec fn meta_field(m: MetaView) -> FieldView {
    (
        SearchDomain::Metadata,
        Some(
            match m.path {
                Some(p) => p + ":"@ + m.key,
                None => m.key,
            },
        ),
        m.value,
        m.source,
    )
}

/// The fields of a filename and metadata document, or the first failure.
pub open spec fn filename_metadata_spec(b: BindingView, filename: Option<Seq<char>>, ms: Seq<MetaView>) -> Result<
    Seq<FieldView>,
    SearchFault,
> {
    match binding_fault(b) {
        Some(f) => Err(f),
        None => if filename is Some && !canonical_text(filename->0) {
            Err(SearchFault::InvalidText("filename"@))
        } else {
            match meta_fault(ms, ms.len() as int) {
                Some(f) => Err(f),
                None => {
                    let head: Seq<FieldView> = match filename {
                        Some(f) => seq![(SearchDomain::Filename, None, f, "caller.filename"@)],
                        None => Seq::empty(),
                    };
                    let fields = head + ms.map_values(|m: MetaView| meta_field(m));
                    if fields.len() == 0 {
                        Err(SearchFault::InvalidText("filename/metadata"@))
                    } else {
                        Ok(fields)
                    }
                },
            }
        },
    }
}

proof fn lemma_meta_fault_err(ms: Seq<MetaView>, i: int, k: int)
    requires
        0 <= i < k,
        meta_fault(ms, i) is None,
        meta_fault(ms, i + 1) is Some,
    ensures
        meta_fault(ms, k) == meta_fault(ms, i + 1),
    decreases k,
{
    if k > i + 1 {
        lemma_meta_fault_err(ms, i, k - 1);
    }
}

/// Build a filename and metadata search document over one exact source record.
pub fn filename_metadata_document(
    source: SearchSourceBinding,
    filename: Option<String>,
    metadata: &[SearchMetadata],
) -> (r: Result<SearchDocument, SearchError>)
    ensures
        match filename_metadata_spec(source@, opt_view(filename), meta_views(metadata@)) {
            Ok(fs) => r matches Ok(d) && d@ == (source@, SearchDocumentKind::ObjectMetadata, fs),
            Err(f) => r matches Err(e) && e@ == f,
        },
{
    let ghost ms = meta_views(metadata@);
    if let Err(e) = validate_binding(&source) {
        return Err(e);
    }
    let mut fields: Vec<SearchField> = Vec::new();
    let ghost fname = opt_view(filename);
    let ghost head: Seq<FieldView> = match opt_view(filename) {
        Some(f) => seq![(SearchDomain::Filename, None, f, "caller.filename"@)],
        None => Seq::empty(),
    };
    match filename {
        Some(f) => {
            if !is_canonical_text(f.as_str()) {
                return Err(SearchError::InvalidText("filename"));
            }
            fields.push(
                SearchField { domain: SearchDomain::Filename, key: None, value: f, evidence_source: owned("caller.filename") },
            );
        },
        None => {},
    }
    assert(field_views(fields@) =~= head);
    let n = metadata.len();
    let mut i: usize = 0;
    assert(ms.take(0).map_values(|m: MetaView| meta_field(m)) =~= Seq::<FieldView>::empty());
    assert(head + Seq::<FieldView>::empty() =~= head);
    while i < n
        invariant
            i <= n == metadata@.len(),
            ms == meta_views(metadata@),
            binding_fault(source@) is None,
            fname == opt_view(filename),
            fname is Some ==> canonical_text(fname->0),
            meta_fault(ms, i as int) is None,
            field_views(fields@) == head + ms.take(i as int).map_values(|m: MetaView| meta_field(m)),
        decreases n - i,
    {
        let m = &metadata[i];
        assert(ms[i as int] == m@);
        if !is_canonical_text(m.key.as_str()) {
            proof {
                lemma_meta_fault_err(ms, i as int, n as int);
            }
            return Err(SearchError::InvalidText("metadata.key"));
        }
        if !is_canonical_text(m.value.as_str()) {
            proof {
                lemma_meta_fault_err(ms, i as int, n as int);
            }
            return Err(SearchError::InvalidText("metadata.value"));
        }
        if !is_canonical_text(m.source.as_str()) {
            proof {
                lemma_meta_fault_err(ms, i as int, n as int);
            }
            return Err(SearchError::InvalidText("metadata.source"));
        }
        let key = match &m.path {
            Some(p) => {
                if !is_canonical_text(p.as_str()) {
                    proof {
                        lemma_meta_fault_err(ms, i as int, n as int);
                    }
                    return Err(SearchError::InvalidText("metadata.path"));
                }
                let mut k = p.clone();
                k.append(":");
                k.append(m.key.as_str());
                k
            },
            None => m.key.clone(),
        };
        let f = SearchField {
            domain: SearchDomain::Metadata,
            key: Some(key),
            value: m.value.clone(),
            evidence_source: m.source.clone(),
        };
        assert((f.domain, opt_view(f.key), f.value@, f.evidence_source@) == meta_field(ms[i as int]));
        let ghost before = field_views(fields@);
        fields.push(f);
        assert(field_views(fields@) =~= before.push(meta_field(ms[i as int])));
        assert(ms.take(i as int + 1).map_values(|m: MetaView| meta_field(m)) =~= ms.take(i as int).map_values(
            |m: MetaView| meta_field(m),
        ).push(meta_field(ms[i as int])));
        assert(head + ms.take(i as int + 1).map_values(|m: MetaView| meta_field(m)) =~= (head + ms.take(
            i as int,
        ).map_values(|m: MetaView| meta_field(m))).push(meta_field(ms[i as int])));
        i = i + 1;
    }
    assert(ms.take(n as int) =~= ms);
    if fields.len() == 0 {
        return Err(SearchError::InvalidText("filename/metadata"));
    }
    Ok(SearchDocument { source, kind: SearchDocumentKind::ObjectMetadata, fields })
}

/// Derived, rebuildable search index; it owns no canonical records.
pub struct SearchIndex {
    limits: SearchLimits,
    revision: u64,
    content_sha256: String,
    documents: Vec<SearchDocument>,
}

/// Views of documents.
pub open spec fn document_views(s: Seq<SearchDocument>) -> Seq<DocumentView> {
    s.map_values(|d: SearchDocument| d@)
}

impl SearchIndex {
    /// The limits the index was made with.
    pub closed spec fn limits_of(&self) -> SearchLimits {
        self.limits
    }

    /// The local index revision.
    pub closed spec fn revision_of(&self) -> u64 {
        self.revision
    }

    /// The content digest text.
    pub closed spec fn digest_of(&self) -> Seq<char> {
        self.content_sha256@
    }

    /// The retained documents.
    pub closed spec fn documents_of(&self) -> Seq<DocumentView> {
        document_views(self.documents@)
    }

    /// Create an empty bounded search index.
    pub fn new(limits: SearchLimits) -> (r: Result<Self, SearchError>)
        ensures
            !search_limits_valid(limits) ==> (r matches Err(e) && e@ == SearchFault::InvalidLimits),
            search_limits_valid(limits) ==> (r matches Ok(ix) && ix.limits_of() == limits && ix.revision_of() == 0
                && ix.digest_of() == sha256_hex_of(Seq::empty()) && ix.documents_of() == Seq::<DocumentView>::empty()),
    {
        if limits.max_documents == 0 || limits.max_fields_per_document == 0 || limits.max_field_bytes == 0
            || limits.max_query_bytes == 0 || limits.max_results == 0 {
            return Err(SearchError::InvalidLimits);
        }
        let empty: Vec<u8> = Vec::new();
        let ix = SearchIndex {
            limits,
            revision: 0,
            content_sha256: sha256_hex(empty.as_slice()),
            documents: Vec::new(),
        };
        assert(empty@ =~= Seq::<u8>::empty());
        assert(document_views(ix.documents@) =~= Seq::<DocumentView>::empty());
        Ok(ix)
    }

    /// The current derived index identity.
    pub fn snapshot(&self) -> (r: SearchIndexRevision)
        ensures
            r.revision == self.revision_of(),
            r.content_sha256@ == self.digest_of(),
            r.document_count == self.documents_of().len(),
    {
        SearchIndexRevision {
            revision: self.revision,
            content_sha256: self.content_sha256.clone(),
            document_count: self.documents.len(),
        }
    }

    /// Replace all derived content from exact source-bound documents.
    ///
    /// Input order is not index identity: the index keeps the documents ordered by identity text,
    /// each with its fields in canonical order, and digests that content. It fails closed for too
    /// many documents, the first malformed document, a repeated document identity, or a revision
    /// that cannot advance; on failure the index is unchanged.
    pub fn rebuild(&mut self, documents: &[SearchDocument]) -> (r: Result<SearchIndexRevision, SearchError>)
        ensures
            final(self).limits_of() == old(self).limits_of(),
            match crate::search_index::rebuild_spec(document_views(documents@), old(self).limits_of()) {
                Err(f) => r matches Err(e) && e@ == f && final(self).revision_of() == old(self).revision_of()
                    && final(self).documents_of() == old(self).documents_of() && final(self).digest_of()
                    == old(self).digest_of(),
                Ok(ds) => if old(self).revision_of() == u64::MAX {
                    r matches Err(e) && e@ == SearchFault::RevisionOverflow && final(self).revision_of()
                        == old(self).revision_of() && final(self).documents_of() == old(self).documents_of()
                        && final(self).digest_of() == old(self).digest_of()
                } else {
                    &&& final(self).revision_of() == old(self).revision_of() + 1
                    &&& final(self).documents_of() == ds
                    &&& final(self).digest_of() == sha256_hex_of(crate::search_index::content_record(ds))
                    &&& r matches Ok(snap) && snap.revision == final(self).revision_of() && snap.content_sha256@
                        == final(self).digest_of() && snap.document_count == ds.len()
                },
            },
    {
        assert(document_views(documents@) =~= documents@.map_values(|d: SearchDocument| d@));
        let (docs, digest) = crate::search_index::rebuild_content(documents, self.limits)?;
        if self.revision == u64::MAX {
            return Err(SearchError::RevisionOverflow);
        }
        self.revision = self.revision + 1;
        self.documents = docs;
        self.content_sha256 = digest;
        assert(document_views(self.documents@) =~= self.documents@.map_values(|d: SearchDocument| d@));
        Ok(self.snapshot())
    }

    /// Search one exact workspace against the current index revision.
    ///
    /// A field matches when its domain passes the filter and every lowercase query word occurs in
    /// its lowercase key-and-value text; hits carry their exact binding, the matching fields and
    /// their count, highest score first and then by order text, at most `limit` of them. Fails
    /// closed for a malformed workspace, result limit or query text.
    pub fn query(&self, q: &SearchQuery) -> (r: Result<SearchResponse, SearchError>)
        ensures
            match crate::search_index::query_spec(self.documents_of(), self.limits_of(), q@) {
                Ok(hs) => r matches Ok(resp) && hit_views(resp.hits@) == hs && resp.index.revision
                    == self.revision_of() && resp.index.content_sha256@ == self.digest_of()
                    && resp.index.document_count == self.documents_of().len(),
                Err(f) => r matches Err(e) && e@ == f,
            },
    {
        assert(document_views(self.documents@) =~= self.documents@.map_values(|d: SearchDocument| d@));
        let hits = crate::search_index::search_documents(&self.documents, self.limits, q)?;
        Ok(SearchResponse { index: self.snapshot(), hits })
    }

    /// Delete all derived index content without touching any canonical source.
    pub fn clear(&mut self) -> (r: Result<SearchIndexRevision, SearchError>)
        ensures
            old(self).revision_of() == u64::MAX ==> (r matches Err(e) && e@ == SearchFault::RevisionOverflow),
            old(self).revision_of() == u64::MAX ==> final(self).revision_of() == old(self).revision_of(),
            old(self).revision_of() == u64::MAX ==> final(self).documents_of() == old(self).documents_of(),
            old(self).revision_of() < u64::MAX ==> final(self).revision_of() == old(self).revision_of() + 1,
            old(self).revision_of() < u64::MAX ==> final(self).documents_of() == Seq::<DocumentView>::empty(),
            old(self).revision_of() < u64::MAX ==> final(self).digest_of() == sha256_hex_of(Seq::empty()),
            old(self).revision_of() < u64::MAX ==> (r matches Ok(s) && s.revision == final(self).revision_of()
                && s.document_count == 0 && s.content_sha256@ == final(self).digest_of()),
            final(self).limits_of() == old(self).limits_of(),
    {
        if self.revision == u64::MAX {
            return Err(SearchError::RevisionOverflow);
        }
        self.revision = self.revision + 1;
        self.documents.clear();
        let empty: Vec<u8> = Vec::new();
        assert(empty@ =~= Seq::<u8>::empty());
        self.content_sha256 = sha256_hex(empty.as_slice());
        assert(document_views(self.documents@) =~= Seq::<DocumentView>::empty());
        Ok(self.snapshot())
    }
}


/// The key of an anchored text field: its page, else its byte start.
pub open spec fn anchor_key(a: crate::document::AnchorView) -> Option<Seq<char>> {
    match a.page {
        Some(p) => Some("page:"@ + decimal(p as nat)),
        None => match a.start {
            Some(s) => Some("byte:"@ + decimal(s as nat)),
            None => None,
        },
    }
}

/// The first failure among the first `n` anchored texts: an anchor on another revision, or
/// non-canonical text.
pub open spec fn span_fault(spans: Seq<(Seq<char>, crate::document::AnchorView)>, expected: (Seq<char>, Seq<char>), n: int) -> Option<
    SearchFault,
>
    decreases n,
{
    if n <= 0 {
        None
    } else {
        match span_fault(spans, expected, n - 1) {
            Some(f) => Some(f),
            None => if spans[n - 1].1.revision != expected {
                Some(SearchFault::AnchorMismatch)
            } else if !canonical_text(spans[n - 1].0) {
                Some(SearchFault::InvalidText("document text"@))
            } else {
                None
            },
        }
    }
}

/// The field of an anchored text.
pub open spec fn span_field(s: (Seq<char>, crate::document::AnchorView)) -> FieldView {
    (SearchDomain::DocumentText, anchor_key(s.1), s.0, "b03.anchored_text"@)
}

/// The fields of an anchored-text document, or the first failure.
pub open spec fn document_text_spec(b: BindingView, spans: Seq<(Seq<char>, crate::document::AnchorView)>) -> Result<
    Seq<FieldView>,
    SearchFault,
> {
    match binding_fault(b) {
        Some(f) => Err(f),
        None => match b.object_revision {
            None => Err(SearchFault::InvalidObjectRevisionRef),
            Some(expected) => if spans.len() == 0 {
                Err(SearchFault::InvalidText("document text"@))
            } else {
                match span_fault(spans, expected, spans.len() as int) {
                    Some(f) => Err(f),
                    None => Ok(spans.map_values(|s: (Seq<char>, crate::document::AnchorView)| span_field(s))),
                }
            },
        },
    }
}

proof fn lemma_span_fault_err(spans: Seq<(Seq<char>, crate::document::AnchorView)>, expected: (Seq<char>, Seq<char>), i: int, k: int)
    requires
        0 <= i < k,
        span_fault(spans, expected, i) is None,
        span_fault(spans, expected, i + 1) is Some,
    ensures
        span_fault(spans, expected, k) == span_fault(spans, expected, i + 1),
    decreases k,
{
    if k > i + 1 {
        lemma_span_fault_err(spans, expected, i, k - 1);
    }
}

/// Build an anchored document-text search document; every anchor must bind the exact object
/// revision of the source binding.
pub fn document_text_search_document(source: SearchSourceBinding, spans: &[AnchoredText]) -> (r: Result<
    SearchDocument,
    SearchError,
>)
    ensures
        match document_text_spec(source@, spans@.map_values(|x: AnchoredText| x@)) {
            Ok(fs) => r matches Ok(d) && d@ == (source@, SearchDocumentKind::DocumentText, fs),
            Err(f) => r matches Err(e) && e@ == f,
        },
{
    let ghost sv = spans@.map_values(|x: AnchoredText| x@);
    if let Err(e) = validate_binding(&source) {
        return Err(e);
    }
    let expected = match &source.object_revision_ref {
        None => {
            return Err(SearchError::InvalidObjectRevisionRef);
        },
        Some(x) => x.duplicate(),
    };
    if spans.len() == 0 {
        return Err(SearchError::InvalidText("document text"));
    }
    let n = spans.len();
    let mut fields: Vec<SearchField> = Vec::new();
    let mut i: usize = 0;
    assert(field_views(fields@) =~= sv.take(0).map_values(|s: (Seq<char>, crate::document::AnchorView)| span_field(s)));
    while i < n
        invariant
            i <= n == spans@.len(),
            n > 0,
            sv == spans@.map_values(|x: AnchoredText| x@),
            binding_fault(source@) is None,
            source@.object_revision == Some(expected@),
            span_fault(sv, expected@, i as int) is None,
            field_views(fields@) == sv.take(i as int).map_values(|s: (Seq<char>, crate::document::AnchorView)| span_field(s)),
        decreases n - i,
    {
        let sp = &spans[i];
        assert(sv[i as int] == sp@);
        if !sp.anchor.source_revision_ref.same_as(&expected) {
            proof {
                lemma_span_fault_err(sv, expected@, i as int, n as int);
            }
            return Err(SearchError::AnchorMismatch);
        }
        if !is_canonical_text(sp.text.as_str()) {
            proof {
                lemma_span_fault_err(sv, expected@, i as int, n as int);
            }
            return Err(SearchError::InvalidText("document text"));
        }
        let key = match sp.anchor.page {
            Some(p) => Some(numbered_message("page:", p as u64, "")),
            None => match sp.anchor.byte_start {
                Some(st) => Some(numbered_message("byte:", st, "")),
                None => None,
            },
        };
        proof {
            reveal_strlit("");
            assert(forall|x: Seq<char>| x + ""@ =~= x);
        }
        let f = SearchField {
            domain: SearchDomain::DocumentText,
            key,
            value: sp.text.clone(),
            evidence_source: owned("b03.anchored_text"),
        };
        assert((f.domain, opt_view(f.key), f.value@, f.evidence_source@) == span_field(sv[i as int]));
        let ghost before = field_views(fields@);
        fields.push(f);
        assert(field_views(fields@) =~= before.push(span_field(sv[i as int])));
        assert(sv.take(i as int + 1).map_values(|s: (Seq<char>, crate::document::AnchorView)| span_field(s))
            =~= sv.take(i as int).map_values(|s: (Seq<char>, crate::document::AnchorView)| span_field(s)).push(
            span_field(sv[i as int]),
        ));
        i = i + 1;
    }
    assert(sv.take(n as int) =~= sv);
    Ok(SearchDocument { source, kind: SearchDocumentKind::DocumentText, fields })
}

} // verus!
