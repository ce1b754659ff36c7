//! Index content: document validation, canonical field and document order, document identity,
//! the content digest, query terms, field matching and hit order.
use vstd::prelude::*;
use crate::archive_policy::{push_le, push_text_bytes};
use crate::bytes::le_bytes;
use crate::mediatek_bundle::{text_less, text_lt};
use crate::partition_map::opt_view;
use crate::search::{
    BindingView, DocumentView, FieldView, SearchDocument, SearchDocumentKind, SearchDomain, SearchError, SearchFault,
    SearchField, SearchLimits, SearchSourceBinding, canonical_text, domain_token, field_views, is_canonical_text,
    kind_token, binding_fault, validate_binding,
};
use crate::text::{decimal, push_decimal};
use crate::text_ops::{is_white, utf8_len};

verus! {

/// Insert `x` before the first element that it orders before.
pub open spec fn insert_by<T>(s: Seq<T>, x: T, lt: spec_fn(T, T) -> bool) -> Seq<T>
    decreases s.len(),
{
    if s.len() == 0 {
        seq![x]
    } else if lt(x, s[0]) {
        seq![x] + s
    } else {
        seq![s[0]] + insert_by(s.drop_first(), x, lt)
    }
}

/// Stable insertion sort by the strict order `lt`.
pub open spec fn sort_by_order<T>(s: Seq<T>, lt: spec_fn(T, T) -> bool) -> Seq<T>
    decreases s.len(),
{
    if s.len() == 0 {
        Seq::empty()
    } else {
        insert_by(sort_by_order(s.drop_last(), lt), s.last(), lt)
    }
}

proof fn lemma_insert_by_at<T>(s: Seq<T>, x: T, lt: spec_fn(T, T) -> bool, p: int)
    requires
        0 <= p <= s.len(),
        forall|k: int| 0 <= k < p ==> !lt(x, #[trigger] s[k]),
        p < s.len() ==> lt(x, s[p]),
    ensures
        insert_by(s, x, lt) == s.insert(p, x),
    decreases s.len(),
{
    if s.len() == 0 {
        assert(s.insert(p, x) =~= seq![x]);
    } else if p == 0 {
        assert(s.insert(0, x) =~= seq![x] + s);
    } else {
        assert forall|k: int| 0 <= k < p - 1 implies !lt(x, #[trigger] s.drop_first()[k]) by {
            assert(s.drop_first()[k] == s[k + 1]);
        }
        lemma_insert_by_at(s.drop_first(), x, lt, p - 1);
        assert(s.insert(p, x) =~= seq![s[0]] + s.drop_first().insert(p - 1, x));
    }
}

/// Declaration order of domains.
pub open spec fn domain_rank(d: SearchDomain) -> int {
    match d {
        SearchDomain::Filename => 0,
        SearchDomain::Metadata => 1,
        SearchDomain::DocumentText => 2,
        SearchDomain::SourceSymbol => 3,
        SearchDomain::Log => 4,
        SearchDomain::Activity => 5,
        SearchDomain::Artifact => 6,
    }
}

fn rank_of(d: SearchDomain) -> (r: u8)
    ensures
        r == domain_rank(d),
{
    match d {
        SearchDomain::Filename => 0,
        SearchDomain::Metadata => 1,
        SearchDomain::DocumentText => 2,
        SearchDomain::SourceSymbol => 3,
        SearchDomain::Log => 4,
        SearchDomain::Activity => 5,
        SearchDomain::Artifact => 6,
    }
}

/// An absent key orders before any present key; present keys in text order.
pub open spec fn key_lt(a: Option<Seq<char>>, b: Option<Seq<char>>) -> bool {
    match (a, b) {
        (None, Some(_)) => true,
        (Some(x), Some(y)) => text_lt(x, y),
        _ => false,
    }
}

/// Canonical field order: domain, then key, value and evidence source.
pub open spec fn field_lt(a: FieldView, b: FieldView) -> bool {
    ||| domain_rank(a.0) < domain_rank(b.0)
    ||| domain_rank(a.0) == domain_rank(b.0) && key_lt(a.1, b.1)
    ||| domain_rank(a.0) == domain_rank(b.0) && a.1 == b.1 && text_lt(a.2, b.2)
    ||| domain_rank(a.0) == domain_rank(b.0) && a.1 == b.1 && a.2 == b.2 && text_lt(a.3, b.3)
}

/// The canonical field order as a relation.
pub open spec fn field_order() -> spec_fn(FieldView, FieldView) -> bool {
    |a: FieldView, b: FieldView| field_lt(a, b)
}

fn key_less(a: &Option<String>, b: &Option<String>) -> (r: bool)
    ensures
        r == key_lt(opt_view(*a), opt_view(*b)),
{
    match (a, b) {
        (None, Some(_)) => true,
        (Some(x), Some(y)) => text_less(x, y),
        _ => false,
    }
}

fn key_same(a: &Option<String>, b: &Option<String>) -> (r: bool)
    ensures
        r == (opt_view(*a) == opt_view(*b)),
{
    match (a, b) {
        (None, None) => true,
        (Some(x), Some(y)) => *x == *y,
        _ => false,
    }
}

proof fn lemma_text_lt_irrefl(a: Seq<char>)
    ensures
        !text_lt(a, a),
    decreases a.len(),
{
    if a.len() > 0 {
        lemma_text_lt_irrefl(a.drop_first());
    }
}

fn field_less(a: &SearchField, b: &SearchField) -> (r: bool)
    ensures
        r == field_lt(field_views(seq![*a])[0], field_views(seq![*b])[0]),
{
    let ra = rank_of(a.domain);
    let rb = rank_of(b.domain);
    if ra != rb {
        return ra < rb;
    }
    if !key_same(&a.key, &b.key) {
        return key_less(&a.key, &b.key);
    }
    proof {
        lemma_text_lt_irrefl(a.value@);
        if a.key is Some {
            lemma_text_lt_irrefl(a.key->0@);
        }
    }
    if a.value == b.value {
        text_less(&a.evidence_source, &b.evidence_source)
    } else {
        text_less(&a.value, &b.value)
    }
}

fn copy_field(f: &SearchField) -> (r: SearchField)
    ensures
        field_views(seq![r]) == field_views(seq![*f]),
{
    let r = SearchField {
        domain: f.domain,
        key: f.key.clone(),
        value: f.value.clone(),
        evidence_source: f.evidence_source.clone(),
    };
    assert(field_views(seq![r]) =~= field_views(seq![*f]));
    r
}

/// The fields in canonical order (stable).
fn canonical_fields(v: &Vec<SearchField>) -> (r: Vec<SearchField>)
    ensures
        field_views(r@) == sort_by_order(field_views(v@), field_order()),
{
    let ghost vv = field_views(v@);
    let mut r: Vec<SearchField> = Vec::new();
    let n = v.len();
    let mut i: usize = 0;
    assert(vv.take(0) =~= Seq::<FieldView>::empty());
    assert(field_views(r@) =~= Seq::<FieldView>::empty());
    while i < n
        invariant
            n == v@.len(),
            vv == field_views(v@),
            i <= n,
            field_views(r@) == sort_by_order(vv.take(i as int), field_order()),
        decreases n - i,
    {
        let x = copy_field(&v[i]);
        let ghost sv = field_views(r@);
        let ghost xv = field_views(seq![x])[0];
        assert(xv == vv[i as int]);
        let mut p: usize = 0;
        let mut found = false;
        while p < r.len() && !found
            invariant
                p <= r@.len(),
                sv == field_views(r@),
                xv == field_views(seq![x])[0],
                forall|k: int| 0 <= k < p ==> !field_order()(xv, #[trigger] sv[k]),
                found ==> p < r@.len() && field_order()(xv, sv[p as int]),
            decreases r@.len() - p + (if found { 0int } else { 1int }),
        {
            assert(sv[p as int] == field_views(seq![r@[p as int]])[0]);
            if field_less(&x, &r[p]) {
                found = true;
            } else {
                p = p + 1;
            }
        }
        proof {
            lemma_insert_by_at(sv, xv, field_order(), p as int);
        }
        r.insert(p, x);
        assert(field_views(r@) =~= sv.insert(p as int, xv));
        assert(vv.take(i as int + 1).drop_last() =~= vv.take(i as int));
        i = i + 1;
    }
    assert(vv.take(n as int) =~= vv);
    r
}

/// The failure of one field, if any: an oversized value, then non-canonical value, evidence
/// source and key.
pub open spec fn field_fault(f: FieldView, limits: SearchLimits) -> Option<SearchFault> {
    if utf8_len(f.2) > limits.max_field_bytes {
        Some(SearchFault::FieldTooLarge)
    } else if !canonical_text(f.2) {
        Some(SearchFault::InvalidText("field value"@))
    } else if !canonical_text(f.3) {
        Some(SearchFault::InvalidText("field evidence_source"@))
    } else {
        match f.1 {
            Some(k) => if !canonical_text(k) {
                Some(SearchFault::InvalidText("field key"@))
            } else {
                None
            },
            None => None,
        }
    }
}

/// The first failure among the first `n` fields.
pub open spec fn fields_fault(fs: Seq<FieldView>, n: int, limits: SearchLimits) -> Option<SearchFault>
    decreases n,
{
    if n <= 0 {
        None
    } else {
        match fields_fault(fs, n - 1, limits) {
            Some(f) => Some(f),
            None => field_fault(fs[n - 1], limits),
        }
    }
}

/// The failure of one document, if any: its binding, no fields, too many fields, then the first
/// failing field.
pub open spec fn document_fault(d: DocumentView, limits: SearchLimits) -> Option<SearchFault> {
    match binding_fault(d.0) {
        Some(f) => Some(f),
        None => if d.2.len() == 0 {
            Some(SearchFault::InvalidText("document fields"@))
        } else if d.2.len() > limits.max_fields_per_document {
            Some(SearchFault::TooManyFields)
        } else {
            fields_fault(d.2, d.2.len() as int, limits)
        },
    }
}

/// The first failure among the first `n` documents.
pub open spec fn documents_fault(ds: Seq<DocumentView>, n: int, limits: SearchLimits) -> Option<SearchFault>
    decreases n,
{
    if n <= 0 {
        None
    } else {
        match documents_fault(ds, n - 1, limits) {
            Some(f) => Some(f),
            None => document_fault(ds[n - 1], limits),
        }
    }
}

fn utf8_size(s: &String) -> (r: usize)
    ensures
        r == utf8_len(s@),
{
    s.as_str().as_bytes().len()
}

fn validate_field(f: &SearchField, limits: SearchLimits) -> (r: Result<(), SearchError>)
    ensures
        match field_fault(field_views(seq![*f])[0], limits) {
            Some(x) => r matches Err(e) && e@ == x,
            None => r is Ok,
        },
{
    if utf8_size(&f.value) > limits.max_field_bytes {
        return Err(SearchError::FieldTooLarge);
    }
    if !is_canonical_text(f.value.as_str()) {
        return Err(SearchError::InvalidText("field value"));
    }
    if !is_canonical_text(f.evidence_source.as_str()) {
        return Err(SearchError::InvalidText("field evidence_source"));
    }
    match &f.key {
        Some(k) => {
            if !is_canonical_text(k.as_str()) {
                return Err(SearchError::InvalidText("field key"));
            }
        },
        None => {},
    }
    Ok(())
}

proof fn lemma_fields_fault_err(fs: Seq<FieldView>, i: int, k: int, limits: SearchLimits)
    requires
        0 <= i < k,
        fields_fault(fs, i, limits) is None,
        fields_fault(fs, i + 1, limits) is Some,
    ensures
        fields_fault(fs, k, limits) == fields_fault(fs, i + 1, limits),
    decreases k,
{
    if k > i + 1 {
        lemma_fields_fault_err(fs, i, k - 1, limits);
    }
}

/// Validate one document against the limits.
pub fn validate_document(d: &SearchDocument, limits: SearchLimits) -> (r: Result<(), SearchError>)
    ensures
        match document_fault(d@, limits) {
            Some(x) => r matches Err(e) && e@ == x,
            None => r is Ok,
        },
{
    validate_binding(&d.source)?;
    if d.fields.len() == 0 {
        return Err(SearchError::InvalidText("document fields"));
    }
    if d.fields.len() > limits.max_fields_per_document {
        return Err(SearchError::TooManyFields);
    }
    let ghost fs = field_views(d.fields@);
    let n = d.fields.len();
    let mut i: usize = 0;
    while i < n
        invariant
            i <= n == d.fields@.len(),
            fs == field_views(d.fields@),
            fields_fault(fs, i as int, limits) is None,
            binding_fault(d@.0) is None,
            0 < n <= limits.max_fields_per_document,
        decreases n - i,
    {
        assert(field_views(seq![d.fields@[i as int]])[0] == fs[i as int]);
        assert(fields_fault(fs, i as int + 1, limits) == field_fault(fs[i as int], limits));
        if let Err(e) = validate_field(&d.fields[i], limits) {
            proof {
                lemma_fields_fault_err(fs, i as int, n as int, limits);
            }
            return Err(e);
        }
        i = i + 1;
    }
    Ok(())
}

/// An optional serialized reference, empty when absent.
pub open spec fn key_or_empty(k: Option<Seq<char>>) -> Seq<char> {
    match k {
        Some(t) => t,
        None => Seq::empty(),
    }
}

/// Identity text of a document: workspace, source, record revision, object revision and kind.
pub open spec fn document_key(b: BindingView, kind: SearchDocumentKind) -> Seq<char> {
    b.workspace_key + "|"@ + b.source_key + "|"@ + decimal(b.revision as nat) + "|"@ + key_or_empty(b.object_key)
        + "|"@ + kind_token(kind)
}

/// Order text of a hit: source, record revision, object revision and kind.
pub open spec fn hit_key(b: BindingView, kind: SearchDocumentKind) -> Seq<char> {
    b.source_key + "|"@ + decimal(b.revision as nat) + "|"@ + key_or_empty(b.object_key) + "|"@ + kind_token(kind)
}

fn append_str(s: &mut String, t: &str)
    ensures
        final(s)@ == old(s)@ + t@,
{
    s.append(t);
}

/// The order text of a hit for `b` and `kind`.
pub fn hit_key_text(b: &SearchSourceBinding, kind: SearchDocumentKind) -> (r: String)
    ensures
        r@ == hit_key(b@, kind),
{
    let mut s = b.source_key.clone();
    append_str(&mut s, "|");
    push_decimal(&mut s, b.source_record_revision);
    append_str(&mut s, "|");
    match &b.object_revision_key {
        Some(k) => append_str(&mut s, k.as_str()),
        None => {},
    }
    append_str(&mut s, "|");
    append_str(&mut s, kind.as_str());
    proof {
        reveal_strlit("|");
        assert(Seq::<char>::empty() + Seq::<char>::empty() =~= Seq::<char>::empty());
    }
    assert(s@ =~= hit_key(b@, kind));
    s
}

/// The identity text of a document with binding `b` and `kind`.
pub fn document_key_text(b: &SearchSourceBinding, kind: SearchDocumentKind) -> (r: String)
    ensures
        r@ == document_key(b@, kind),
{
    let mut s = b.workspace_key.clone();
    append_str(&mut s, "|");
    let h = hit_key_text(b, kind);
    append_str(&mut s, h.as_str());
    assert(s@ =~= document_key(b@, kind));
    s
}

/// Digest record of a text: its UTF-8 length as eight little-endian bytes, then its bytes.
pub open spec fn text_record(t: Seq<char>) -> Seq<u8> {
    le_bytes(utf8_len(t) as int, 8) + vstd::utf8::encode_utf8(t)
}

/// Digest record of an optional text: a zero byte when absent, else a one byte and the text.
pub open spec fn opt_record(k: Option<Seq<char>>) -> Seq<u8> {
    match k {
        Some(t) => seq![1u8] + text_record(t),
        None => seq![0u8],
    }
}

/// Digest record of a field.
pub open spec fn field_record(f: FieldView) -> Seq<u8> {
    text_record(domain_token(f.0)) + opt_record(f.1) + text_record(f.2) + text_record(f.3)
}

/// Digest records of fields, in order.
pub open spec fn fields_record(fs: Seq<FieldView>) -> Seq<u8>
    decreases fs.len(),
{
    if fs.len() == 0 {
        Seq::empty()
    } else {
        fields_record(fs.drop_last()) + field_record(fs.last())
    }
}

/// Digest record of a document: serialized workspace and source, record revision, optional
/// object revision, kind, field count and fields.
pub open spec fn document_record(d: DocumentView) -> Seq<u8> {
    text_record(d.0.workspace_key) + text_record(d.0.source_key) + le_bytes(d.0.revision as int, 8) + opt_record(
        d.0.object_key,
    ) + text_record(kind_token(d.1)) + le_bytes(d.2.len() as int, 8) + fields_record(d.2)
}

/// Digest records of documents, in order.
pub open spec fn documents_record(ds: Seq<DocumentView>) -> Seq<u8>
    decreases ds.len(),
{
    if ds.len() == 0 {
        Seq::empty()
    } else {
        documents_record(ds.drop_last()) + document_record(ds.last())
    }
}

/// The digested content of an index: the document count, then each document.
pub open spec fn content_record(ds: Seq<DocumentView>) -> Seq<u8> {
    le_bytes(ds.len() as int, 8) + documents_record(ds)
}

fn push_text_record(out: &mut Vec<u8>, t: &str)
    ensures
        final(out)@ == old(out)@ + text_record(t@),
{
    let n = t.as_bytes().len();
    push_le(out, n as u64, 8);
    push_text_bytes(out, t);
    assert(final(out)@ =~= old(out)@ + text_record(t@));
}

fn push_opt_record(out: &mut Vec<u8>, k: &Option<String>)
    ensures
        final(out)@ == old(out)@ + opt_record(opt_view(*k)),
{
    match k {
        Some(t) => {
            out.push(1u8);
            push_text_record(out, t.as_str());
        },
        None => {
            out.push(0u8);
        },
    }
    assert(final(out)@ =~= old(out)@ + opt_record(opt_view(*k)));
}

fn push_document_record(out: &mut Vec<u8>, d: &SearchDocument)
    ensures
        final(out)@ == old(out)@ + document_record(d@),
{
    let ghost start = out@;
    push_text_record(out, d.source.workspace_key.as_str());
    push_text_record(out, d.source.source_key.as_str());
    push_le(out, d.source.source_record_revision, 8);
    push_opt_record(out, &d.source.object_revision_key);
    push_text_record(out, d.kind.as_str());
    push_le(out, d.fields.len() as u64, 8);
    let ghost head = out@;
    let ghost fs = field_views(d.fields@);
    let n = d.fields.len();
    let mut i: usize = 0;
    assert(fs.take(0) =~= Seq::<FieldView>::empty());
    assert(head =~= head + fields_record(fs.take(0)));
    while i < n
        invariant
            i <= n == d.fields@.len(),
            fs == field_views(d.fields@),
            out@ == head + fields_record(fs.take(i as int)),
        decreases n - i,
    {
        let f = &d.fields[i];
        assert(fs[i as int] == (f.domain, opt_view(f.key), f.value@, f.evidence_source@));
        push_text_record(out, f.domain.as_str());
        push_opt_record(out, &f.key);
        push_text_record(out, f.value.as_str());
        push_text_record(out, f.evidence_source.as_str());
        assert(fs.take(i as int + 1).drop_last() =~= fs.take(i as int));
        assert(out@ =~= head + fields_record(fs.take(i as int + 1)));
        i = i + 1;
    }
    assert(fs.take(n as int) =~= fs);
    assert(final(out)@ =~= start + document_record(d@));
}

/// Documents whose identity texts coincide.
pub open spec fn has_duplicate(ds: Seq<DocumentView>) -> bool {
    exists|i: int, j: int|
        0 <= i < j < ds.len() && #[trigger] document_key(ds[i].0, ds[i].1) == #[trigger] document_key(ds[j].0, ds[j].1)
}

/// A document with its fields in canonical order.
pub open spec fn canonical_document(d: DocumentView) -> DocumentView {
    (d.0, d.1, sort_by_order(d.2, field_order()))
}

/// Documents ordered by identity text.
pub open spec fn document_order() -> spec_fn(DocumentView, DocumentView) -> bool {
    |a: DocumentView, b: DocumentView| text_lt(document_key(a.0, a.1), document_key(b.0, b.1))
}

/// The canonical content of a rebuild from `ds`, or the first failure: too many documents, the
/// first invalid document, then a repeated document identity.
pub open spec fn rebuild_spec(ds: Seq<DocumentView>, limits: SearchLimits) -> Result<Seq<DocumentView>, SearchFault> {
    if ds.len() > limits.max_documents {
        Err(SearchFault::TooManyDocuments)
    } else {
        match documents_fault(ds, ds.len() as int, limits) {
            Some(f) => Err(f),
            None => if has_duplicate(ds) {
                Err(SearchFault::DuplicateDocument)
            } else {
                Ok(sort_by_order(ds.map_values(|d: DocumentView| canonical_document(d)), document_order()))
            },
        }
    }
}

proof fn lemma_documents_fault_err(ds: Seq<DocumentView>, i: int, k: int, limits: SearchLimits)
    requires
        0 <= i < k,
        documents_fault(ds, i, limits) is None,
        documents_fault(ds, i + 1, limits) is Some,
    ensures
        documents_fault(ds, k, limits) == documents_fault(ds, i + 1, limits),
    decreases k,
{
    if k > i + 1 {
        lemma_documents_fault_err(ds, i, k - 1, limits);
    }
}

/// The canonical documents of a rebuild and the digest of their content.
pub fn rebuild_content(documents: &[SearchDocument], limits: SearchLimits) -> (r: Result<
    (Vec<SearchDocument>, String),
    SearchError,
>)
    ensures
        match rebuild_spec(documents@.map_values(|d: SearchDocument| d@), limits) {
            Ok(ds) => r matches Ok(x) && x.0@.map_values(|d: SearchDocument| d@) == ds && x.1@
                == crate::digest::sha256_hex_of(content_record(ds)),
            Err(f) => r matches Err(e) && e@ == f,
        },
{
    let ghost ds = documents@.map_values(|d: SearchDocument| d@);
    let n = documents.len();
    if n > limits.max_documents {
        return Err(SearchError::TooManyDocuments);
    }
    let mut i: usize = 0;
    while i < n
        invariant
            i <= n == documents@.len(),
            ds == documents@.map_values(|d: SearchDocument| d@),
            documents_fault(ds, i as int, limits) is None,
            n <= limits.max_documents,
        decreases n - i,
    {
        assert(ds[i as int] == documents@[i as int]@);
        assert(documents_fault(ds, i as int + 1, limits) == document_fault(ds[i as int], limits));
        if let Err(e) = validate_document(&documents[i], limits) {
            proof {
                lemma_documents_fault_err(ds, i as int, n as int, limits);
            }
            return Err(e);
        }
        i = i + 1;
    }
    let mut keys: Vec<String> = Vec::new();
    let mut k: usize = 0;
    while k < n
        invariant
            k <= n == documents@.len(),
            ds == documents@.map_values(|d: SearchDocument| d@),
            keys@.len() == k,
            forall|a: int| 0 <= a < k ==> (#[trigger] keys@[a])@ == document_key(ds[a].0, ds[a].1),
            n <= limits.max_documents,
            documents_fault(ds, n as int, limits) is None,
        decreases n - k,
    {
        let key = document_key_text(&documents[k].source, documents[k].kind);
        assert(ds[k as int] == documents@[k as int]@);
        keys.push(key);
        k = k + 1;
    }
    let mut j: usize = 0;
    while j < n
        invariant
            j <= n == documents@.len(),
            ds == documents@.map_values(|d: SearchDocument| d@),
            n <= limits.max_documents,
            documents_fault(ds, n as int, limits) is None,
            keys@.len() == n,
            forall|a: int| 0 <= a < n ==> (#[trigger] keys@[a])@ == document_key(ds[a].0, ds[a].1),
            forall|a: int, b: int| 0 <= a < b < j ==> document_key(ds[a].0, ds[a].1) != document_key(ds[b].0, ds[b].1),
        decreases n - j,
    {
        let mut a: usize = 0;
        while a < j
            invariant
                a <= j < n,
                n == documents@.len(),
                ds == documents@.map_values(|d: SearchDocument| d@),
                n <= limits.max_documents,
                documents_fault(ds, n as int, limits) is None,
                keys@.len() == n,
                forall|c: int| 0 <= c < n ==> (#[trigger] keys@[c])@ == document_key(ds[c].0, ds[c].1),
                forall|c: int| 0 <= c < a ==> document_key(ds[c].0, ds[c].1) != document_key(ds[j as int].0, ds[j as int].1),
            decreases j - a,
        {
            if keys[a] == keys[j] {
                assert(keys@[a as int]@ == document_key(ds[a as int].0, ds[a as int].1));
                assert(keys@[j as int]@ == document_key(ds[j as int].0, ds[j as int].1));
                assert(has_duplicate(ds));
                return Err(SearchError::DuplicateDocument);
            }
            assert(keys@[a as int]@ == document_key(ds[a as int].0, ds[a as int].1));
            assert(keys@[j as int]@ == document_key(ds[j as int].0, ds[j as int].1));
            a = a + 1;
        }
        j = j + 1;
    }
    assert(!has_duplicate(ds));
    let ghost cs = ds.map_values(|d: DocumentView| canonical_document(d));
    let mut sorted: Vec<SearchDocument> = Vec::new();
    let mut skeys: Vec<String> = Vec::new();
    let mut m: usize = 0;
    assert(cs.take(0) =~= Seq::<DocumentView>::empty());
    assert(sorted@.map_values(|d: SearchDocument| d@) =~= Seq::<DocumentView>::empty());
    while m < n
        invariant
            m <= n == documents@.len(),
            ds == documents@.map_values(|d: SearchDocument| d@),
            cs == ds.map_values(|d: DocumentView| canonical_document(d)),
            n <= limits.max_documents,
            documents_fault(ds, n as int, limits) is None,
            !has_duplicate(ds),
            keys@.len() == n,
            forall|a: int| 0 <= a < n ==> (#[trigger] keys@[a])@ == document_key(ds[a].0, ds[a].1),
            skeys@.len() == sorted@.len(),
            forall|a: int| 0 <= a < sorted@.len() ==> (#[trigger] skeys@[a])@ == document_key(sorted@[a]@.0, sorted@[a]@.1),
            sorted@.map_values(|d: SearchDocument| d@) == sort_by_order(cs.take(m as int), document_order()),
        decreases n - m,
    {
        let d = &documents[m];
        let x = SearchDocument { source: d.source.duplicate(), kind: d.kind, fields: canonical_fields(&d.fields) };
        let ghost xv = x@;
        assert(ds[m as int] == d@);
        assert(xv == cs[m as int]);
        let ghost sv = sorted@.map_values(|d: SearchDocument| d@);
        let xkey = keys[m].clone();
        assert(xkey@ == document_key(xv.0, xv.1));
        let mut p: usize = 0;
        let mut found = false;
        while p < sorted.len() && !found
            invariant
                p <= sorted@.len() == skeys@.len(),
                sv == sorted@.map_values(|d: SearchDocument| d@),
                forall|a: int| 0 <= a < sorted@.len() ==> (#[trigger] skeys@[a])@ == document_key(sorted@[a]@.0, sorted@[a]@.1),
                xkey@ == document_key(xv.0, xv.1),
                forall|c: int| 0 <= c < p ==> !document_order()(xv, #[trigger] sv[c]),
                found ==> p < sorted@.len() && document_order()(xv, sv[p as int]),
            decreases sorted@.len() - p + (if found { 0int } else { 1int }),
        {
            assert(sv[p as int] == sorted@[p as int]@);
            assert(skeys@[p as int]@ == document_key(sv[p as int].0, sv[p as int].1));
            if text_less(&xkey, &skeys[p]) {
                found = true;
            } else {
                p = p + 1;
            }
        }
        proof {
            lemma_insert_by_at(sv, xv, document_order(), p as int);
        }
        let ghost old_sorted = sorted@;
        let ghost old_skeys = skeys@;
        sorted.insert(p, x);
        skeys.insert(p, xkey);
        assert(sorted@.map_values(|d: SearchDocument| d@) =~= sv.insert(p as int, xv));
        assert forall|a: int| 0 <= a < sorted@.len() implies (#[trigger] skeys@[a])@ == document_key(
            sorted@[a]@.0,
            sorted@[a]@.1,
        ) by {
            if a < p {
                assert(sorted@[a] == old_sorted[a] && skeys@[a] == old_skeys[a]);
            } else if a > p {
                assert(sorted@[a] == old_sorted[a - 1] && skeys@[a] == old_skeys[a - 1]);
            }
        }
        assert(cs.take(m as int + 1).drop_last() =~= cs.take(m as int));
        m = m + 1;
    }
    assert(cs.take(n as int) =~= cs);
    let ghost fin = sorted@.map_values(|d: SearchDocument| d@);
    let mut bytes: Vec<u8> = Vec::new();
    push_le(&mut bytes, sorted.len() as u64, 8);
    let ghost head = bytes@;
    let mut q: usize = 0;
    assert(fin.take(0) =~= Seq::<DocumentView>::empty());
    assert(head =~= head + documents_record(fin.take(0)));
    while q < sorted.len()
        invariant
            q <= sorted@.len(),
            fin == sorted@.map_values(|d: SearchDocument| d@),
            bytes@ == head + documents_record(fin.take(q as int)),
        decreases sorted@.len() - q,
    {
        push_document_record(&mut bytes, &sorted[q]);
        assert(fin[q as int] == sorted@[q as int]@);
        assert(fin.take(q as int + 1).drop_last() =~= fin.take(q as int));
        assert(bytes@ =~= head + documents_record(fin.take(q as int + 1)));
        q = q + 1;
    }
    assert(fin.take(sorted@.len() as int) =~= fin);
    assert(bytes@ =~= content_record(fin));
    let digest = crate::digest::sha256_hex(bytes.as_slice());
    Ok((sorted, digest))
}

/// Maximal runs of non-white-space characters, in order, as `str::split_whitespace` yields them.
pub open spec fn words(s: Seq<char>) -> Seq<Seq<char>>
    decreases s.len(),
{
    if s.len() == 0 {
        Seq::empty()
    } else {
        let prev = words(s.drop_last());
        let c = s.last();
        if is_white(c) {
            prev
        } else if s.len() >= 2 && !is_white(s[s.len() - 2]) {
            prev.drop_last().push(prev.last().push(c))
        } else {
            prev.push(seq![c])
        }
    }
}

/// The lowercase form of a text as `str::to_lowercase` maps it, by the Unicode tables of the
/// standard library.
pub uninterp spec fn lowercase_of(s: Seq<char>) -> Seq<char>;

/// Calls `str::to_lowercase`. Trusted: the result is `lowercase_of` of the argument.
#[verifier::external_body]
fn lowercase(s: &str) -> (r: String)
    ensures
        r@ == lowercase_of(s@),
{
    s.to_lowercase()
}

/// The query terms of a text: its words, each in lowercase.
pub open spec fn query_terms(text: Seq<char>) -> Seq<Seq<char>> {
    words(text).map_values(|w: Seq<char>| lowercase_of(w))
}

fn split_words(text: &str) -> (r: Vec<String>)
    ensures
        r@.map_values(|w: String| w@) == words(text@),
{
    let cs = crate::text_ops::chars_of(text);
    let mut done: Vec<String> = Vec::new();
    let mut cur: Vec<char> = Vec::new();
    let mut i: usize = 0;
    assert(cs@.take(0) =~= Seq::<char>::empty());
    assert(done@.map_values(|w: String| w@) =~= Seq::<Seq<char>>::empty());
    while i < cs.len()
        invariant
            i <= cs@.len(),
            cs@ == text@,
            (i > 0 && !is_white(cs@[i - 1])) <==> cur@.len() > 0,
            cur@.len() > 0 ==> words(cs@.take(i as int)) == done@.map_values(|w: String| w@).push(cur@),
            cur@.len() == 0 ==> words(cs@.take(i as int)) == done@.map_values(|w: String| w@),
        decreases cs@.len() - i,
    {
        let c = cs[i];
        let ghost pre = cs@.take(i as int);
        let ghost dv = done@.map_values(|w: String| w@);
        assert(cs@.take(i as int + 1).drop_last() =~= pre);
        assert(cs@.take(i as int + 1).last() == c);
        if crate::text_ops::white(c) {
            if cur.len() > 0 {
                let w = crate::text_ops::string_of(cur.as_slice());
                done.push(w);
                cur = Vec::new();
                assert(done@.map_values(|w: String| w@) =~= dv.push(w@));
            }
        } else {
            let ghost old_cur = cur@;
            let had = cur.len() > 0;
            cur.push(c);
            if had {
                assert(cs@.take(i as int + 1)[i - 1] == cs@[i - 1]);
                assert(dv.push(old_cur).drop_last() =~= dv);
                assert(words(cs@.take(i as int + 1)) =~= dv.push(old_cur.push(c)));
            } else {
                assert(cur@ =~= seq![c]);
            }
        }
        i = i + 1;
    }
    assert(cs@.take(cs@.len() as int) =~= cs@);
    if cur.len() > 0 {
        let ghost dv = done@.map_values(|w: String| w@);
        let w = crate::text_ops::string_of(cur.as_slice());
        done.push(w);
        assert(done@.map_values(|w: String| w@) =~= dv.push(w@));
    }
    done
}

fn terms_of(text: &str) -> (r: Vec<Vec<char>>)
    ensures
        r@.map_values(|t: Vec<char>| t@) == query_terms(text@),
{
    let ws = split_words(text);
    let ghost wv = ws@.map_values(|w: String| w@);
    let mut out: Vec<Vec<char>> = Vec::new();
    let mut i: usize = 0;
    while i < ws.len()
        invariant
            i <= ws@.len(),
            wv == ws@.map_values(|w: String| w@),
            wv == words(text@),
            out@.map_values(|t: Vec<char>| t@) == wv.take(i as int).map_values(|w: Seq<char>| lowercase_of(w)),
        decreases ws@.len() - i,
    {
        let low = lowercase(ws[i].as_str());
        let cs = crate::text_ops::chars_of(low.as_str());
        let ghost before = out@.map_values(|t: Vec<char>| t@);
        out.push(cs);
        assert(wv[i as int] == ws@[i as int]@);
        assert(out@.map_values(|t: Vec<char>| t@) =~= before.push(lowercase_of(wv[i as int])));
        assert(wv.take(i as int + 1).map_values(|w: Seq<char>| lowercase_of(w)) =~= wv.take(i as int).map_values(
            |w: Seq<char>| lowercase_of(w),
        ).push(lowercase_of(wv[i as int])));
        i = i + 1;
    }
    assert(wv.take(ws@.len() as int) =~= wv);
    out
}

/// Whether `t` occurs as a contiguous part of `h`.
pub open spec fn occurs(t: Seq<char>, h: Seq<char>) -> bool {
    exists|i: int| 0 <= i && i + t.len() <= h.len() && #[trigger] h.subrange(i, i + t.len()) == t
}

fn occurs_in(t: &Vec<char>, h: &Vec<char>) -> (r: bool)
    ensures
        r == occurs(t@, h@),
{
    if t.len() > h.len() {
        return false;
    }
    let last = h.len() - t.len();
    let mut i: usize = 0;
    while i <= last
        invariant
            last == h@.len() - t@.len(),
            t@.len() <= h@.len(),
            forall|k: int| 0 <= k < i ==> #[trigger] h@.subrange(k, k + t@.len()) != t@,
        decreases last + 1 - i,
    {
        let mut j: usize = 0;
        let mut same = true;
        while j < t.len() && same
            invariant
                i <= last == h@.len() - t@.len(),
                t@.len() <= h@.len(),
                j <= t@.len(),
                same ==> forall|m: int| 0 <= m < j ==> h@[i + m] == t@[m],
                !same ==> j > 0 && h@[i + j - 1] != t@[j - 1],
            decreases t@.len() - j + (if same { 1int } else { 0int }),
        {
            let hn = h.len();
            assert(i + j < hn);
            if h[i + j] != t[j] {
                same = false;
            }
            j = j + 1;
        }
        if same {
            assert(h@.subrange(i as int, i + t@.len()) =~= t@);
            return true;
        }
        assert(h@.subrange(i as int, i + t@.len())[j - 1] == h@[i + j - 1]);
        if i == last {
            assert forall|k: int| 0 <= k && k + t@.len() <= h@.len() implies #[trigger] h@.subrange(k, k + t@.len())
                != t@ by {
                assert(k <= i);
            }
            return false;
        }
        i = i + 1;
    }
    false
}

/// The text a field is matched against: its key, a space and its value, or its value alone, in
/// lowercase.
pub open spec fn haystack(f: FieldView) -> Seq<char> {
    match f.1 {
        Some(k) => lowercase_of(k + " "@ + f.2),
        None => lowercase_of(f.2),
    }
}

/// A field matches when its domain passes the filter and every term occurs in its haystack.
pub open spec fn field_hits(f: FieldView, terms: Seq<Seq<char>>, domains: Seq<SearchDomain>) -> bool {
    &&& (domains.len() == 0 || domains.contains(f.0))
    &&& forall|k: int| 0 <= k < terms.len() ==> occurs(#[trigger] terms[k], haystack(f))
}

/// The matching fields of a document, in field order.
pub open spec fn matched(fs: Seq<FieldView>, terms: Seq<Seq<char>>, domains: Seq<SearchDomain>) -> Seq<FieldView>
    decreases fs.len(),
{
    if fs.len() == 0 {
        Seq::empty()
    } else {
        let prev = matched(fs.drop_last(), terms, domains);
        if field_hits(fs.last(), terms, domains) {
            prev.push(fs.last())
        } else {
            prev
        }
    }
}

/// A match count as a score, saturated at `u32::MAX`.
pub open spec fn score_of(n: nat) -> u32 {
    if n > u32::MAX {
        u32::MAX
    } else {
        n as u32
    }
}

/// Hits of the documents in workspace `ws`, in document order.
pub open spec fn raw_hits(
    ds: Seq<DocumentView>,
    ws: (Seq<char>, Seq<char>),
    terms: Seq<Seq<char>>,
    domains: Seq<SearchDomain>,
) -> Seq<crate::search::HitView>
    decreases ds.len(),
{
    if ds.len() == 0 {
        Seq::empty()
    } else {
        let prev = raw_hits(ds.drop_last(), ws, terms, domains);
        let d = ds.last();
        let m = matched(d.2, terms, domains);
        if d.0.workspace == ws && m.len() > 0 {
            prev.push((d.0, d.1, score_of(m.len()), m))
        } else {
            prev
        }
    }
}

/// Hit order: higher score first, then order text.
pub open spec fn hit_order() -> spec_fn(crate::search::HitView, crate::search::HitView) -> bool {
    |a: crate::search::HitView, b: crate::search::HitView| a.2 > b.2 || (a.2 == b.2 && text_lt(
        hit_key(a.0, a.1),
        hit_key(b.0, b.1),
    ))
}

/// The failure of a query, if any: a workspace reference of another kind, a result limit of zero
/// or above the maximum, then query text that is not canonical, too long, or without terms.
pub open spec fn query_fault(q: crate::search::QueryView, limits: SearchLimits) -> Option<SearchFault> {
    if q.workspace.1 != "core.workspace"@ {
        Some(SearchFault::InvalidWorkspaceRef)
    } else if q.limit == 0 || q.limit > limits.max_results {
        Some(SearchFault::InvalidResultLimit)
    } else if !canonical_text(q.text) || utf8_len(q.text) > limits.max_query_bytes || words(q.text).len() == 0 {
        Some(SearchFault::InvalidQuery)
    } else {
        None
    }
}

/// The first `n` elements, or all when there are fewer.
pub open spec fn first_n<T>(s: Seq<T>, n: int) -> Seq<T> {
    if s.len() <= n {
        s
    } else {
        s.take(n)
    }
}

/// The hits of a query over `ds`: matching documents of the query's workspace, highest score
/// first, then by order text, at most `limit` of them.
pub open spec fn query_spec(ds: Seq<DocumentView>, limits: SearchLimits, q: crate::search::QueryView) -> Result<
    Seq<crate::search::HitView>,
    SearchFault,
> {
    match query_fault(q, limits) {
        Some(f) => Err(f),
        None => Ok(
            first_n(
                sort_by_order(raw_hits(ds, q.workspace, query_terms(q.text), q.domains), hit_order()),
                q.limit as int,
            ),
        ),
    }
}

fn domain_allowed(domains: &Vec<SearchDomain>, d: SearchDomain) -> (r: bool)
    ensures
        r == (domains@.len() == 0 || domains@.contains(d)),
{
    if domains.len() == 0 {
        return true;
    }
    let mut i: usize = 0;
    while i < domains.len()
        invariant
            i <= domains@.len(),
            forall|k: int| 0 <= k < i ==> domains@[k] != d,
        decreases domains@.len() - i,
    {
        if domains[i] == d {
            assert(domains@[i as int] == d);
            return true;
        }
        i = i + 1;
    }
    false
}

fn haystack_of(f: &SearchField) -> (r: Vec<char>)
    ensures
        r@ == haystack(field_views(seq![*f])[0]),
{
    let h = match &f.key {
        Some(k) => {
            let mut t = k.clone();
            append_str(&mut t, " ");
            append_str(&mut t, f.value.as_str());
            lowercase(t.as_str())
        },
        None => lowercase(f.value.as_str()),
    };
    crate::text_ops::chars_of(h.as_str())
}

/// Views of term character vectors.
pub open spec fn term_views(ts: Seq<Vec<char>>) -> Seq<Seq<char>> {
    ts.map_values(|t: Vec<char>| t@)
}

fn field_matches(f: &SearchField, terms: &Vec<Vec<char>>, domains: &Vec<SearchDomain>) -> (r: bool)
    ensures
        r == field_hits(field_views(seq![*f])[0], term_views(terms@), domains@),
{
    let ghost fv = field_views(seq![*f])[0];
    let ghost tv = term_views(terms@);
    if !domain_allowed(domains, f.domain) {
        return false;
    }
    let h = haystack_of(f);
    let mut k: usize = 0;
    while k < terms.len()
        invariant
            k <= terms@.len(),
            tv == term_views(terms@),
            fv == field_views(seq![*f])[0],
            h@ == haystack(fv),
            forall|m: int| 0 <= m < k ==> occurs(#[trigger] tv[m], haystack(fv)),
        decreases terms@.len() - k,
    {
        assert(tv[k as int] == terms@[k as int]@);
        if !occurs_in(&terms[k], &h) {
            assert(!occurs(tv[k as int], haystack(fv)));
            return false;
        }
        k = k + 1;
    }
    true
}

fn document_matches(d: &SearchDocument, terms: &Vec<Vec<char>>, domains: &Vec<SearchDomain>) -> (r: Vec<
    crate::search::SearchMatch,
>)
    ensures
        crate::search::match_views(r@) == matched(d@.2, term_views(terms@), domains@),
{
    let ghost fs = field_views(d.fields@);
    let ghost tv = term_views(terms@);
    let mut out: Vec<crate::search::SearchMatch> = Vec::new();
    let mut i: usize = 0;
    assert(fs.take(0) =~= Seq::<FieldView>::empty());
    assert(crate::search::match_views(out@) =~= Seq::<FieldView>::empty());
    while i < d.fields.len()
        invariant
            i <= d.fields@.len(),
            fs == field_views(d.fields@),
            tv == term_views(terms@),
            crate::search::match_views(out@) == matched(fs.take(i as int), tv, domains@),
        decreases d.fields@.len() - i,
    {
        let f = &d.fields[i];
        assert(field_views(seq![*f])[0] == fs[i as int]);
        assert(fs.take(i as int + 1).drop_last() =~= fs.take(i as int));
        if field_matches(f, terms, domains) {
            let ghost before = crate::search::match_views(out@);
            let m = crate::search::SearchMatch {
                domain: f.domain,
                key: f.key.clone(),
                value: f.value.clone(),
                evidence_source: f.evidence_source.clone(),
            };
            out.push(m);
            assert(crate::search::match_views(out@) =~= before.push(fs[i as int]));
        }
        i = i + 1;
    }
    assert(fs.take(d.fields@.len() as int) =~= fs);
    out
}

fn hit_less(a: &crate::search::SearchHit, akey: &String, b: &crate::search::SearchHit, bkey: &String) -> (r: bool)
    requires
        akey@ == hit_key(a@.0, a@.1),
        bkey@ == hit_key(b@.0, b@.1),
    ensures
        r == hit_order()(a@, b@),
{
    a.score > b.score || (a.score == b.score && text_less(akey, bkey))
}

/// The hits of a query over `docs`, or the query's failure.
pub fn search_documents(docs: &Vec<SearchDocument>, limits: SearchLimits, q: &crate::search::SearchQuery) -> (r:
    Result<Vec<crate::search::SearchHit>, SearchError>)
    ensures
        match query_spec(docs@.map_values(|d: SearchDocument| d@), limits, q@) {
            Ok(hs) => r matches Ok(v) && crate::search::hit_views(v@) == hs,
            Err(f) => r matches Err(e) && e@ == f,
        },
{
    let ghost ds = docs@.map_values(|d: SearchDocument| d@);
    if !q.workspace_ref.has_kind("core.workspace") {
        return Err(SearchError::InvalidWorkspaceRef);
    }
    if q.limit == 0 || q.limit > limits.max_results {
        return Err(SearchError::InvalidResultLimit);
    }
    if !is_canonical_text(q.text.as_str()) || utf8_size(&q.text) > limits.max_query_bytes {
        return Err(SearchError::InvalidQuery);
    }
    let terms = terms_of(q.text.as_str());
    assert(term_views(terms@) == query_terms(q.text@));
    if terms.len() == 0 {
        return Err(SearchError::InvalidQuery);
    }
    let ghost tv = term_views(terms@);
    let ghost ws = q.workspace_ref@;
    let mut sorted: Vec<crate::search::SearchHit> = Vec::new();
    let mut keys: Vec<String> = Vec::new();
    let mut i: usize = 0;
    assert(ds.take(0) =~= Seq::<DocumentView>::empty());
    assert(crate::search::hit_views(sorted@) =~= Seq::<crate::search::HitView>::empty());
    while i < docs.len()
        invariant
            i <= docs@.len(),
            ds == docs@.map_values(|d: SearchDocument| d@),
            tv == term_views(terms@),
            tv == query_terms(q.text@),
            ws == q.workspace_ref@,
            keys@.len() == sorted@.len(),
            forall|a: int| 0 <= a < sorted@.len() ==> (#[trigger] keys@[a])@ == hit_key(sorted@[a]@.0, sorted@[a]@.1),
            crate::search::hit_views(sorted@) == sort_by_order(raw_hits(ds.take(i as int), ws, tv, q.domains@), hit_order()),
        decreases docs@.len() - i,
    {
        let d = &docs[i];
        assert(ds[i as int] == d@);
        assert(ds.take(i as int + 1).drop_last() =~= ds.take(i as int));
        let ghost prev = raw_hits(ds.take(i as int), ws, tv, q.domains@);
        if d.source.workspace_ref.same_as(&q.workspace_ref) {
            let ms = document_matches(d, &terms, &q.domains);
            if ms.len() > 0 {
                let n = ms.len();
                let score: u32 = if n > 0xffff_ffffusize {
                    0xffff_ffffu32
                } else {
                    n as u32
                };
                let x = crate::search::SearchHit { source: d.source.duplicate(), kind: d.kind, score, matches: ms };
                let ghost xv = x@;
                assert(raw_hits(ds.take(i as int + 1), ws, tv, q.domains@) == prev.push(xv));
                assert(prev.push(xv).drop_last() =~= prev);
                let xkey = hit_key_text(&x.source, x.kind);
                let ghost sv = crate::search::hit_views(sorted@);
                let mut p: usize = 0;
                let mut found = false;
                while p < sorted.len() && !found
                    invariant
                        p <= sorted@.len() == keys@.len(),
                        sv == crate::search::hit_views(sorted@),
                        forall|a: int| 0 <= a < sorted@.len() ==> (#[trigger] keys@[a])@ == hit_key(
                            sorted@[a]@.0,
                            sorted@[a]@.1,
                        ),
                        xkey@ == hit_key(xv.0, xv.1),
                        xv == x@,
                        forall|c: int| 0 <= c < p ==> !hit_order()(xv, #[trigger] sv[c]),
                        found ==> p < sorted@.len() && hit_order()(xv, sv[p as int]),
                    decreases sorted@.len() - p + (if found { 0int } else { 1int }),
                {
                    assert(sv[p as int] == sorted@[p as int]@);
                    if hit_less(&x, &xkey, &sorted[p], &keys[p]) {
                        found = true;
                    } else {
                        p = p + 1;
                    }
                }
                proof {
                    lemma_insert_by_at(sv, xv, hit_order(), p as int);
                }
                let ghost old_sorted = sorted@;
                let ghost old_keys = keys@;
                sorted.insert(p, x);
                keys.insert(p, xkey);
                assert(crate::search::hit_views(sorted@) =~= sv.insert(p as int, xv));
                assert forall|a: int| 0 <= a < sorted@.len() implies (#[trigger] keys@[a])@ == hit_key(
                    sorted@[a]@.0,
                    sorted@[a]@.1,
                ) by {
                    if a < p {
                        assert(sorted@[a] == old_sorted[a] && keys@[a] == old_keys[a]);
                    } else if a > p {
                        assert(sorted@[a] == old_sorted[a - 1] && keys@[a] == old_keys[a - 1]);
                    }
                }
            } else {
                assert(raw_hits(ds.take(i as int + 1), ws, tv, q.domains@) == prev);
            }
        } else {
            assert(raw_hits(ds.take(i as int + 1), ws, tv, q.domains@) == prev);
        }
        i = i + 1;
    }
    assert(ds.take(docs@.len() as int) =~= ds);
    let ghost all = crate::search::hit_views(sorted@);
    sorted.truncate(q.limit);
    assert(crate::search::hit_views(sorted@) =~= first_n(all, q.limit as int));
    Ok(sorted)
}

/// The identity text of a document view.
pub open spec fn doc_key(d: DocumentView) -> Seq<char> {
    document_key(d.0, d.1)
}

proof fn lemma_text_lt_trans(a: Seq<char>, b: Seq<char>, c: Seq<char>)
    requires
        text_lt(a, b),
        text_lt(b, c),
    ensures
        text_lt(a, c),
    decreases a.len(),
{
    if a.len() > 0 && b.len() > 0 && c.len() > 0 && a[0] == b[0] && b[0] == c[0] {
        lemma_text_lt_trans(a.drop_first(), b.drop_first(), c.drop_first());
    }
}

proof fn lemma_text_lt_total(a: Seq<char>, b: Seq<char>)
    requires
        a != b,
    ensures
        text_lt(a, b) || text_lt(b, a),
    decreases a.len(),
{
    if a.len() > 0 && b.len() > 0 && a[0] == b[0] {
        if a.drop_first() == b.drop_first() {
            assert(a =~= seq![a[0]] + a.drop_first());
            assert(b =~= seq![b[0]] + b.drop_first());
        }
        lemma_text_lt_total(a.drop_first(), b.drop_first());
    } else if a.len() > 0 && b.len() > 0 {
        if (a[0] as u32) == (b[0] as u32) {
            vstd::utf8::char_u32_cast(a[0], a[0] as u32);
            vstd::utf8::char_u32_cast(b[0], b[0] as u32);
        }
    } else if a.len() == 0 && b.len() == 0 {
        assert(a =~= b);
    }
}

/// Strictly ascending identity texts.
pub open spec fn keys_ascending(s: Seq<DocumentView>) -> bool {
    forall|i: int, j: int| 0 <= i < j < s.len() ==> text_lt(doc_key(#[trigger] s[i]), doc_key(#[trigger] s[j]))
}

/// Pairwise different identity texts.
pub open spec fn keys_distinct(s: Seq<DocumentView>) -> bool {
    forall|i: int, j: int| 0 <= i < s.len() && 0 <= j < s.len() && i != j ==> doc_key(#[trigger] s[i]) != doc_key(
        #[trigger] s[j],
    )
}

proof fn lemma_insert_doc(s: Seq<DocumentView>, x: DocumentView)
    requires
        keys_ascending(s),
        forall|k: int| 0 <= k < s.len() ==> doc_key(#[trigger] s[k]) != doc_key(x),
    ensures
        keys_ascending(insert_by(s, x, document_order())),
        insert_by(s, x, document_order()).len() == s.len() + 1,
        forall|y: DocumentView| #[trigger] insert_by(s, x, document_order()).contains(y) <==> (s.contains(y) || y == x),
    decreases s.len(),
{
    let t = insert_by(s, x, document_order());
    if s.len() == 0 {
        assert(t =~= seq![x]);
        assert forall|y: DocumentView| #[trigger] t.contains(y) <==> (s.contains(y) || y == x) by {
            if t.contains(y) {
                let k = choose|k: int| 0 <= k < t.len() && t[k] == y;
            }
            if y == x {
                assert(t[0] == y);
            }
        }
    } else if text_lt(doc_key(x), doc_key(s[0])) {
        assert(t =~= seq![x] + s);
        assert forall|i: int, j: int| 0 <= i < j < t.len() implies text_lt(doc_key(#[trigger] t[i]), doc_key(#[trigger] t[j])) by {
            if i == 0 {
                if j > 1 {
                    lemma_text_lt_trans(doc_key(x), doc_key(s[0]), doc_key(s[j - 1]));
                }
            } else {
                assert(t[i] == s[i - 1] && t[j] == s[j - 1]);
            }
        }
        assert forall|y: DocumentView| #[trigger] t.contains(y) <==> (s.contains(y) || y == x) by {
            if t.contains(y) {
                let k = choose|k: int| 0 <= k < t.len() && t[k] == y;
                if k > 0 {
                    assert(s[k - 1] == y);
                }
            }
            if s.contains(y) {
                let k = choose|k: int| 0 <= k < s.len() && s[k] == y;
                assert(t[k + 1] == y);
            }
            if y == x {
                assert(t[0] == y);
            }
        }
    } else {
        let r = s.drop_first();
        assert forall|i: int, j: int| 0 <= i < j < r.len() implies text_lt(doc_key(#[trigger] r[i]), doc_key(#[trigger] r[j])) by {
            assert(r[i] == s[i + 1] && r[j] == s[j + 1]);
        }
        assert forall|k: int| 0 <= k < r.len() implies doc_key(#[trigger] r[k]) != doc_key(x) by {
            assert(r[k] == s[k + 1]);
        }
        lemma_insert_doc(r, x);
        let u = insert_by(r, x, document_order());
        assert(t =~= seq![s[0]] + u);
        lemma_text_lt_total(doc_key(x), doc_key(s[0]));
        assert forall|i: int, j: int| 0 <= i < j < t.len() implies text_lt(doc_key(#[trigger] t[i]), doc_key(#[trigger] t[j])) by {
            if i == 0 {
                assert(t[j] == u[j - 1]);
                assert(u.contains(u[j - 1]));
                if u[j - 1] == x {
                } else {
                    let k = choose|k: int| 0 <= k < r.len() && r[k] == u[j - 1];
                    assert(r[k] == s[k + 1]);
                }
            } else {
                assert(t[i] == u[i - 1] && t[j] == u[j - 1]);
            }
        }
        assert forall|y: DocumentView| #[trigger] t.contains(y) <==> (s.contains(y) || y == x) by {
            if t.contains(y) {
                let k = choose|k: int| 0 <= k < t.len() && t[k] == y;
                if k > 0 {
                    assert(u[k - 1] == y);
                    assert(u.contains(y));
                    if r.contains(y) {
                        let m = choose|m: int| 0 <= m < r.len() && r[m] == y;
                        assert(s[m + 1] == y);
                    }
                }
            }
            if s.contains(y) {
                let k = choose|k: int| 0 <= k < s.len() && s[k] == y;
                if k > 0 {
                    assert(r[k - 1] == y);
                    assert(r.contains(y));
                    assert(u.contains(y));
                    let m = choose|m: int| 0 <= m < u.len() && u[m] == y;
                    assert(t[m + 1] == y);
                } else {
                    assert(t[0] == y);
                }
            }
            if y == x {
                assert(u.contains(x));
                let m = choose|m: int| 0 <= m < u.len() && u[m] == x;
                assert(t[m + 1] == x);
            }
        }
    }
}

proof fn lemma_sort_docs(s: Seq<DocumentView>)
    requires
        keys_distinct(s),
    ensures
        keys_ascending(sort_by_order(s, document_order())),
        sort_by_order(s, document_order()).len() == s.len(),
        forall|y: DocumentView| #[trigger] sort_by_order(s, document_order()).contains(y) <==> s.contains(y),
    decreases s.len(),
{
    if s.len() > 0 {
        let r = s.drop_last();
        assert forall|i: int, j: int| 0 <= i < r.len() && 0 <= j < r.len() && i != j implies doc_key(#[trigger] r[i])
            != doc_key(#[trigger] r[j]) by {
            assert(r[i] == s[i] && r[j] == s[j]);
        }
        lemma_sort_docs(r);
        let q = sort_by_order(r, document_order());
        assert forall|k: int| 0 <= k < q.len() implies doc_key(#[trigger] q[k]) != doc_key(s.last()) by {
            assert(q.contains(q[k]));
            let m = choose|m: int| 0 <= m < r.len() && r[m] == q[k];
            assert(r[m] == s[m]);
        }
        lemma_insert_doc(q, s.last());
        assert forall|y: DocumentView| #[trigger] sort_by_order(s, document_order()).contains(y) <==> s.contains(y) by {
            if r.contains(y) {
                let m = choose|m: int| 0 <= m < r.len() && r[m] == y;
                assert(s[m] == y);
            }
            if s.contains(y) {
                let m = choose|m: int| 0 <= m < s.len() && s[m] == y;
                if m < s.len() - 1 {
                    assert(r[m] == y);
                }
            }
        }
    }
}

proof fn lemma_ascending_unique(s: Seq<DocumentView>, t: Seq<DocumentView>)
    requires
        keys_ascending(s),
        keys_ascending(t),
        forall|y: DocumentView| s.contains(y) <==> t.contains(y),
    ensures
        s == t,
    decreases s.len(),
{
    if s.len() == 0 {
        if t.len() > 0 {
            assert(t.contains(t[0]));
        }
        assert(s =~= t);
    } else {
        assert(s.contains(s[0]));
        assert(t.contains(s[0]));
        assert(t.len() > 0);
        assert(t.contains(t[0]));
        assert(s.contains(t[0]));
        if s[0] != t[0] {
            let a = choose|a: int| 0 <= a < t.len() && t[a] == s[0];
            let b = choose|b: int| 0 <= b < s.len() && s[b] == t[0];
            assert(a > 0 && b > 0);
            assert(text_lt(doc_key(t[0]), doc_key(t[a])));
            assert(text_lt(doc_key(s[0]), doc_key(s[b])));
            lemma_text_lt_trans(doc_key(s[0]), doc_key(t[0]), doc_key(s[0]));
            lemma_text_lt_irrefl(doc_key(s[0]));
        }
        let s1 = s.drop_first();
        let t1 = t.drop_first();
        assert forall|i: int, j: int| 0 <= i < j < s1.len() implies text_lt(doc_key(#[trigger] s1[i]), doc_key(#[trigger] s1[j])) by {
            assert(s1[i] == s[i + 1] && s1[j] == s[j + 1]);
        }
        assert forall|i: int, j: int| 0 <= i < j < t1.len() implies text_lt(doc_key(#[trigger] t1[i]), doc_key(#[trigger] t1[j])) by {
            assert(t1[i] == t[i + 1] && t1[j] == t[j + 1]);
        }
        assert forall|y: DocumentView| s1.contains(y) <==> t1.contains(y) by {
            if s1.contains(y) {
                let k = choose|k: int| 0 <= k < s1.len() && s1[k] == y;
                assert(s[k + 1] == y);
                assert(s.contains(y));
                assert(t.contains(y));
                let m = choose|m: int| 0 <= m < t.len() && t[m] == y;
                if m == 0 {
                    assert(text_lt(doc_key(s[0]), doc_key(s[k + 1])));
                    lemma_text_lt_irrefl(doc_key(s[0]));
                }
                assert(t1[m - 1] == y);
            }
            if t1.contains(y) {
                let k = choose|k: int| 0 <= k < t1.len() && t1[k] == y;
                assert(t[k + 1] == y);
                assert(t.contains(y));
                assert(s.contains(y));
                let m = choose|m: int| 0 <= m < s.len() && s[m] == y;
                if m == 0 {
                    assert(text_lt(doc_key(t[0]), doc_key(t[k + 1])));
                    lemma_text_lt_irrefl(doc_key(t[0]));
                }
                assert(s1[m - 1] == y);
            }
        }
        lemma_ascending_unique(s1, t1);
        assert(s =~= seq![s[0]] + s1);
        assert(t =~= seq![t[0]] + t1);
    }
}

proof fn lemma_documents_fault_none(ds: Seq<DocumentView>, n: int, limits: SearchLimits)
    requires
        0 <= n <= ds.len(),
    ensures
        documents_fault(ds, n, limits) is None <==> forall|i: int| 0 <= i < n ==> (#[trigger] document_fault(ds[i], limits)) is None,
    decreases n,
{
    if n > 0 {
        lemma_documents_fault_none(ds, n - 1, limits);
    }
}

/// Input order is not index identity: rebuilding from a reordering `ds2` of documents `ds1`
/// (`ds2[i]` is `ds1[p[i]]` for a permutation `p`) gives the same canonical content, whenever
/// `ds1` is accepted.
pub proof fn lemma_rebuild_order_free(ds1: Seq<DocumentView>, ds2: Seq<DocumentView>, p: Seq<int>, limits: SearchLimits)
    requires
        p.len() == ds1.len(),
        ds2.len() == ds1.len(),
        forall|i: int| 0 <= i < p.len() ==> 0 <= #[trigger] p[i] < ds1.len() && ds2[i] == ds1[p[i]],
        forall|i: int, j: int| 0 <= i < j < p.len() ==> #[trigger] p[i] != #[trigger] p[j],
        forall|k: int| 0 <= k < ds1.len() ==> #[trigger] p.contains(k),
        rebuild_spec(ds1, limits) is Ok,
    ensures
        rebuild_spec(ds2, limits) == rebuild_spec(ds1, limits),
{
    let n = ds1.len() as int;
    lemma_documents_fault_none(ds1, n, limits);
    lemma_documents_fault_none(ds2, n, limits);
    assert forall|i: int| 0 <= i < n implies (#[trigger] document_fault(ds2[i], limits)) is None by {
        assert(ds2[i] == ds1[p[i]]);
        assert(document_fault(ds1[p[i]], limits) is None);
    }
    assert(!has_duplicate(ds1));
    if has_duplicate(ds2) {
        let (i, j) = choose|i: int, j: int|
            0 <= i < j < ds2.len() && #[trigger] document_key(ds2[i].0, ds2[i].1) == #[trigger] document_key(
                ds2[j].0,
                ds2[j].1,
            );
        assert(p[i] != p[j]);
        assert(ds2[i] == ds1[p[i]] && ds2[j] == ds1[p[j]]);
        if p[i] < p[j] {
            assert(document_key(ds1[p[i]].0, ds1[p[i]].1) == document_key(ds1[p[j]].0, ds1[p[j]].1));
        } else {
            assert(document_key(ds1[p[j]].0, ds1[p[j]].1) == document_key(ds1[p[i]].0, ds1[p[i]].1));
        }
        assert(false);
    }
    let cs1 = ds1.map_values(|d: DocumentView| canonical_document(d));
    let cs2 = ds2.map_values(|d: DocumentView| canonical_document(d));
    assert forall|i: int, j: int| 0 <= i < cs1.len() && 0 <= j < cs1.len() && i != j implies doc_key(#[trigger] cs1[i])
        != doc_key(#[trigger] cs1[j]) by {
        if i < j {
            assert(!(document_key(ds1[i].0, ds1[i].1) == document_key(ds1[j].0, ds1[j].1)));
        } else {
            assert(!(document_key(ds1[j].0, ds1[j].1) == document_key(ds1[i].0, ds1[i].1)));
        }
    }
    assert forall|i: int, j: int| 0 <= i < cs2.len() && 0 <= j < cs2.len() && i != j implies doc_key(#[trigger] cs2[i])
        != doc_key(#[trigger] cs2[j]) by {
        if i < j {
            assert(!(document_key(ds2[i].0, ds2[i].1) == document_key(ds2[j].0, ds2[j].1)));
        } else {
            assert(!(document_key(ds2[j].0, ds2[j].1) == document_key(ds2[i].0, ds2[i].1)));
        }
    }
    lemma_sort_docs(cs1);
    lemma_sort_docs(cs2);
    let o1 = sort_by_order(cs1, document_order());
    let o2 = sort_by_order(cs2, document_order());
    assert forall|y: DocumentView| o1.contains(y) <==> o2.contains(y) by {
        if cs1.contains(y) {
            let k = choose|k: int| 0 <= k < cs1.len() && cs1[k] == y;
            assert(p.contains(k));
            let i = choose|i: int| 0 <= i < p.len() && p[i] == k;
            assert(cs2[i] == y);
        }
        if cs2.contains(y) {
            let i = choose|i: int| 0 <= i < cs2.len() && cs2[i] == y;
            assert(cs1[p[i]] == y);
        }
    }
    lemma_ascending_unique(o1, o2);
}

proof fn lemma_insert_by_contains<T>(s: Seq<T>, x: T, lt: spec_fn(T, T) -> bool)
    ensures
        insert_by(s, x, lt).len() == s.len() + 1,
        forall|y: T| #[trigger] insert_by(s, x, lt).contains(y) <==> (s.contains(y) || y == x),
    decreases s.len(),
{
    let t = insert_by(s, x, lt);
    if s.len() == 0 {
        assert(t =~= seq![x]);
        assert forall|y: T| #[trigger] t.contains(y) <==> (s.contains(y) || y == x) by {
            if t.contains(y) {
                let k = choose|k: int| 0 <= k < t.len() && t[k] == y;
            }
            if y == x {
                assert(t[0] == y);
            }
        }
    } else if lt(x, s[0]) {
        assert(t =~= seq![x] + s);
        assert forall|y: T| #[trigger] t.contains(y) <==> (s.contains(y) || y == x) by {
            if t.contains(y) {
                let k = choose|k: int| 0 <= k < t.len() && t[k] == y;
                if k > 0 {
                    assert(s[k - 1] == y);
                }
            }
            if s.contains(y) {
                let k = choose|k: int| 0 <= k < s.len() && s[k] == y;
                assert(t[k + 1] == y);
            }
            if y == x {
                assert(t[0] == y);
            }
        }
    } else {
        let r = s.drop_first();
        lemma_insert_by_contains(r, x, lt);
        let u = insert_by(r, x, lt);
        assert(t =~= seq![s[0]] + u);
        assert forall|y: T| #[trigger] t.contains(y) <==> (s.contains(y) || y == x) by {
            if t.contains(y) {
                let k = choose|k: int| 0 <= k < t.len() && t[k] == y;
                if k > 0 {
                    assert(u[k - 1] == y);
                    assert(u.contains(y));
                    if r.contains(y) {
                        let m = choose|m: int| 0 <= m < r.len() && r[m] == y;
                        assert(s[m + 1] == y);
                    }
                }
            }
            if s.contains(y) {
                let k = choose|k: int| 0 <= k < s.len() && s[k] == y;
                if k > 0 {
                    assert(r[k - 1] == y);
                    assert(u.contains(y));
                    let m = choose|m: int| 0 <= m < u.len() && u[m] == y;
                    assert(t[m + 1] == y);
                } else {
                    assert(t[0] == y);
                }
            }
            if y == x {
                assert(u.contains(x));
                let m = choose|m: int| 0 <= m < u.len() && u[m] == x;
                assert(t[m + 1] == x);
            }
        }
    }
}

proof fn lemma_sort_contains<T>(s: Seq<T>, lt: spec_fn(T, T) -> bool)
    ensures
        sort_by_order(s, lt).len() == s.len(),
        forall|y: T| #[trigger] sort_by_order(s, lt).contains(y) <==> s.contains(y),
    decreases s.len(),
{
    if s.len() > 0 {
        let r = s.drop_last();
        lemma_sort_contains(r, lt);
        lemma_insert_by_contains(sort_by_order(r, lt), s.last(), lt);
        assert forall|y: T| #[trigger] sort_by_order(s, lt).contains(y) <==> s.contains(y) by {
            if r.contains(y) {
                let m = choose|m: int| 0 <= m < r.len() && r[m] == y;
                assert(s[m] == y);
            }
            if s.contains(y) {
                let m = choose|m: int| 0 <= m < s.len() && s[m] == y;
                if m < s.len() - 1 {
                    assert(r[m] == y);
                }
            }
        }
    }
}

proof fn lemma_raw_hits_scoped(
    ds: Seq<DocumentView>,
    ws: (Seq<char>, Seq<char>),
    terms: Seq<Seq<char>>,
    domains: Seq<SearchDomain>,
)
    ensures
        forall|h: crate::search::HitView| #[trigger] raw_hits(ds, ws, terms, domains).contains(h) ==> {
            &&& h.0.workspace == ws
            &&& h.3.len() > 0
            &&& exists|i: int| 0 <= i < ds.len() && ds[i].0 == h.0 && ds[i].1 == h.1
        },
    decreases ds.len(),
{
    if ds.len() > 0 {
        let r = ds.drop_last();
        lemma_raw_hits_scoped(r, ws, terms, domains);
        let prev = raw_hits(r, ws, terms, domains);
        let d = ds.last();
        let m = matched(d.2, terms, domains);
        assert forall|h: crate::search::HitView| #[trigger] raw_hits(ds, ws, terms, domains).contains(h) implies {
            &&& h.0.workspace == ws
            &&& h.3.len() > 0
            &&& exists|i: int| 0 <= i < ds.len() && ds[i].0 == h.0 && ds[i].1 == h.1
        } by {
            let all = raw_hits(ds, ws, terms, domains);
            let k = choose|k: int| 0 <= k < all.len() && all[k] == h;
            if d.0.workspace == ws && m.len() > 0 && k == prev.len() {
                assert(ds[ds.len() - 1].0 == h.0);
            } else {
                assert(prev[k] == h);
                assert(prev.contains(h));
                let i = choose|i: int| 0 <= i < r.len() && r[i].0 == h.0 && r[i].1 == h.1;
                assert(ds[i] == r[i]);
            }
        }
    }
}

/// A query answers only from its own workspace: every hit carries the exact binding and kind of
/// an indexed document of the query's workspace, at least one matching field, and there are at
/// most `limit` hits.
pub proof fn lemma_query_scoped(ds: Seq<DocumentView>, limits: SearchLimits, q: crate::search::QueryView)
    ensures
        query_spec(ds, limits, q) matches Ok(hs) ==> {
            &&& hs.len() <= q.limit
            &&& forall|k: int| 0 <= k < hs.len() ==> {
                &&& (#[trigger] hs[k]).0.workspace == q.workspace
                &&& hs[k].3.len() > 0
                &&& exists|i: int| 0 <= i < ds.len() && ds[i].0 == hs[k].0 && ds[i].1 == hs[k].1
            }
        },
{
    if query_fault(q, limits) is None {
        let raw = raw_hits(ds, q.workspace, query_terms(q.text), q.domains);
        let sorted = sort_by_order(raw, hit_order());
        lemma_raw_hits_scoped(ds, q.workspace, query_terms(q.text), q.domains);
        lemma_sort_contains(raw, hit_order());
        let hs = first_n(sorted, q.limit as int);
        assert forall|k: int| 0 <= k < hs.len() implies {
            &&& (#[trigger] hs[k]).0.workspace == q.workspace
            &&& hs[k].3.len() > 0
            &&& exists|i: int| 0 <= i < ds.len() && ds[i].0 == hs[k].0 && ds[i].1 == hs[k].1
        } by {
            assert(hs[k] == sorted[k]);
            assert(sorted.contains(sorted[k]));
            assert(raw.contains(sorted[k]));
        }
    }
}

/// `lt` is a strict total order.
pub open spec fn strict_total<T>(lt: spec_fn(T, T) -> bool) -> bool {
    &&& forall|a: T| !(#[trigger] lt(a, a))
    &&& forall|a: T, b: T, c: T| #[trigger] lt(a, b) && #[trigger] lt(b, c) ==> lt(a, c)
    &&& forall|a: T, b: T| #![trigger lt(a, b)] a != b ==> lt(a, b) || lt(b, a)
}

/// No element is ordered before an earlier one.
pub open spec fn sorted_by<T>(s: Seq<T>, lt: spec_fn(T, T) -> bool) -> bool {
    forall|i: int, j: int| 0 <= i < j < s.len() ==> !lt(#[trigger] s[j], #[trigger] s[i])
}

proof fn lemma_insert_by_sorted<T>(s: Seq<T>, x: T, lt: spec_fn(T, T) -> bool)
    requires
        strict_total(lt),
        sorted_by(s, lt),
    ensures
        sorted_by(insert_by(s, x, lt), lt),
        insert_by(s, x, lt).to_multiset() == s.to_multiset().insert(x),
    decreases s.len(),
{
    broadcast use vstd::seq_lib::group_to_multiset_ensures;
    broadcast use vstd::multiset::group_multiset_axioms;

    let t = insert_by(s, x, lt);
    if s.len() == 0 {
        assert(t =~= seq![x]);
        assert(t =~= s.insert(0, x));
    } else if lt(x, s[0]) {
        assert(t =~= s.insert(0, x));
        assert forall|i: int, j: int| 0 <= i < j < t.len() implies !lt(#[trigger] t[j], #[trigger] t[i]) by {
            if i == 0 {
                assert(t[j] == s[j - 1]);
                if lt(s[j - 1], x) {
                    assert(lt(s[j - 1], s[0]));
                    if j - 1 > 0 {
                        assert(!lt(s[j - 1], s[0]));
                    }
                }
            } else {
                assert(t[i] == s[i - 1] && t[j] == s[j - 1]);
            }
        }
    } else {
        let r = s.drop_first();
        assert forall|i: int, j: int| 0 <= i < j < r.len() implies !lt(#[trigger] r[j], #[trigger] r[i]) by {
            assert(r[i] == s[i + 1] && r[j] == s[j + 1]);
        }
        lemma_insert_by_sorted(r, x, lt);
        let u = insert_by(r, x, lt);
        assert(t =~= u.insert(0, s[0]));
        assert(s =~= r.insert(0, s[0]));
        assert forall|i: int, j: int| 0 <= i < j < t.len() implies !lt(#[trigger] t[j], #[trigger] t[i]) by {
            if i == 0 {
                let y = u[j - 1];
                assert(t[j] == y);
                assert(u.contains(y));
                assert(u.to_multiset().count(y) > 0);
                if y != x {
                    assert(r.to_multiset().count(y) > 0);
                    assert(r.contains(y));
                    let k = choose|k: int| 0 <= k < r.len() && r[k] == y;
                    assert(s[k + 1] == y);
                }
            } else {
                assert(t[i] == u[i - 1] && t[j] == u[j - 1]);
            }
        }
    }
}

proof fn lemma_sort_sorted<T>(s: Seq<T>, lt: spec_fn(T, T) -> bool)
    requires
        strict_total(lt),
    ensures
        sorted_by(sort_by_order(s, lt), lt),
        sort_by_order(s, lt).to_multiset() == s.to_multiset(),
    decreases s.len(),
{
    broadcast use vstd::seq_lib::group_to_multiset_ensures;

    if s.len() == 0 {
        assert(sort_by_order(s, lt) =~= s);
    } else {
        lemma_sort_sorted(s.drop_last(), lt);
        lemma_insert_by_sorted(sort_by_order(s.drop_last(), lt), s.last(), lt);
        assert(s =~= s.drop_last().push(s.last()));
    }
}

proof fn lemma_sorted_unique<T>(s: Seq<T>, t: Seq<T>, lt: spec_fn(T, T) -> bool)
    requires
        strict_total(lt),
        sorted_by(s, lt),
        sorted_by(t, lt),
        s.to_multiset() == t.to_multiset(),
    ensures
        s == t,
    decreases s.len(),
{
    broadcast use vstd::seq_lib::group_to_multiset_ensures;
    broadcast use vstd::multiset::group_multiset_axioms;

    vstd::seq_lib::to_multiset_len(s);
    vstd::seq_lib::to_multiset_len(t);
    assert(s.len() == t.len());
    if s.len() == 0 {
        assert(s =~= t);
    } else {
        assert(s.contains(s[0]));
        assert(t.to_multiset().count(s[0]) > 0);
        assert(t.contains(s[0]));
        assert(t.contains(t[0]));
        assert(s.to_multiset().count(t[0]) > 0);
        assert(s.contains(t[0]));
        if s[0] != t[0] {
            let k = choose|k: int| 0 <= k < t.len() && t[k] == s[0];
            let m = choose|m: int| 0 <= m < s.len() && s[m] == t[0];
            if lt(s[0], t[0]) {
                assert(!lt(t[k], t[0]));
            } else {
                assert(lt(t[0], s[0]));
                assert(!lt(s[m], s[0]));
            }
        }
        let s1 = s.remove(0);
        let t1 = t.remove(0);
        assert(s1 =~= s.drop_first());
        assert(t1 =~= t.drop_first());
        assert forall|i: int, j: int| 0 <= i < j < s1.len() implies !lt(#[trigger] s1[j], #[trigger] s1[i]) by {
            assert(s1[i] == s[i + 1] && s1[j] == s[j + 1]);
        }
        assert forall|i: int, j: int| 0 <= i < j < t1.len() implies !lt(#[trigger] t1[j], #[trigger] t1[i]) by {
            assert(t1[i] == t[i + 1] && t1[j] == t[j + 1]);
        }
        lemma_sorted_unique(s1, t1, lt);
        assert(s =~= seq![s[0]] + s1);
        assert(t =~= seq![t[0]] + t1);
    }
}

/// Sorting by a strict total order depends only on the elements, not on their input order.
pub proof fn lemma_sort_order_free<T>(s1: Seq<T>, s2: Seq<T>, lt: spec_fn(T, T) -> bool)
    requires
        strict_total(lt),
        s1.to_multiset() == s2.to_multiset(),
    ensures
        sort_by_order(s1, lt) == sort_by_order(s2, lt),
{
    lemma_sort_sorted(s1, lt);
    lemma_sort_sorted(s2, lt);
    lemma_sorted_unique(sort_by_order(s1, lt), sort_by_order(s2, lt), lt);
}

proof fn lemma_text_lt_facts(a: Seq<char>, b: Seq<char>, c: Seq<char>)
    ensures
        !text_lt(a, a),
        text_lt(a, b) && text_lt(b, c) ==> text_lt(a, c),
        a != b ==> text_lt(a, b) || text_lt(b, a),
{
    lemma_text_lt_irrefl(a);
    if text_lt(a, b) && text_lt(b, c) {
        lemma_text_lt_trans(a, b, c);
    }
    if a != b {
        lemma_text_lt_total(a, b);
    }
}

proof fn lemma_field_lt_facts(a: FieldView, b: FieldView, c: FieldView)
    ensures
        !field_lt(a, a),
        field_lt(a, b) && field_lt(b, c) ==> field_lt(a, c),
        a != b ==> field_lt(a, b) || field_lt(b, a),
{
    lemma_text_lt_facts(a.2, b.2, c.2);
    lemma_text_lt_facts(a.3, b.3, c.3);
    lemma_text_lt_facts(b.2, a.2, c.2);
    lemma_text_lt_facts(b.3, a.3, c.3);
    if a.1 is Some && b.1 is Some && c.1 is Some {
        lemma_text_lt_facts(a.1->0, b.1->0, c.1->0);
        lemma_text_lt_facts(b.1->0, a.1->0, c.1->0);
    } else if a.1 is Some && b.1 is Some {
        lemma_text_lt_facts(a.1->0, b.1->0, a.1->0);
        lemma_text_lt_facts(b.1->0, a.1->0, b.1->0);
    } else if a.1 is Some {
        lemma_text_lt_irrefl(a.1->0);
    }
    if a != b && a.0 == b.0 && a.1 == b.1 && a.2 == b.2 {
        assert(a.3 != b.3);
    }
}

/// The canonical field order is a strict total order.
pub proof fn lemma_field_order_total()
    ensures
        strict_total(field_order()),
{
    assert forall|a: FieldView| !(#[trigger] field_order()(a, a)) by {
        lemma_field_lt_facts(a, a, a);
    }
    assert forall|a: FieldView, b: FieldView, c: FieldView|
        #[trigger] field_order()(a, b) && #[trigger] field_order()(b, c) implies field_order()(a, c) by {
        lemma_field_lt_facts(a, b, c);
    }
    assert forall|a: FieldView, b: FieldView| #![trigger field_order()(a, b)] a != b implies field_order()(a, b)
        || field_order()(b, a) by {
        lemma_field_lt_facts(a, b, a);
    }
}

proof fn lemma_fields_fault_none(fs: Seq<FieldView>, n: int, limits: SearchLimits)
    requires
        0 <= n <= fs.len(),
    ensures
        fields_fault(fs, n, limits) is None <==> forall|i: int| 0 <= i < n ==> (#[trigger] field_fault(fs[i], limits)) is None,
    decreases n,
{
    if n > 0 {
        lemma_fields_fault_none(fs, n - 1, limits);
    }
}

/// Input order is not index identity: rebuilding from a reordering `ds2` of documents `ds1`
/// (`ds2[i]` has the binding and kind of `ds1[p[i]]` for a permutation `p`, and the same fields
/// in any order) gives the same canonical content, whenever `ds1` is accepted.
pub proof fn lemma_rebuild_reorder_free(
    ds1: Seq<DocumentView>,
    ds2: Seq<DocumentView>,
    p: Seq<int>,
    limits: SearchLimits,
)
    requires
        p.len() == ds1.len(),
        ds2.len() == ds1.len(),
        forall|i: int| 0 <= i < p.len() ==> 0 <= #[trigger] p[i] < ds1.len(),
        forall|i: int|
            0 <= i < p.len() ==> (#[trigger] ds2[i]).0 == ds1[p[i]].0 && ds2[i].1 == ds1[p[i]].1
                && ds2[i].2.to_multiset() == ds1[p[i]].2.to_multiset(),
        forall|i: int, j: int| 0 <= i < j < p.len() ==> #[trigger] p[i] != #[trigger] p[j],
        forall|k: int| 0 <= k < ds1.len() ==> #[trigger] p.contains(k),
        rebuild_spec(ds1, limits) is Ok,
    ensures
        rebuild_spec(ds2, limits) == rebuild_spec(ds1, limits),
{
    broadcast use vstd::seq_lib::group_to_multiset_ensures;

    let n = ds1.len() as int;
    let ds3 = Seq::new(ds1.len(), |i: int| ds1[p[i]]);
    lemma_rebuild_order_free(ds1, ds3, p, limits);
    lemma_documents_fault_none(ds3, n, limits);
    lemma_documents_fault_none(ds2, n, limits);
    lemma_field_order_total();
    assert forall|i: int| 0 <= i < n implies (#[trigger] document_fault(ds2[i], limits)) is None by {
        let d2 = ds2[i];
        let d3 = ds3[i];
        assert(document_fault(d3, limits) is None);
        assert(d3 == ds1[p[i]]);
        assert(d2.2.to_multiset() == d3.2.to_multiset());
        assert(d2.2.to_multiset().len() == d3.2.to_multiset().len());
        assert(d2.2.len() == d3.2.len());
        lemma_fields_fault_none(d3.2, d3.2.len() as int, limits);
        lemma_fields_fault_none(d2.2, d2.2.len() as int, limits);
        assert forall|k: int| 0 <= k < d2.2.len() implies (#[trigger] field_fault(d2.2[k], limits)) is None by {
            assert(d2.2.contains(d2.2[k]));
            assert(d3.2.to_multiset().count(d2.2[k]) > 0);
            assert(d3.2.contains(d2.2[k]));
            let m = choose|m: int| 0 <= m < d3.2.len() && d3.2[m] == d2.2[k];
        }
    }
    assert(!has_duplicate(ds3));
    assert forall|i: int, j: int| 0 <= i < j < ds2.len() implies !(#[trigger] document_key(ds2[i].0, ds2[i].1)
        == #[trigger] document_key(ds2[j].0, ds2[j].1)) by {
        assert(ds2[i].0 == ds3[i].0 && ds2[i].1 == ds3[i].1);
        assert(ds2[j].0 == ds3[j].0 && ds2[j].1 == ds3[j].1);
        assert(!(document_key(ds3[i].0, ds3[i].1) == document_key(ds3[j].0, ds3[j].1)));
    }
    let c2 = ds2.map_values(|d: DocumentView| canonical_document(d));
    let c3 = ds3.map_values(|d: DocumentView| canonical_document(d));
    assert forall|i: int| 0 <= i < n implies #[trigger] c2[i] == c3[i] by {
        lemma_sort_order_free(ds2[i].2, ds3[i].2, field_order());
    }
    assert(c2 =~= c3);
}

} // verus!
