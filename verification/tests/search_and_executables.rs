use ptah_archive_decomposition::digest::sha256_hex;
use ptah_archive_decomposition::document::{AnchoredText, SourceAnchor};
use ptah_archive_decomposition::executable::{
    AdapterEmbeddedChild, AdapterExecutable, B05Error, ExecutableAdapter, ExecutableClass, ExecutableContext,
    ExecutableLimits, ExecutableSection, StaticIsolation, StaticIsolationPolicy,
};
use ptah_archive_decomposition::executable_inspect::inspect_executable;
use ptah_archive_decomposition::identity::EntityRef;
use ptah_archive_decomposition::search::{
    document_text_search_document, filename_metadata_document, log_search_document, SearchDocumentKind,
    SearchDomain, SearchError, SearchIndex, SearchLimits, SearchQuery, SearchSourceBinding,
};
use ptah_archive_decomposition::typing::{
    logical_parent, normalize_archive_types, SearchMetadata, TypeAgreement, TypeAssessment, TypeDetector, TypeSignal,
    assess_type,
};

fn ref_json(id: &str, kind: &str) -> String {
    format!("{{\"entity_id\":\"{id}\",\"entity_kind\":\"{kind}\"}}")
}

fn bound(workspace: &str, source: &str, revision: u64, object: bool) -> SearchSourceBinding {
    SearchSourceBinding {
        workspace_ref: EntityRef::new(workspace, "core.workspace"),
        source_ref: EntityRef::new(source, "object.object"),
        source_record_revision: revision,
        object_revision_ref: if object { Some(EntityRef::new("rev-1", "object.revision")) } else { None },
        workspace_key: ref_json(workspace, "core.workspace"),
        source_key: ref_json(source, "object.object"),
        object_revision_key: if object { Some(ref_json("rev-1", "object.revision")) } else { None },
    }
}

fn binding(object: bool) -> SearchSourceBinding {
    bound("ws-1", "obj-1", 3, object)
}

#[test]
fn log_documents_copy_each_value() {
    let doc = log_search_document(binding(false), &["started".to_string(), "stopped".to_string()]).ok().unwrap();
    assert_eq!(doc.kind, SearchDocumentKind::Log);
    assert_eq!(doc.fields.len(), 2);
    assert_eq!(doc.fields[1].domain, SearchDomain::Log);
    assert_eq!(doc.fields[1].key.as_deref(), Some("log"));
    assert_eq!(doc.fields[1].value, "stopped");
    assert_eq!(doc.fields[1].evidence_source, "log.adapter");
    assert!(matches!(log_search_document(binding(false), &[]), Err(SearchError::InvalidText("search values"))));
    assert!(matches!(
        log_search_document(binding(false), &[" padded".to_string()]),
        Err(SearchError::InvalidText("search value"))
    ));
    let mut b = binding(false);
    b.source_record_revision = 0;
    assert!(matches!(log_search_document(b, &["x".to_string()]), Err(SearchError::InvalidSourceRecordRevision)));
}

#[test]
fn filename_metadata_document_keys_by_path() {
    let metadata = vec![
        SearchMetadata { path: None, key: "media_type".to_string(), value: "text/plain".to_string(), source: "b02".to_string() },
        SearchMetadata {
            path: Some("dir/a.txt".to_string()),
            key: "byte_size".to_string(),
            value: "12".to_string(),
            source: "a12".to_string(),
        },
    ];
    let doc = filename_metadata_document(binding(false), Some("archive.zip".to_string()), &metadata).ok().unwrap();
    assert_eq!(doc.kind, SearchDocumentKind::ObjectMetadata);
    assert_eq!(doc.fields.len(), 3);
    assert_eq!(doc.fields[0].domain, SearchDomain::Filename);
    assert_eq!(doc.fields[0].evidence_source, "caller.filename");
    assert_eq!(doc.fields[2].key.as_deref(), Some("dir/a.txt:byte_size"));
    assert!(matches!(
        filename_metadata_document(binding(false), None, &[]),
        Err(SearchError::InvalidText("filename/metadata"))
    ));
}

#[test]
fn document_text_requires_matching_anchors() {
    let spans = vec![AnchoredText {
        text: "hello world".to_string(),
        anchor: SourceAnchor {
            source_revision_ref: EntityRef::new("rev-1", "object.revision"),
            byte_start: Some(4),
            byte_end_exclusive: Some(15),
            page: Some(2),
        },
    }];
    let doc = document_text_search_document(binding(true), &spans).ok().unwrap();
    assert_eq!(doc.fields[0].key.as_deref(), Some("page:2"));
    assert_eq!(doc.fields[0].evidence_source, "b03.anchored_text");
    assert!(matches!(document_text_search_document(binding(false), &spans), Err(SearchError::InvalidObjectRevisionRef)));
    let other = vec![AnchoredText {
        text: "x".to_string(),
        anchor: SourceAnchor {
            source_revision_ref: EntityRef::new("rev-2", "object.revision"),
            byte_start: Some(0),
            byte_end_exclusive: None,
            page: None,
        },
    }];
    assert!(matches!(document_text_search_document(binding(true), &other), Err(SearchError::AnchorMismatch)));
}

#[test]
fn index_lifecycle() {
    let mut index = SearchIndex::new(SearchLimits::default()).ok().unwrap();
    let snap = index.snapshot();
    assert_eq!(snap.revision, 0);
    assert_eq!(snap.document_count, 0);
    assert_eq!(snap.content_sha256, sha256_hex(b""));
    let cleared = index.clear().ok().unwrap();
    assert_eq!(cleared.revision, 1);
    assert_eq!(cleared.document_count, 0);
    let mut limits = SearchLimits::default();
    limits.max_results = 0;
    assert!(matches!(SearchIndex::new(limits), Err(SearchError::InvalidLimits)));
}

struct ElfAdapter {
    isolation: StaticIsolation,
    children: usize,
}

impl ExecutableAdapter for ElfAdapter {
    fn adapter_id(&self) -> &str {
        " elf-static "
    }

    fn supports_media_type(&self, media_type: &str) -> bool {
        media_type == "application/x-elf"
    }

    fn isolation(&self) -> StaticIsolation {
        self.isolation
    }

    fn inspect(&self, source: &[u8], _media_type: &str, _limits: ExecutableLimits) -> Result<AdapterExecutable, String> {
        Ok(AdapterExecutable {
            metadata: Vec::new(),
            sections: vec![
                ExecutableSection { name: ".text".to_string(), offset: 0, size: 4, flags: vec!["x".to_string()], packed_or_unknown: false },
                ExecutableSection { name: ".upx".to_string(), offset: 4, size: 2, flags: Vec::new(), packed_or_unknown: true },
            ],
            imports: vec!["printf".to_string()],
            exports: Vec::new(),
            signatures: Vec::new(),
            children: (0..self.children)
                .map(|i| AdapterEmbeddedChild {
                    logical_path: format!("res/{i}.bin"),
                    media_type: " Application/Octet-Stream ".to_string(),
                    bytes: vec![1, 2, 3],
                })
                .collect(),
            observed_source_bytes: source.len() as u64,
            complete_claim: true,
            unknown_regions: Vec::new(),
            warnings: Vec::new(),
            limitations: Vec::new(),
        })
    }
}

fn elf_assessment() -> TypeAssessment {
    TypeAssessment {
        declared_type: None,
        detector_evidence: Vec::new(),
        agreement: TypeAgreement::Agreed("Application/X-ELF".to_string()),
        declared_matches_agreed_type: None,
    }
}

fn exec_context() -> ExecutableContext {
    ExecutableContext {
        workspace_ref: EntityRef::new("ws-1", "core.workspace"),
        authority_ref: EntityRef::new("auth-1", "core.authority"),
        source_revision_ref: EntityRef::new("rev-1", "object.revision"),
    }
}

#[test]
fn executable_inspection_records_packed_sections_and_children() {
    let adapter = ElfAdapter { isolation: StaticIsolation::passive(), children: 3 };
    let mut limits = ExecutableLimits::default();
    limits.max_children = 2;
    let report = inspect_executable(b"\x7fELF\x00\x00", &elf_assessment(), &exec_context(), limits, &[&adapter]).ok().unwrap();
    assert_eq!(report.executable_class, Some(ExecutableClass::Elf));
    assert_eq!(report.adapter_id.as_deref(), Some("elf-static"));
    assert_eq!(report.sections.len(), 2);
    assert_eq!(report.children.len(), 2);
    assert_eq!(report.children[0].media_type, "application/octet-stream");
    assert_eq!(report.children[0].sha256, sha256_hex(&[1, 2, 3]));
    assert_eq!(report.coverage.retained_child_bytes, 6);
    assert!(!report.coverage.complete_claim);
    assert_eq!(
        report.coverage.unknown_regions,
        vec![
            "section .upx is packed or statically unknown".to_string(),
            "embedded children exceeded max_children".to_string(),
        ]
    );
}

#[test]
fn executable_inspection_refuses_unsafe_adapters() {
    let unsafe_isolation = StaticIsolation {
        code_execution: StaticIsolationPolicy::Allowed,
        network_access: StaticIsolationPolicy::Denied,
        external_resource_loading: StaticIsolationPolicy::Denied,
    };
    let adapter = ElfAdapter { isolation: unsafe_isolation, children: 0 };
    let r = inspect_executable(b"\x7fELF", &elf_assessment(), &exec_context(), ExecutableLimits::default(), &[&adapter]);
    assert!(matches!(r, Err(B05Error::UnsafeAdapterIsolation(id)) if id == "elf-static"));
    let a = ElfAdapter { isolation: StaticIsolation::passive(), children: 0 };
    let b = ElfAdapter { isolation: StaticIsolation::passive(), children: 0 };
    let r = inspect_executable(b"\x7fELF", &elf_assessment(), &exec_context(), ExecutableLimits::default(), &[&a, &b]);
    assert!(matches!(r, Err(B05Error::DuplicateAdapterId(id)) if id == "elf-static"));
}

#[test]
fn executable_inspection_outside_domain_is_a_gap() {
    let assessment = TypeAssessment {
        declared_type: None,
        detector_evidence: Vec::new(),
        agreement: TypeAgreement::Agreed("text/plain".to_string()),
        declared_matches_agreed_type: None,
    };
    let adapter = ElfAdapter { isolation: StaticIsolation::passive(), children: 0 };
    let report = inspect_executable(b"hi", &assessment, &exec_context(), ExecutableLimits::default(), &[&adapter]).ok().unwrap();
    assert_eq!(report.executable_class, None);
    assert_eq!(
        report.coverage.unknown_regions,
        vec!["B02 agreed type text/plain is outside the B05 executable/application-package domain".to_string()]
    );
}

struct Fixed(&'static str, Option<&'static str>);

impl TypeDetector for Fixed {
    fn detector_id(&self) -> &str {
        self.0
    }

    fn detect(&self, _bytes: &[u8]) -> Result<Option<TypeSignal>, String> {
        Ok(self.1.map(|t| TypeSignal { media_type: t.to_string(), confidence_milli: 900, detail: "magic".to_string() }))
    }
}

#[test]
fn type_agreement_and_dispute() {
    let a = Fixed("magic", Some("Application/Zip"));
    let b = Fixed("ext", Some("application/zip"));
    let agreed = assess_type(b"PK", None, &[&a, &b]);
    assert!(matches!(&agreed.agreement, TypeAgreement::Agreed(t) if t == "application/zip"));
    let c = Fixed("other", Some("application/x-tar"));
    let disputed = assess_type(b"PK", None, &[&a, &c]);
    assert!(matches!(&disputed.agreement, TypeAgreement::Disputed(v) if v.len() == 2));
    let none = Fixed("none", None);
    assert!(matches!(assess_type(b"", None, &[&none]).agreement, TypeAgreement::Unknown));
}

#[test]
fn archive_type_normalization_and_parents() {
    let v = normalize_archive_types(&vec![" Application/Zip".to_string(), "application/zip".to_string(), "application/x-tar".to_string()])
        .ok()
        .unwrap();
    assert_eq!(v, vec!["application/zip".to_string(), "application/x-tar".to_string()]);
    assert!(normalize_archive_types(&vec!["  ".to_string()]).is_err());
    assert_eq!(logical_parent("a/b/c.txt").as_deref(), Some("a/b"));
    assert_eq!(logical_parent("c.txt"), None);
}

fn query(text: &str, domains: Vec<SearchDomain>, limit: usize) -> SearchQuery {
    SearchQuery { workspace_ref: EntityRef::new("ws-1", "core.workspace"), text: text.to_string(), domains, limit }
}

fn logs(source: &str, values: &[&str]) -> ptah_archive_decomposition::search::SearchDocument {
    let values: Vec<String> = values.iter().map(|v| v.to_string()).collect();
    log_search_document(bound("ws-1", source, 1, false), &values).ok().unwrap()
}

#[test]
fn rebuild_orders_documents_and_advances_revision() {
    let mut index = SearchIndex::new(SearchLimits::default()).ok().unwrap();
    let a = index.rebuild(&[logs("obj-b", &["beta"]), logs("obj-a", &["alpha", "Zulu"])]).ok().unwrap();
    assert_eq!(a.revision, 1);
    assert_eq!(a.document_count, 2);
    assert_eq!(a.content_sha256.len(), 64);
    let b = index.rebuild(&[logs("obj-a", &["Zulu", "alpha"]), logs("obj-b", &["beta"])]).ok().unwrap();
    assert_eq!(b.revision, 2);
    assert_eq!(a.content_sha256, b.content_sha256);
    let empty = index.rebuild(&[]).ok().unwrap();
    assert_eq!(empty.document_count, 0);
    assert_ne!(empty.content_sha256, sha256_hex(b""));
}

#[test]
fn rebuild_fails_closed_and_keeps_content() {
    let mut index = SearchIndex::new(SearchLimits::default()).ok().unwrap();
    let first = index.rebuild(&[logs("obj-a", &["alpha"])]).ok().unwrap();
    let r = index.rebuild(&[logs("obj-a", &["alpha"]), logs("obj-a", &["other"])]);
    assert!(matches!(r, Err(SearchError::DuplicateDocument)));
    let mut bad = logs("obj-c", &["x"]);
    bad.fields[0].value = " padded".to_string();
    assert!(matches!(index.rebuild(&[bad]), Err(SearchError::InvalidText("field value"))));
    let mut limits = SearchLimits::default();
    limits.max_documents = 1;
    let mut small = SearchIndex::new(limits).ok().unwrap();
    let r = small.rebuild(&[logs("obj-a", &["a"]), logs("obj-b", &["b"])]);
    assert!(matches!(r, Err(SearchError::TooManyDocuments)));
    let snap = index.snapshot();
    assert_eq!(snap.revision, first.revision);
    assert_eq!(snap.content_sha256, first.content_sha256);
    assert_eq!(snap.document_count, 1);
}

#[test]
fn query_matches_all_terms_case_insensitively() {
    let mut index = SearchIndex::new(SearchLimits::default()).ok().unwrap();
    index
        .rebuild(&[
            logs("obj-a", &["Kernel PANIC at boot", "kernel ok"]),
            logs("obj-b", &["panic in KERNEL module"]),
            logs("obj-c", &["nothing here"]),
        ])
        .ok()
        .unwrap();
    let resp = index.query(&query("kernel  panic", Vec::new(), 10)).ok().unwrap();
    assert_eq!(resp.index.revision, 1);
    assert_eq!(resp.hits.len(), 2);
    assert_eq!(resp.hits[0].source.source_ref.entity_id, "obj-a");
    assert_eq!(resp.hits[0].score, 1);
    assert_eq!(resp.hits[0].matches[0].value, "Kernel PANIC at boot");
    assert_eq!(resp.hits[1].source.source_ref.entity_id, "obj-b");
    let resp = index.query(&query("kernel", Vec::new(), 10)).ok().unwrap();
    assert_eq!(resp.hits[0].source.source_ref.entity_id, "obj-a");
    assert_eq!(resp.hits[0].score, 2);
    let resp = index.query(&query("kernel", Vec::new(), 1)).ok().unwrap();
    assert_eq!(resp.hits.len(), 1);
    let resp = index.query(&query("kernel", vec![SearchDomain::Filename], 10)).ok().unwrap();
    assert!(resp.hits.is_empty());
    let resp = index.query(&query("log kernel", vec![SearchDomain::Log], 10)).ok().unwrap();
    assert_eq!(resp.hits.len(), 2);
}

#[test]
fn query_is_workspace_scoped_and_validated() {
    let mut index = SearchIndex::new(SearchLimits::default()).ok().unwrap();
    let other = log_search_document(bound("ws-2", "obj-z", 1, false), &["kernel".to_string()]).ok().unwrap();
    index.rebuild(&[logs("obj-a", &["kernel"]), other]).ok().unwrap();
    let resp = index.query(&query("kernel", Vec::new(), 10)).ok().unwrap();
    assert_eq!(resp.hits.len(), 1);
    assert!(matches!(index.query(&query(" kernel", Vec::new(), 10)), Err(SearchError::InvalidQuery)));
    assert!(matches!(index.query(&query("kernel", Vec::new(), 0)), Err(SearchError::InvalidResultLimit)));
    assert!(matches!(index.query(&query("kernel", Vec::new(), 1001)), Err(SearchError::InvalidResultLimit)));
    let mut q = query("kernel", Vec::new(), 10);
    q.workspace_ref = EntityRef::new("ws-1", "core.other");
    assert!(matches!(index.query(&q), Err(SearchError::InvalidWorkspaceRef)));
}
