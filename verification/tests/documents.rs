use ptah_archive_decomposition::digest::sha256_hex;
use ptah_archive_decomposition::document::{
    AdapterDocument, B03Error, DocumentContext, DocumentIsolation, DocumentLimits, DocumentMetadata,
};
use ptah_archive_decomposition::document_inspect::document_report_from_answer;
use ptah_archive_decomposition::identity::EntityRef;

fn context() -> DocumentContext {
    DocumentContext {
        workspace_ref: EntityRef::new("ws-1", "core.workspace"),
        authority_ref: EntityRef::new("auth-1", "core.authority"),
        source_revision_ref: EntityRef::new("rev-1", "object.revision"),
    }
}

fn plain_output() -> AdapterDocument {
    AdapterDocument {
        metadata: vec![DocumentMetadata { key: "title".to_string(), value: "Notes".to_string() }],
        text: Vec::new(),
        pages: Vec::new(),
        conversion: None,
        active_content_observed: false,
        complete_claim: true,
        warnings: Vec::new(),
        limitations: Vec::new(),
    }
}

#[test]
fn document_answer_becomes_bound_report() {
    let source = b"plain notes";
    let report = document_report_from_answer(
        source,
        &context(),
        DocumentLimits::default(),
        &"text/plain".to_string(),
        " notes-adapter ",
        DocumentIsolation::passive(),
        Ok(plain_output()),
        sha256_hex(source),
    )
    .ok()
    .unwrap();
    assert_eq!(report.adapter_id.as_deref(), Some("notes-adapter"));
    assert_eq!(report.agreed_media_type.as_deref(), Some("text/plain"));
    assert_eq!(report.source_sha256, sha256_hex(source));
    assert_eq!(report.metadata.len(), 1);
}

#[test]
fn document_answer_failure_is_reported() {
    let r = document_report_from_answer(
        b"x",
        &context(),
        DocumentLimits::default(),
        &"text/plain".to_string(),
        "notes-adapter",
        DocumentIsolation::passive(),
        Err("cannot parse".to_string()),
        sha256_hex(b"x"),
    );
    assert!(matches!(r, Err(B03Error::AdapterFailed(m)) if m == "cannot parse"));
}
