use ptah_archive_decomposition::archive_model::{
    DecompositionBudget, DecompositionOutcome, MemberKind, ParseReport, ParseTerminal, ParsedMember,
};
use ptah_archive_decomposition::archive_policy::{ArchiveBackend, BackendIdentity, DecompositionError, DecompositionSpec};
use ptah_archive_decomposition::identity::EntityRef;
use ptah_archive_decomposition::progressive::{progressive_decompose, ProgressiveSpec};
use ptah_archive_decomposition::typing::{B02Error, ProgressiveLevel, TypeAgreement, TypeDetector, TypeSignal};

struct Detector {
    id: &'static str,
    media_type: &'static str,
}

impl TypeDetector for Detector {
    fn detector_id(&self) -> &str {
        self.id
    }

    fn detect(&self, bytes: &[u8]) -> Result<Option<TypeSignal>, String> {
        if bytes == b"ROOT" {
            Ok(Some(TypeSignal { media_type: self.media_type.to_string(), confidence_milli: 900, detail: String::new() }))
        } else {
            Ok(None)
        }
    }
}

struct Backend;

impl ArchiveBackend for Backend {
    fn identity(&self) -> BackendIdentity {
        BackendIdentity {
            provider_ref: EntityRef::new("provider-1", "core.provider"),
            provider_generation: 1,
            implementation: "fake".to_string(),
            implementation_version: "1".to_string(),
            source_sha256: "0".repeat(64),
            executable_sha256: "1".repeat(64),
        }
    }

    fn parse(&self, bytes: &[u8]) -> Result<ParseReport, DecompositionError> {
        let members = if bytes == b"ROOT" {
            vec![
                ParsedMember { path: "dir".to_string(), kind: MemberKind::Directory, bytes: Vec::new() },
                ParsedMember { path: "dir/a.txt".to_string(), kind: MemberKind::Regular, bytes: b"hello".to_vec() },
            ]
        } else {
            Vec::new()
        };
        let terminal = if bytes == b"ROOT" { ParseTerminal::Complete } else { ParseTerminal::Opaque };
        Ok(ParseReport { format: None, members, terminal, warnings: Vec::new(), limitations: Vec::new() })
    }
}

fn spec(level: ProgressiveLevel, archive_types: &[&str]) -> ProgressiveSpec {
    ProgressiveSpec {
        declared_type: Some(" Application/ZIP ".to_string()),
        requested_level: level,
        archive_media_types: archive_types.iter().map(|s| s.to_string()).collect(),
        archive_spec: DecompositionSpec {
            workspace_ref: EntityRef::new("ws-1", "core.workspace"),
            authority_ref: EntityRef::new("auth-1", "core.authority"),
            source_revision_ref: EntityRef::new("rev-1", "object.revision"),
            budget: DecompositionBudget::default(),
            requested_level: "L3_decomposed".to_string(),
        },
    }
}

const ZIP: Detector = Detector { id: "magic", media_type: "application/zip" };

#[test]
fn level_zero_reports_declared_type_only() {
    let r = progressive_decompose(b"ROOT", &spec(ProgressiveLevel::L0, &[]), &[&ZIP], None::<&Backend>).ok().unwrap();
    assert_eq!(r.achieved_level, ProgressiveLevel::L0);
    assert_eq!(r.type_assessment.declared_type.as_deref(), Some("application/zip"));
    assert!(r.type_assessment.detector_evidence.is_empty());
    assert!(matches!(r.type_assessment.agreement, TypeAgreement::Unknown));
}

#[test]
fn level_one_aggregates_detectors() {
    let r = progressive_decompose(b"ROOT", &spec(ProgressiveLevel::L1, &[]), &[&ZIP], None::<&Backend>).ok().unwrap();
    assert_eq!(r.achieved_level, ProgressiveLevel::L1);
    assert_eq!(r.type_assessment.agreed_type(), Some("application/zip"));
    assert_eq!(r.type_assessment.declared_matches_agreed_type, Some(true));
    assert!(r.children.is_empty());
}

#[test]
fn unsupported_progression_is_explicit() {
    let other = Detector { id: "other", media_type: "application/x-tar" };
    let r = progressive_decompose(b"ROOT", &spec(ProgressiveLevel::L2, &["application/zip"]), &[&ZIP, &other], None::<&Backend>)
        .ok()
        .unwrap();
    assert_eq!(r.achieved_level, ProgressiveLevel::L1);
    assert_eq!(r.unsupported_regions.len(), 1);
    assert!(r.unsupported_regions[0].starts_with("detector disagreement prevents decomposer selection: "));

    let r = progressive_decompose(b"other", &spec(ProgressiveLevel::L2, &["application/zip"]), &[&ZIP], None::<&Backend>)
        .ok()
        .unwrap();
    assert_eq!(r.unsupported_regions, vec!["no detector established an agreed source type".to_string()]);

    let r = progressive_decompose(b"ROOT", &spec(ProgressiveLevel::L2, &["application/x-tar"]), &[&ZIP], None::<&Backend>)
        .ok()
        .unwrap();
    assert_eq!(r.unsupported_regions, vec!["no B02 decomposer is registered for agreed type application/zip".to_string()]);

    let r = progressive_decompose(b"ROOT", &spec(ProgressiveLevel::L2, &["Application/Zip"]), &[&ZIP], None::<&Backend>)
        .ok()
        .unwrap();
    assert_eq!(r.unsupported_regions, vec!["archive decomposer unavailable for agreed type application/zip".to_string()]);
    assert_eq!(r.archive_outcome, None);
}

#[test]
fn level_three_projects_children() {
    let r = progressive_decompose(b"ROOT", &spec(ProgressiveLevel::L3, &["application/zip"]), &[&ZIP], Some(&Backend))
        .ok()
        .unwrap();
    assert_eq!(r.archive_outcome, Some(DecompositionOutcome::Complete));
    assert_eq!(r.achieved_level, ProgressiveLevel::L3);
    assert_eq!(r.children.len(), 2);
    assert_eq!(r.children[1].child_path, "dir/a.txt");
    assert_eq!(r.children[1].parent_path.as_deref(), Some("dir"));
    assert_eq!(r.children[0].parent_path, None);
    assert!(r.children[0].type_assessment.is_none());
    assert!(matches!(r.children[1].type_assessment.as_ref().unwrap().agreement, TypeAgreement::Unknown));
}

#[test]
fn level_two_stops_at_inventory() {
    let r = progressive_decompose(b"ROOT", &spec(ProgressiveLevel::L2, &["application/zip"]), &[&ZIP], Some(&Backend))
        .ok()
        .unwrap();
    assert_eq!(r.achieved_level, ProgressiveLevel::L2);
    assert_eq!(r.children.len(), 2);
}

#[test]
fn configuration_errors() {
    let r = progressive_decompose(b"ROOT", &spec(ProgressiveLevel::L1, &["  "]), &[&ZIP], None::<&Backend>);
    assert!(matches!(r, Err(B02Error::EmptyArchiveMediaType)));
    let r = progressive_decompose(b"ROOT", &spec(ProgressiveLevel::L1, &[]), &[&ZIP, &ZIP], None::<&Backend>);
    assert!(matches!(r, Err(B02Error::DuplicateDetectorId(_))));
    let mut s = spec(ProgressiveLevel::L3, &["application/zip"]);
    s.archive_spec.budget.max_members = 0;
    let r = progressive_decompose(b"ROOT", &s, &[&ZIP], Some(&Backend));
    assert!(matches!(r, Err(B02Error::Archive(DecompositionError::InvalidBudget("max_members")))));
}

struct NestedBackend;

impl ArchiveBackend for NestedBackend {
    fn identity(&self) -> BackendIdentity {
        Backend.identity()
    }

    fn parse(&self, bytes: &[u8]) -> Result<ParseReport, DecompositionError> {
        let members = if bytes == b"ROOT" {
            vec![ParsedMember { path: "inner.zip".to_string(), kind: MemberKind::Regular, bytes: b"ROOT".to_vec() }]
        } else {
            Vec::new()
        };
        Ok(ParseReport { format: None, members, terminal: ParseTerminal::Complete, warnings: Vec::new(), limitations: Vec::new() })
    }
}

#[test]
fn recursion_limit_at_decomposable_child_is_recorded() {
    let mut s = spec(ProgressiveLevel::L3, &["application/zip"]);
    s.archive_spec.budget.max_depth = 0;
    let r = progressive_decompose(b"ROOT", &s, &[&ZIP], Some(&NestedBackend)).ok().unwrap();
    let note = "recursion limit 0 reached at decomposable child inner.zip".to_string();
    assert_eq!(r.unsupported_regions, vec![note.clone()]);
    assert_eq!(r.limitations, vec![note]);
    assert_eq!(r.achieved_level, ProgressiveLevel::L3);
}

#[test]
fn level_zero_without_detectors_succeeds() {
    let r = progressive_decompose(b"ROOT", &spec(ProgressiveLevel::L0, &["application/zip"]), &[], None::<&Backend>)
        .ok()
        .unwrap();
    assert_eq!(r.achieved_level, ProgressiveLevel::L0);
    assert!(r.children.is_empty());
    assert_eq!(r.archive_outcome, None);
    assert_eq!(r.source_sha256.len(), 64);
}

#[test]
fn blank_detector_identity_is_refused() {
    let blank = Detector { id: "  ", media_type: "application/zip" };
    let r = progressive_decompose(b"ROOT", &spec(ProgressiveLevel::L0, &[]), &[&blank], None::<&Backend>);
    assert!(matches!(r, Err(B02Error::EmptyDetectorId)));
}
