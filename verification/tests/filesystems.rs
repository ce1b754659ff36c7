use ptah_archive_decomposition::digest::sha256_hex;
use ptah_archive_decomposition::filesystem::{
    detect_filesystem, validate_path, C02Error, FilesystemAssessment, FilesystemContentState, FilesystemContext,
    FilesystemCoverageKind, FilesystemCoverageRange, FilesystemEntry, FilesystemEntryKind, FilesystemExtent,
    FilesystemKind, FilesystemLimits, FilesystemProviderAlias,
};
use ptah_archive_decomposition::filesystem_inspect::{
    inspect_filesystem, materialize_filesystem_file, FilesystemProvider, ProviderFilesystemObservation,
};
use ptah_archive_decomposition::identity::EntityRef;
use ptah_archive_decomposition::text_map::TextMap;

fn context() -> FilesystemContext {
    FilesystemContext {
        workspace_ref: EntityRef::new("ws-1", "core.workspace"),
        authority_ref: EntityRef::new("auth-1", "core.authority"),
        source_revision_ref: EntityRef::new("rev-1", "object.revision"),
    }
}

fn ext4_image() -> Vec<u8> {
    let mut img = vec![0u8; 4096];
    img[1080] = 0x53;
    img[1081] = 0xef;
    for (i, b) in img[2048..2058].iter_mut().enumerate() {
        *b = b'a' + i as u8;
    }
    img
}

struct ExtProvider {
    kind: FilesystemKind,
    claim_complete: bool,
    digest: String,
}

impl FilesystemProvider for ExtProvider {
    fn alias(&self) -> FilesystemProviderAlias {
        FilesystemProviderAlias {
            provider_id: "ext-test".to_string(),
            provider_revision: "1".to_string(),
            generation: 1,
            mount_id: None,
        }
    }

    fn supports(&self, kind: FilesystemKind) -> bool {
        kind == FilesystemKind::Ext4
    }

    fn inspect(
        &self,
        _source: &[u8],
        _kind: FilesystemKind,
        _limits: FilesystemLimits,
    ) -> Result<ProviderFilesystemObservation, String> {
        Ok(ProviderFilesystemObservation {
            filesystem_kind: self.kind,
            complete_claim: self.claim_complete,
            entries: vec![
                FilesystemEntry {
                    path: "etc".to_string(),
                    kind: FilesystemEntryKind::Directory,
                    size: 0,
                    content_state: FilesystemContentState::MetadataOnly,
                    extents: Vec::new(),
                    content_sha256: None,
                    metadata: TextMap::new(),
                    limitations: vec!["directory".to_string()],
                },
                FilesystemEntry {
                    path: "etc/hosts".to_string(),
                    kind: FilesystemEntryKind::File,
                    size: 16,
                    content_state: FilesystemContentState::Exact,
                    extents: vec![
                        FilesystemExtent::Data { source_start: 2048, source_end_exclusive: 2058 },
                        FilesystemExtent::Zero { length: 6 },
                    ],
                    content_sha256: Some(self.digest.clone()),
                    metadata: TextMap::new(),
                    limitations: Vec::new(),
                },
            ],
            coverage: vec![FilesystemCoverageRange {
                byte_start: 2048,
                byte_end_exclusive: 2058,
                kind: FilesystemCoverageKind::Read,
            }],
            metadata: TextMap::new(),
            limitations: Vec::new(),
        })
    }
}

fn hosts_content() -> Vec<u8> {
    let mut v: Vec<u8> = (0..10u8).map(|i| b'a' + i).collect();
    v.extend_from_slice(&[0u8; 6]);
    v
}

fn provider() -> ExtProvider {
    ExtProvider { kind: FilesystemKind::Ext4, claim_complete: false, digest: sha256_hex(&hosts_content()) }
}

#[test]
fn signatures_are_detected() {
    assert_eq!(detect_filesystem(&ext4_image()).kind, FilesystemKind::Ext4);
    assert_eq!(detect_filesystem(b"hsqs and more").kind, FilesystemKind::SquashFs);
    assert_eq!(detect_filesystem(b"UBI#").kind, FilesystemKind::Ubi);
    let unknown = detect_filesystem(&[0u8; 64]);
    assert_eq!(unknown.kind, FilesystemKind::Unknown);
    assert_eq!(unknown.evidence, vec!["no required C02 filesystem signature recognized".to_string()]);
    assert_eq!(FilesystemKind::Ext4.as_str(), "ext4");
}

#[test]
fn unsafe_paths_are_rejected() {
    let l = FilesystemLimits::default();
    assert!(validate_path("etc/hosts", l).is_ok());
    for bad in ["", "/etc", "\\x", "a\\b", "a\0b", "C:/x", "a//b", "a/./b", "../a", "a/"] {
        assert!(matches!(validate_path(bad, l), Err(C02Error::UnsafePath)), "{bad:?}");
    }
}

#[test]
fn inspection_without_provider_is_inconclusive() {
    let img = ext4_image();
    let r = inspect_filesystem(&img, &context(), FilesystemLimits::default(), None::<&ExtProvider>).ok().unwrap();
    assert_eq!(r.assessment, FilesystemAssessment::Inconclusive);
    assert_eq!(r.detection.kind, FilesystemKind::Ext4);
    assert!(r.entries.is_empty());
    assert_eq!(r.coverage.len(), 1);
    assert_eq!(r.coverage[0].kind, FilesystemCoverageKind::Unknown);
    assert_eq!(r.coverage[0].byte_end_exclusive, 4096);
    assert_eq!(r.limitations, vec!["no C02 filesystem Provider was supplied".to_string()]);
}

#[test]
fn provider_observation_is_partial_and_file_materializes() {
    let img = ext4_image();
    let p = provider();
    let r = inspect_filesystem(&img, &context(), FilesystemLimits::default(), Some(&p)).ok().unwrap();
    assert_eq!(r.assessment, FilesystemAssessment::Partial);
    assert_eq!(r.entries.len(), 2);
    assert_eq!(r.coverage.len(), 3);
    assert_eq!(r.coverage[0].kind, FilesystemCoverageKind::Unknown);
    assert_eq!(r.coverage[1].kind, FilesystemCoverageKind::Read);
    let m = materialize_filesystem_file(&img, &r, "etc/hosts", &context(), FilesystemLimits::default())
        .ok()
        .unwrap();
    assert_eq!(m.bytes(), &hosts_content()[..]);
    assert_eq!(m.sha256, sha256_hex(&hosts_content()));
    assert!(matches!(
        materialize_filesystem_file(&img, &r, "etc", &context(), FilesystemLimits::default()),
        Err(C02Error::EntryNotMaterializable)
    ));
    assert!(matches!(
        materialize_filesystem_file(&img, &r, "etc/none", &context(), FilesystemLimits::default()),
        Err(C02Error::EntryNotFound)
    ));
}

#[test]
fn provider_disagreement_and_false_completeness_fail() {
    let img = ext4_image();
    let mut p = provider();
    p.kind = FilesystemKind::Erofs;
    assert!(matches!(
        inspect_filesystem(&img, &context(), FilesystemLimits::default(), Some(&p)),
        Err(C02Error::ProviderKindMismatch)
    ));
    let mut p = provider();
    p.claim_complete = true;
    assert!(matches!(
        inspect_filesystem(&img, &context(), FilesystemLimits::default(), Some(&p)),
        Err(C02Error::FalseCompletenessClaim)
    ));
}

#[test]
fn wrong_file_digest_is_refused_at_materialization() {
    let img = ext4_image();
    let mut p = provider();
    p.digest = "0".repeat(64);
    let r = inspect_filesystem(&img, &context(), FilesystemLimits::default(), Some(&p)).ok().unwrap();
    assert!(matches!(
        materialize_filesystem_file(&img, &r, "etc/hosts", &context(), FilesystemLimits::default()),
        Err(C02Error::MaterializedDigestMismatch)
    ));
}
