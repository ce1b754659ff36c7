use ptah_archive_decomposition::apple::{
    AppleArchiveEntryObservation, AppleArchiveObservation, AppleArchiveProvider, AppleArchiveRole, AppleAssessment,
    AppleComparisonLevel, AppleDerComponentKind, AppleFirmwareArtifactKind, AppleFirmwareContext, AppleFirmwareLimits,
    AppleInspectRequest, AppleManifestComponentObservation, AppleManifestObservation, AppleManifestProvider,
    AppleStaticProofLevel, C04Error,
};
use ptah_archive_decomposition::apple_archive::is_manifest_candidate;
use ptah_archive_decomposition::apple_inspect::inspect_apple_firmware;
use ptah_archive_decomposition::apple_ops::{
    assess_apple_rebuild, compare_apple_firmware, materialize_apple_archive_entry, materialize_apple_der_component,
};
use ptah_archive_decomposition::digest::sha256_hex;
use ptah_archive_decomposition::identity::EntityRef;

fn context() -> AppleFirmwareContext {
    AppleFirmwareContext {
        workspace_ref: EntityRef::new("ws-1", "core.workspace"),
        authority_ref: EntityRef::new("auth-1", "core.authority"),
        source_revision_ref: EntityRef::new("rev-1", "object.revision"),
    }
}

fn tlv(tag: u8, content: &[u8]) -> Vec<u8> {
    assert!(content.len() < 128);
    let mut v = vec![tag, content.len() as u8];
    v.extend_from_slice(content);
    v
}

fn seq(parts: &[Vec<u8>]) -> Vec<u8> {
    tlv(0x30, &parts.concat())
}

fn im4p(payload: &[u8]) -> Vec<u8> {
    seq(&[tlv(0x16, b"IM4P"), tlv(0x16, b"krnl"), tlv(0x16, b"desc"), tlv(0x04, payload)])
}

fn img4(payload: &[u8]) -> Vec<u8> {
    let im4m = seq(&[tlv(0x16, b"IM4M"), tlv(0x04, b"SIG")]);
    seq(&[tlv(0x16, b"IMG4"), im4p(payload), tlv(0xa0, &im4m)])
}

fn none_archive() -> Option<&'static dyn AppleArchiveProvider> {
    None
}

fn none_manifest() -> Option<&'static dyn AppleManifestProvider> {
    None
}

#[test]
fn standalone_im4p_payload_is_located() {
    let src = im4p(&[0xaa, 0xbb, 0xcc]);
    let r = inspect_apple_firmware(
        &src,
        &context(),
        AppleInspectRequest::default(),
        AppleFirmwareLimits::default(),
        none_archive(),
        none_manifest(),
    )
    .ok()
    .unwrap();
    assert_eq!(r.kind, AppleFirmwareArtifactKind::Im4p);
    assert_eq!(r.assessment, AppleAssessment::Complete);
    assert_eq!(r.proof_level, Some(AppleStaticProofLevel::StructureChecked));
    assert_eq!(r.der_components.len(), 1);
    let c = &r.der_components[0];
    assert_eq!(c.name, "im4p.payload");
    assert_eq!(c.kind, AppleDerComponentKind::Im4pPayload);
    assert_eq!((c.byte_start, c.byte_end_exclusive), (22, 25));
    assert_eq!(c.sha256, sha256_hex(&[0xaa, 0xbb, 0xcc]));
    let m = materialize_apple_der_component(&src, &r, "im4p.payload", &context(), AppleFirmwareLimits::default())
        .ok()
        .unwrap();
    assert_eq!(m.bytes(), &[0xaa, 0xbb, 0xcc]);
    assert_eq!(m.object_class, "apple.firmware.der_component");
    assert!(matches!(
        materialize_apple_der_component(&src, &r, "nope", &context(), AppleFirmwareLimits::default()),
        Err(C04Error::ChildNotFound)
    ));
}

#[test]
fn img4_container_components() {
    let src = img4(b"kernel");
    let r = inspect_apple_firmware(
        &src,
        &context(),
        AppleInspectRequest::default(),
        AppleFirmwareLimits::default(),
        none_archive(),
        none_manifest(),
    )
    .ok()
    .unwrap();
    assert_eq!(r.kind, AppleFirmwareArtifactKind::Img4);
    let names: Vec<&str> = r.der_components.iter().map(|c| c.name.as_str()).collect();
    assert_eq!(names, vec!["img4.im4p", "img4.im4p.payload", "img4.im4m", "img4.im4m.signing.0"]);
    let sig = materialize_apple_der_component(&src, &r, "img4.im4m.signing.0", &context(), AppleFirmwareLimits::default())
        .ok()
        .unwrap();
    assert_eq!(sig.bytes(), b"SIG");
}

#[test]
fn malformed_der_is_refused() {
    let mut src = im4p(b"x");
    src.push(0);
    let r = inspect_apple_firmware(
        &src,
        &context(),
        AppleInspectRequest::default(),
        AppleFirmwareLimits::default(),
        none_archive(),
        none_manifest(),
    );
    assert!(matches!(r, Err(C04Error::MalformedDer("trailing bytes after top-level sequence"))));
    let r = inspect_apple_firmware(
        b"hello",
        &context(),
        AppleInspectRequest::default(),
        AppleFirmwareLimits::default(),
        none_archive(),
        none_manifest(),
    );
    assert!(matches!(r, Err(C04Error::UnsupportedArtifact)));
}

struct Archive {
    entries: Vec<(&'static str, &'static [u8])>,
    bad_digest: bool,
    fail: bool,
}

impl AppleArchiveProvider for Archive {
    fn provider_id(&self) -> &str {
        "zip-test"
    }

    fn inspect_archive(
        &self,
        _source: &[u8],
        _role: AppleArchiveRole,
        _limits: AppleFirmwareLimits,
    ) -> Result<AppleArchiveObservation, String> {
        if self.fail {
            return Err("zip broke".to_string());
        }
        Ok(AppleArchiveObservation {
            entries: self
                .entries
                .iter()
                .map(|(p, b)| AppleArchiveEntryObservation {
                    path: p.to_string(),
                    recovered_bytes: b.to_vec(),
                    expected_sha256: if self.bad_digest { "0".repeat(64) } else { sha256_hex(b) },
                })
                .collect(),
            complete_claim: true,
            limitations: Vec::new(),
        })
    }
}

struct Manifest {
    components: Vec<(&'static str, &'static str)>,
}

impl AppleManifestProvider for Manifest {
    fn provider_id(&self) -> &str {
        "plist-test"
    }

    fn inspect_manifest(
        &self,
        _manifest_bytes: &[u8],
        _role: AppleArchiveRole,
        _limits: AppleFirmwareLimits,
    ) -> Result<AppleManifestObservation, String> {
        Ok(AppleManifestObservation {
            build_id: Some("22A100".to_string()),
            product_version: Some("18.0".to_string()),
            components: self
                .components
                .iter()
                .map(|(n, p)| AppleManifestComponentObservation { name: n.to_string(), path: p.to_string() })
                .collect(),
            complete_claim: true,
            limitations: Vec::new(),
        })
    }
}

const ZIP: &[u8] = b"PK\x03\x04 pretend archive";

fn ipsw() -> AppleInspectRequest {
    AppleInspectRequest { archive_role: Some(AppleArchiveRole::Ipsw) }
}

fn archive() -> Archive {
    Archive {
        entries: vec![("Firmware/kernel.im4p", b"KERNEL"), ("BuildManifest.plist", b"<plist/>")],
        bad_digest: false,
        fail: false,
    }
}

#[test]
fn zip_needs_a_role_and_a_provider() {
    let r = inspect_apple_firmware(
        ZIP,
        &context(),
        AppleInspectRequest::default(),
        AppleFirmwareLimits::default(),
        none_archive(),
        none_manifest(),
    );
    assert!(matches!(r, Err(C04Error::ArchiveRoleRequired)));
    let r = inspect_apple_firmware(ZIP, &context(), ipsw(), AppleFirmwareLimits::default(), none_archive(), none_manifest())
        .ok()
        .unwrap();
    assert_eq!(r.kind, AppleFirmwareArtifactKind::IpswArchive);
    assert_eq!(r.assessment, AppleAssessment::Inconclusive);
    assert_eq!(r.proof_level, None);
    assert_eq!(r.limitations, vec!["archive Provider not supplied; ZIP framing alone is not inventory".to_string()]);
}

#[test]
fn manifest_linked_archive_is_complete() {
    let a = archive();
    let m = Manifest { components: vec![("KernelCache", "Firmware/kernel.im4p")] };
    let r = inspect_apple_firmware(ZIP, &context(), ipsw(), AppleFirmwareLimits::default(), Some(&a), Some(&m))
        .ok()
        .unwrap();
    assert_eq!(r.assessment, AppleAssessment::Complete);
    assert_eq!(r.proof_level, Some(AppleStaticProofLevel::ManifestLinked));
    assert_eq!(r.archive_provider_alias.as_deref(), Some("zip-test"));
    let paths: Vec<&str> = r.archive_entries.iter().map(|e| e.path.as_str()).collect();
    assert_eq!(paths, vec!["BuildManifest.plist", "Firmware/kernel.im4p"]);
    assert!(r.archive_entries[0].manifest_candidate);
    let manifest = r.manifest.as_ref().unwrap();
    assert_eq!(manifest.manifest_path, "BuildManifest.plist");
    assert_eq!(manifest.build_id.as_deref(), Some("22A100"));
    assert_eq!(manifest.components.len(), 1);
    assert_eq!(manifest.components[0].entry_sha256, sha256_hex(b"KERNEL"));
    assert_eq!(manifest.components[0].byte_size, 6);
    assert!(r.limitations.is_empty());

    let child = materialize_apple_archive_entry(
        ZIP,
        &r,
        "Firmware/kernel.im4p",
        &context(),
        AppleFirmwareLimits::default(),
    )
    .ok()
    .unwrap();
    assert_eq!(child.bytes(), b"KERNEL");
    assert_eq!(child.object_class, "apple.firmware.archive_entry");
    assert!(matches!(
        materialize_apple_archive_entry(ZIP, &r, "missing", &context(), AppleFirmwareLimits::default()),
        Err(C04Error::ChildNotFound)
    ));
    assert!(matches!(
        materialize_apple_archive_entry(b"PK\x03\x04 other", &r, "Firmware/kernel.im4p", &context(), AppleFirmwareLimits::default()),
        Err(C04Error::SourceBindingMismatch)
    ));

    let same = compare_apple_firmware(&r, &r);
    assert_eq!(same.level, AppleComparisonLevel::ByteExact);
    assert!(same.differences.is_empty());
    assert_eq!(assess_apple_rebuild(&r, &r), Some(AppleStaticProofLevel::ByteExact));
}

#[test]
fn unresolved_manifest_reference_is_partial() {
    let a = archive();
    let m = Manifest { components: vec![("KernelCache", "Firmware/kernel.im4p"), ("Missing", "Firmware/none.bin")] };
    let r = inspect_apple_firmware(ZIP, &context(), ipsw(), AppleFirmwareLimits::default(), Some(&a), Some(&m))
        .ok()
        .unwrap();
    assert_eq!(r.assessment, AppleAssessment::Partial);
    assert_eq!(r.proof_level, Some(AppleStaticProofLevel::StructureChecked));
    assert_eq!(r.manifest.as_ref().unwrap().unresolved_paths, vec!["Firmware/none.bin".to_string()]);
    assert_eq!(r.limitations, vec!["one or more manifest component paths did not resolve exactly".to_string()]);
}

#[test]
fn archive_without_manifest_provider_is_structure_checked() {
    let a = archive();
    let r = inspect_apple_firmware(ZIP, &context(), ipsw(), AppleFirmwareLimits::default(), Some(&a), none_manifest())
        .ok()
        .unwrap();
    assert_eq!(r.assessment, AppleAssessment::Partial);
    assert_eq!(r.proof_level, Some(AppleStaticProofLevel::StructureChecked));
    assert!(r.manifest.is_none());
    assert_eq!(
        r.limitations,
        vec!["manifest Provider not supplied; archive inventory is not manifest linkage".to_string()]
    );
}

#[test]
fn bad_archive_observations_fail_closed() {
    let mut a = archive();
    a.bad_digest = true;
    let r = inspect_apple_firmware(ZIP, &context(), ipsw(), AppleFirmwareLimits::default(), Some(&a), none_manifest());
    assert!(matches!(r, Err(C04Error::DigestMismatch)));
    let a = Archive { entries: vec![("../evil", b"x")], bad_digest: false, fail: false };
    let r = inspect_apple_firmware(ZIP, &context(), ipsw(), AppleFirmwareLimits::default(), Some(&a), none_manifest());
    assert!(matches!(r, Err(C04Error::InvalidArchivePath)));
    let a = Archive { entries: vec![("a", b"x"), ("a", b"y")], bad_digest: false, fail: false };
    let r = inspect_apple_firmware(ZIP, &context(), ipsw(), AppleFirmwareLimits::default(), Some(&a), none_manifest());
    assert!(matches!(r, Err(C04Error::DuplicateArchivePath)));
    let a = Archive { entries: Vec::new(), bad_digest: false, fail: true };
    let r = inspect_apple_firmware(ZIP, &context(), ipsw(), AppleFirmwareLimits::default(), Some(&a), none_manifest());
    assert_eq!(r.err(), Some(C04Error::ArchiveProvider("zip broke".to_string())));
    let m = Manifest { components: vec![("Dup", "a"), ("Dup", "b")] };
    let r = inspect_apple_firmware(ZIP, &context(), ipsw(), AppleFirmwareLimits::default(), Some(&archive()), Some(&m));
    assert!(matches!(r, Err(C04Error::InvalidManifestObservation)));
}

#[test]
fn manifest_candidates() {
    assert!(is_manifest_candidate(&"BuildManifest.plist".to_string()));
    assert!(is_manifest_candidate(&"x/Restore.plist".to_string()));
    assert!(!is_manifest_candidate(&"xBuildManifest.plist".to_string()));
    assert!(!is_manifest_candidate(&"Restore.plist.bak".to_string()));
}

#[test]
fn different_payloads_compare_structurally() {
    let a = im4p(b"one");
    let b = im4p(b"two");
    let ra = inspect_apple_firmware(&a, &context(), AppleInspectRequest::default(), AppleFirmwareLimits::default(), none_archive(), none_manifest())
        .ok()
        .unwrap();
    let rb = inspect_apple_firmware(&b, &context(), AppleInspectRequest::default(), AppleFirmwareLimits::default(), none_archive(), none_manifest())
        .ok()
        .unwrap();
    let c = compare_apple_firmware(&ra, &rb);
    assert_eq!(c.level, AppleComparisonLevel::StructureOnly);
    assert_eq!(c.differences, vec!["component_bytes_changed".to_string()]);
    assert_eq!(assess_apple_rebuild(&ra, &rb), Some(AppleStaticProofLevel::StructureChecked));
    let rc = inspect_apple_firmware(&img4(b"one"), &context(), AppleInspectRequest::default(), AppleFirmwareLimits::default(), none_archive(), none_manifest())
        .ok()
        .unwrap();
    let d = compare_apple_firmware(&ra, &rc);
    assert_eq!(d.level, AppleComparisonLevel::Different);
    assert_eq!(d.differences, vec!["kind:Im4p->Img4".to_string(), "component_structure_changed".to_string()]);
    assert_eq!(assess_apple_rebuild(&ra, &rc), None);
}
