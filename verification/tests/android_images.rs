use ptah_archive_decomposition::android::{
    align_up, is_boot_framing, is_ota_framing, is_vbmeta_framing, le32, AndroidArtifactKind, AndroidComponentKind,
    AndroidContext, AndroidInspectRequest, AndroidLimits, C03Error,
};
use ptah_archive_decomposition::android_inspect::inspect_android_artifact;
use ptah_archive_decomposition::android_ops::{
    assess_android_rebuild, compare_android_artifacts, materialize_android_component, AndroidComparisonLevel,
    AndroidRebuildProofLevel,
};
use ptah_archive_decomposition::android_ota::{OtaManifestObservation, OtaManifestProvider};
use ptah_archive_decomposition::digest::sha256_hex;
use ptah_archive_decomposition::identity::EntityRef;

struct NoOta;

impl OtaManifestProvider for NoOta {
    fn provider_id(&self) -> &str {
        "none"
    }

    fn decode_manifest(
        &self,
        _manifest_bytes: &[u8],
        _major_version: u64,
        _limits: AndroidLimits,
    ) -> Result<OtaManifestObservation, String> {
        Err("unavailable".to_string())
    }
}

fn context() -> AndroidContext {
    AndroidContext {
        workspace_ref: EntityRef::new("ws-1", "core.workspace"),
        authority_ref: EntityRef::new("auth-1", "core.authority"),
        source_revision_ref: EntityRef::new("rev-1", "object.revision"),
    }
}

fn put32(buf: &mut [u8], at: usize, v: u32) {
    buf[at..at + 4].copy_from_slice(&v.to_le_bytes());
}

fn boot_v0(kernel_fill: u8) -> Vec<u8> {
    let mut img = vec![0u8; 6144];
    img[0..8].copy_from_slice(b"ANDROID!");
    put32(&mut img, 8, 100);
    put32(&mut img, 16, 50);
    put32(&mut img, 36, 2048);
    put32(&mut img, 40, 0);
    for b in &mut img[2048..2148] {
        *b = kernel_fill;
    }
    for b in &mut img[4096..4146] {
        *b = 0x22;
    }
    img
}

fn boot_request() -> AndroidInspectRequest {
    AndroidInspectRequest { declared_kind: Some(AndroidArtifactKind::Boot) }
}

#[test]
fn alignment_and_framing() {
    assert_eq!(align_up(100, 2048).ok(), Some(2048));
    assert_eq!(align_up(4096, 4096).ok(), Some(4096));
    assert_eq!(align_up(0, 8).ok(), Some(0));
    assert!(matches!(align_up(1, 0), Err(C03Error::AccountingOverflow)));
    assert!(matches!(align_up(u64::MAX, 2), Err(C03Error::AccountingOverflow)));
    assert!(is_boot_framing(b"ANDROID!xyz"));
    assert!(!is_boot_framing(b"ANDROID"));
    assert!(is_vbmeta_framing(b"AVB0"));
    assert!(is_ota_framing(b"CrAU...."));
    assert_eq!(le32(&[1, 2, 3, 4, 5], 1).ok(), Some(0x0504_0302));
    assert!(le32(&[1, 2, 3], 0).is_err());
}

#[test]
fn legacy_boot_components_are_framed() {
    let img = boot_v0(0x11);
    let report = inspect_android_artifact(&img, &context(), boot_request(), AndroidLimits::default(), None::<&NoOta>)
        .ok()
        .unwrap();
    assert_eq!(report.kind, AndroidArtifactKind::Boot);
    assert_eq!(report.source_size, 6144);
    assert_eq!(report.source_sha256, sha256_hex(&img));
    assert_eq!(report.components.len(), 3);
    assert_eq!(report.components[0].kind, AndroidComponentKind::Header);
    assert_eq!(report.components[0].byte_end_exclusive, 1632);
    let kernel = &report.components[1];
    assert_eq!(kernel.name, "boot.kernel");
    assert_eq!((kernel.byte_start, kernel.byte_end_exclusive), (2048, 2148));
    assert_eq!(kernel.sha256, sha256_hex(&img[2048..2148]));
    let ramdisk = &report.components[2];
    assert_eq!(ramdisk.kind, AndroidComponentKind::Ramdisk);
    assert_eq!((ramdisk.byte_start, ramdisk.byte_end_exclusive), (4096, 4146));

    let m = materialize_android_component(&img, &report, "boot.ramdisk", &context(), AndroidLimits::default())
        .ok()
        .unwrap();
    assert_eq!(m.sha256, sha256_hex(&img[4096..4146]));
    assert_eq!(m.name, "boot.ramdisk");
    assert!(materialize_android_component(&img, &report, "boot.missing", &context(), AndroidLimits::default())
        .is_err());
}

#[test]
fn boot_requires_declared_role() {
    let img = boot_v0(0x11);
    let r = inspect_android_artifact(
        &img,
        &context(),
        AndroidInspectRequest::default(),
        AndroidLimits::default(),
        None::<&NoOta>,
    );
    assert!(matches!(r, Err(C03Error::BootRoleRequired)));
    let wrong = AndroidInspectRequest { declared_kind: Some(AndroidArtifactKind::Dtbo) };
    let r = inspect_android_artifact(&img, &context(), wrong, AndroidLimits::default(), None::<&NoOta>);
    assert!(matches!(r, Err(C03Error::DeclaredKindMismatch)));
}

#[test]
fn malformed_boot_headers_fail_closed() {
    let mut img = boot_v0(0x11);
    put32(&mut img, 36, 3000);
    let r = inspect_android_artifact(&img, &context(), boot_request(), AndroidLimits::default(), None::<&NoOta>);
    assert!(matches!(r, Err(C03Error::Malformed(_))));
    let mut img = boot_v0(0x11);
    put32(&mut img, 8, 0);
    let r = inspect_android_artifact(&img, &context(), boot_request(), AndroidLimits::default(), None::<&NoOta>);
    assert!(matches!(r, Err(C03Error::Malformed(_))));
    let r = inspect_android_artifact(b"not android", &context(), boot_request(), AndroidLimits::default(), None::<&NoOta>);
    assert!(matches!(r, Err(C03Error::UnsupportedArtifact)));
}

#[test]
fn invalid_context_is_rejected() {
    let mut ctx = context();
    ctx.source_revision_ref = EntityRef::new("rev-1", "object.other");
    let r = inspect_android_artifact(&boot_v0(1), &ctx, boot_request(), AndroidLimits::default(), None::<&NoOta>);
    assert!(matches!(r, Err(C03Error::InvalidSourceRevision)));
}

#[test]
fn boot_comparison_levels() {
    let a = boot_v0(0x11);
    let b = boot_v0(0x33);
    let ra = inspect_android_artifact(&a, &context(), boot_request(), AndroidLimits::default(), None::<&NoOta>)
        .ok()
        .unwrap();
    let rb = inspect_android_artifact(&b, &context(), boot_request(), AndroidLimits::default(), None::<&NoOta>)
        .ok()
        .unwrap();
    let same = compare_android_artifacts(&ra, &ra);
    assert_eq!(same.level, AndroidComparisonLevel::ByteExact);
    assert!(same.differences.is_empty());
    assert_eq!(assess_android_rebuild(&ra, &ra), AndroidRebuildProofLevel::ByteExact);
    let diff = compare_android_artifacts(&ra, &rb);
    assert_eq!(diff.level, AndroidComparisonLevel::StructureOnly);
    assert!(diff.differences.is_empty());
    assert_eq!(assess_android_rebuild(&ra, &rb), AndroidRebuildProofLevel::StructureOnly);
}
