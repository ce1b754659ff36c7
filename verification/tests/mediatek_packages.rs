use ptah_archive_decomposition::digest::sha256_hex;
use ptah_archive_decomposition::identity::EntityRef;
use ptah_archive_decomposition::mediatek::{
    C05Error, MediatekAssessment, MediatekBundleEntryObservation, MediatekBundleObservation, MediatekBundleProvider,
    MediatekComparisonLevel, MediatekContext, MediatekEvidenceLevel, MediatekEvidenceObservation,
    MediatekEvidenceProvider, MediatekLimits, MediatekMode, MediatekStaticProofLevel,
};
use ptah_archive_decomposition::mediatek_inspect::{
    assess_mediatek_rebuild, compare_mediatek_packages, inspect_mediatek_package, materialize_mediatek_component,
};
use ptah_archive_decomposition::mediatek_scatter::parse_scatter;

fn context() -> MediatekContext {
    MediatekContext {
        workspace_ref: EntityRef::new("ws-1", "core.workspace"),
        authority_ref: EntityRef::new("auth-1", "core.authority"),
        source_revision_ref: EntityRef::new("rev-1", "object.revision"),
    }
}

const SCATTER: &str = "# MediaTek scatter\n\
- general: MTK_PLATFORM_CFG\n\
  config_version: V1.1.2\n\
  platform: MT6789\n\
  storage: EMMC\n\
- partition_index: SYS0\n\
  partition_name: preloader\n\
  file_name: preloader.bin\n\
  is_download: true\n\
  type: SV5_BL_BIN\n\
  linear_start_addr: 0x0\n\
  physical_start_addr: 0x0\n\
  partition_size: 0x40000\n\
  region: EMMC_BOOT1_BOOT2\n\
  storage: HW_STORAGE_EMMC\n\
- partition_index: SYS1\n\
  partition_name: \"userdata\"\n\
  file_name: NONE\n\
  is_download: False\n\
  type: NORMAL_ROM\n\
  linear_start_addr: 0x40000\n\
  physical_start_addr: 0x40000\n\
  partition_size: 1024\n\
  region: EMMC_USER\n\
  storage: HW_STORAGE_EMMC\n";

fn chars(s: &str) -> Vec<char> {
    s.chars().collect()
}

struct Bundle {
    entries: Vec<(String, Vec<u8>)>,
    complete: bool,
}

impl MediatekBundleProvider for Bundle {
    fn provider_id(&self) -> &str {
        "bundle-test"
    }

    fn inspect_bundle(&self, _source: &[u8], _limits: MediatekLimits) -> Result<MediatekBundleObservation, String> {
        Ok(MediatekBundleObservation {
            entries: self
                .entries
                .iter()
                .map(|(p, b)| MediatekBundleEntryObservation {
                    path: p.clone(),
                    recovered_bytes: b.clone(),
                    expected_sha256: sha256_hex(b),
                })
                .collect(),
            complete_claim: self.complete,
            limitations: Vec::new(),
        })
    }
}

struct Evidence;

impl MediatekEvidenceProvider for Evidence {
    fn provider_id(&self) -> &str {
        "evidence-test"
    }

    fn inspect_evidence(&self, _source: &[u8], _limits: MediatekLimits) -> Result<MediatekEvidenceObservation, String> {
        Ok(MediatekEvidenceObservation {
            mode: MediatekMode::Meta,
            usb_vid: Some(0x0e8d),
            usb_pid: Some(0x2000),
            platform: Some("mt6789".to_string()),
            storage: Some("emmc".to_string()),
            partition_names: vec!["userdata".to_string(), "preloader".to_string()],
            service_session_established: true,
            layout_inventoried: true,
            complete_claim: true,
            limitations: Vec::new(),
        })
    }
}

#[test]
fn scatter_header_and_partitions_are_parsed() {
    let parsed = parse_scatter(&chars(SCATTER), MediatekLimits::default()).ok().unwrap();
    assert_eq!(parsed.config_version.as_deref(), Some("V1.1.2"));
    assert_eq!(parsed.platform, "MT6789");
    assert_eq!(parsed.storage, "EMMC");
    assert_eq!(parsed.partitions.len(), 2);
    let first = &parsed.partitions[0];
    assert_eq!(first.partition_index, "SYS0");
    assert_eq!(first.file_name.as_deref(), Some("preloader.bin"));
    assert!(first.is_download);
    assert_eq!(first.linear_range.start, 0);
    assert_eq!(first.linear_range.end_exclusive, 0x40000);
    let second = &parsed.partitions[1];
    assert_eq!(second.partition_name, "userdata");
    assert_eq!(second.file_name, None);
    assert!(!second.is_download);
    assert_eq!(second.physical_range.end_exclusive, 0x40000 + 1024);
}

#[test]
fn scatter_rejects_repeated_partition_key() {
    let text = format!("{SCATTER}  partition_size: 0x10\n");
    assert!(matches!(parse_scatter(&chars(&text), MediatekLimits::default()), Err(C05Error::InvalidScatter)));
}

#[test]
fn scatter_rejects_malformed_numbers_and_paths() {
    let bad_number = SCATTER.replace("partition_size: 1024", "partition_size: 0xZZ");
    assert!(matches!(parse_scatter(&chars(&bad_number), MediatekLimits::default()), Err(C05Error::InvalidNumber)));
    let signed = SCATTER.replace("partition_size: 1024", "partition_size: +1024");
    assert!(matches!(parse_scatter(&chars(&signed), MediatekLimits::default()), Err(C05Error::InvalidNumber)));
    let unsafe_path = SCATTER.replace("preloader.bin", "../preloader.bin");
    assert!(matches!(parse_scatter(&chars(&unsafe_path), MediatekLimits::default()), Err(C05Error::InvalidBundlePath)));
    let overflow = SCATTER.replace("linear_start_addr: 0x40000", "linear_start_addr: 0xffffffffffffffff");
    assert!(matches!(
        parse_scatter(&chars(&overflow), MediatekLimits::default()),
        Err(C05Error::PartitionRangeOverflow)
    ));
}

#[test]
fn scatter_requires_platform_storage_and_unique_partitions() {
    let no_platform = SCATTER.replace("platform: MT6789\n", "");
    assert!(matches!(parse_scatter(&chars(&no_platform), MediatekLimits::default()), Err(C05Error::InvalidScatter)));
    let duplicate = SCATTER.replace("partition_name: \"userdata\"", "partition_name: preloader");
    assert!(matches!(
        parse_scatter(&chars(&duplicate), MediatekLimits::default()),
        Err(C05Error::DuplicatePartition)
    ));
    assert!(matches!(parse_scatter(&chars("platform: X\n"), MediatekLimits::default()), Err(C05Error::InvalidScatter)));
}

#[test]
fn scatter_line_and_partition_bounds() {
    let mut limits = MediatekLimits::default();
    limits.max_lines = 3;
    assert!(matches!(parse_scatter(&chars(SCATTER), limits), Err(C05Error::TooManyLines)));
    let mut limits = MediatekLimits::default();
    limits.max_partitions = 1;
    assert!(matches!(parse_scatter(&chars(SCATTER), limits), Err(C05Error::TooManyPartitions)));
}

#[test]
fn inspection_without_providers_is_partial_structure() {
    let report =
        inspect_mediatek_package(SCATTER.as_bytes(), &context(), MediatekLimits::default(), None, None).ok().unwrap();
    assert_eq!(report.assessment, MediatekAssessment::Partial);
    assert_eq!(report.proof_level, Some(MediatekStaticProofLevel::StructureChecked));
    assert_eq!(report.source_size, SCATTER.len() as u64);
    assert_eq!(report.source_sha256, sha256_hex(SCATTER.as_bytes()));
    assert_eq!(
        report.limitations,
        vec!["scatter references sibling components but no MediaTek bundle Provider was supplied".to_string()]
    );
}

#[test]
fn inspection_links_bundle_and_correlates_evidence() {
    let bundle = Bundle { entries: vec![("preloader.bin".to_string(), b"PRELOADER".to_vec())], complete: true };
    let evidence = Evidence;
    let report = inspect_mediatek_package(
        SCATTER.as_bytes(),
        &context(),
        MediatekLimits::default(),
        Some(&bundle),
        Some(&evidence),
    )
    .ok()
    .unwrap();
    assert_eq!(report.assessment, MediatekAssessment::Complete);
    assert_eq!(report.proof_level, Some(MediatekStaticProofLevel::EvidenceCorrelated));
    assert_eq!(report.bundle_provider_alias.as_deref(), Some("bundle-test"));
    assert_eq!(report.partitions[0].linked_component_size, Some(9));
    assert_eq!(report.partitions[0].linked_component_sha256.as_deref(), Some(sha256_hex(b"PRELOADER").as_str()));
    let evidence = report.evidence.as_ref().unwrap();
    assert_eq!(evidence.level, MediatekEvidenceLevel::LayoutEvidence);
    let correlation = report.evidence_correlation.unwrap();
    assert_eq!(correlation.platform_matches, Some(true));
    assert_eq!(correlation.partition_names_match, Some(true));
}

#[test]
fn unresolved_component_is_reported() {
    let bundle = Bundle { entries: vec![("other.bin".to_string(), b"X".to_vec())], complete: true };
    let report = inspect_mediatek_package(SCATTER.as_bytes(), &context(), MediatekLimits::default(), Some(&bundle), None)
        .ok()
        .unwrap();
    assert_eq!(report.assessment, MediatekAssessment::Partial);
    assert_eq!(report.proof_level, Some(MediatekStaticProofLevel::StructureChecked));
    assert_eq!(report.limitations, vec!["1 scatter-referenced bundle component(s) unresolved".to_string()]);
}

#[test]
fn bundle_digest_mismatch_is_refused() {
    struct Lying;
    impl MediatekBundleProvider for Lying {
        fn provider_id(&self) -> &str {
            "lying"
        }
        fn inspect_bundle(&self, _s: &[u8], _l: MediatekLimits) -> Result<MediatekBundleObservation, String> {
            Ok(MediatekBundleObservation {
                entries: vec![MediatekBundleEntryObservation {
                    path: "preloader.bin".to_string(),
                    recovered_bytes: b"A".to_vec(),
                    expected_sha256: sha256_hex(b"B"),
                }],
                complete_claim: true,
                limitations: Vec::new(),
            })
        }
    }
    let r = inspect_mediatek_package(SCATTER.as_bytes(), &context(), MediatekLimits::default(), Some(&Lying), None);
    assert!(matches!(r, Err(C05Error::DigestMismatch)));
}

#[test]
fn invalid_inputs_fail_closed() {
    let mut bad_ctx = context();
    bad_ctx.workspace_ref = EntityRef::new("ws", "core.other");
    assert!(matches!(
        inspect_mediatek_package(SCATTER.as_bytes(), &bad_ctx, MediatekLimits::default(), None, None),
        Err(C05Error::InvalidWorkspaceRef)
    ));
    let mut limits = MediatekLimits::default();
    limits.max_lines = 0;
    assert!(matches!(inspect_mediatek_package(SCATTER.as_bytes(), &context(), limits, None, None), Err(C05Error::InvalidLimits)));
    assert!(matches!(
        inspect_mediatek_package(&[0xff, 0xfe], &context(), MediatekLimits::default(), None, None),
        Err(C05Error::InvalidUtf8)
    ));
    let mut small = MediatekLimits::default();
    small.max_source_bytes = 4;
    assert!(matches!(inspect_mediatek_package(SCATTER.as_bytes(), &context(), small, None, None), Err(C05Error::SourceTooLarge)));
}

#[test]
fn materialization_returns_exact_component_bytes() {
    let bundle = Bundle { entries: vec![("preloader.bin".to_string(), b"PRELOADER".to_vec())], complete: true };
    let report = inspect_mediatek_package(SCATTER.as_bytes(), &context(), MediatekLimits::default(), Some(&bundle), None)
        .ok()
        .unwrap();
    let m = materialize_mediatek_component(SCATTER.as_bytes(), &report, "preloader.bin", &context(), MediatekLimits::default())
        .ok()
        .unwrap();
    assert_eq!(m.bytes(), b"PRELOADER");
    assert_eq!(m.sha256, sha256_hex(b"PRELOADER"));
    assert_eq!(m.object_class, "mediatek.firmware.bundle_component");
    assert!(matches!(
        materialize_mediatek_component(SCATTER.as_bytes(), &report, "other.bin", &context(), MediatekLimits::default()),
        Err(C05Error::ChildNotFound)
    ));
    assert!(matches!(
        materialize_mediatek_component(b"changed", &report, "preloader.bin", &context(), MediatekLimits::default()),
        Err(C05Error::SourceBindingMismatch)
    ));
}

#[test]
fn comparison_levels() {
    let a = inspect_mediatek_package(SCATTER.as_bytes(), &context(), MediatekLimits::default(), None, None).ok().unwrap();
    let b = inspect_mediatek_package(SCATTER.as_bytes(), &context(), MediatekLimits::default(), None, None).ok().unwrap();
    let same = compare_mediatek_packages(&a, &b);
    assert_eq!(same.level, MediatekComparisonLevel::ByteExact);
    assert!(same.differences.is_empty());
    assert_eq!(assess_mediatek_rebuild(&a, &b), Some(MediatekStaticProofLevel::ByteExact));
    let commented = format!("# extra comment\n{SCATTER}");
    let c = inspect_mediatek_package(commented.as_bytes(), &context(), MediatekLimits::default(), None, None).ok().unwrap();
    assert_eq!(compare_mediatek_packages(&a, &c).level, MediatekComparisonLevel::ComponentExact);
    let changed = SCATTER.replace("partition_size: 1024", "partition_size: 2048");
    let d = inspect_mediatek_package(changed.as_bytes(), &context(), MediatekLimits::default(), None, None).ok().unwrap();
    let diff = compare_mediatek_packages(&a, &d);
    assert_eq!(diff.level, MediatekComparisonLevel::Different);
    assert_eq!(diff.differences, vec!["scatter_or_partition_structure_changed".to_string()]);
    assert_eq!(assess_mediatek_rebuild(&a, &d), None);
}
