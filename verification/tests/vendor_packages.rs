use ptah_archive_decomposition::digest::sha256_hex;
use ptah_archive_decomposition::identity::EntityRef;
use ptah_archive_decomposition::qualcomm::{
    compare_qualcomm_bundles, inspect_qualcomm_bundle, materialize_qualcomm_component, sector_range,
    QualcommBundleEntryObservation, QualcommBundleObservation, QualcommBundleProvider, QualcommComponentKind,
    QualcommPatchOperationObservation, QualcommProgramOperationObservation, QualcommProgrammerObservation,
};
use ptah_archive_decomposition::unisoc::{
    compare_unisoc_packages, inspect_unisoc_pac, materialize_unisoc_component, UnisocComponentRole,
    UnisocPacEntryObservation, UnisocPacObservation, UnisocPacProvider, UnisocPacValidationObservation,
};
use ptah_archive_decomposition::vendor_pkg::{
    C06Assessment, C06ByteRange, C06ComparisonLevel, C06Context, C06Error, C06Limits, C06StaticProofLevel,
};

fn context() -> C06Context {
    C06Context {
        workspace_ref: EntityRef::new("ws-1", "core.workspace"),
        authority_ref: EntityRef::new("auth-1", "core.authority"),
        source_revision_ref: EntityRef::new("rev-1", "object.revision"),
    }
}

fn pac_source() -> Vec<u8> {
    let mut v = b"PACHEADER-".to_vec();
    v.extend_from_slice(b"FDL1DATA");
    v.extend_from_slice(b"SYSTEMIMG");
    v
}

fn pac_entry(id: u32, path: &str, offset: u64, size: u64, role: UnisocComponentRole, source: &[u8]) -> UnisocPacEntryObservation {
    UnisocPacEntryObservation {
        file_id: id,
        path: path.to_string(),
        file_version: None,
        data_offset: offset,
        byte_size: size,
        flags: 0,
        check_flag: 0,
        addresses: [Some(0x6500_0000), None, None, None, None],
        role,
        expected_sha256: sha256_hex(&source[offset as usize..(offset + size) as usize]),
    }
}

struct Pac {
    entries: Vec<UnisocPacEntryObservation>,
    validated: bool,
}

impl UnisocPacProvider for Pac {
    fn provider_id(&self) -> &str {
        "pac-test"
    }

    fn inspect_pac(&self, _source: &[u8], _limits: C06Limits) -> Result<UnisocPacObservation, String> {
        Ok(UnisocPacObservation {
            product_name: Some("demo".to_string()),
            product_version: None,
            product_alias: None,
            validation: UnisocPacValidationObservation {
                magic_validated: self.validated,
                header_crc_validated: self.validated,
                table_crc_validated: self.validated,
            },
            entries: self.entries.clone(),
            complete_claim: true,
            limitations: Vec::new(),
        })
    }
}

#[test]
fn unisoc_entries_are_validated_sorted_and_loaders_extracted() {
    let src = pac_source();
    let provider = Pac {
        entries: vec![
            pac_entry(2, "system.img", 18, 9, UnisocComponentRole::PartitionImage, &src),
            pac_entry(1, "fdl1.bin", 10, 8, UnisocComponentRole::Fdl1, &src),
        ],
        validated: true,
    };
    let report = inspect_unisoc_pac(&src, &context(), C06Limits::default(), &provider).ok().unwrap();
    assert_eq!(report.entries.len(), 2);
    assert_eq!(report.entries[0].path, "fdl1.bin");
    assert_eq!(report.entries[0].range, C06ByteRange { start: 10, end_exclusive: 18 });
    assert_eq!(report.loaders.len(), 1);
    assert_eq!(report.loaders[0].component_path, "fdl1.bin");
    assert_eq!(report.loaders[0].base_address, Some(0x6500_0000));
    assert_eq!(report.assessment, C06Assessment::Complete);
    assert_eq!(report.proof_level, Some(C06StaticProofLevel::StructureChecked));
    let m = materialize_unisoc_component(&src, &report, "system.img", &context(), C06Limits::default()).ok().unwrap();
    assert_eq!(m.bytes(), b"SYSTEMIMG");
    assert_eq!(compare_unisoc_packages(&report, &report).level, C06ComparisonLevel::ByteExact);
}

#[test]
fn unisoc_unvalidated_structure_is_partial() {
    let src = pac_source();
    let provider = Pac { entries: vec![pac_entry(1, "fdl1.bin", 10, 8, UnisocComponentRole::Fdl1, &src)], validated: false };
    let report = inspect_unisoc_pac(&src, &context(), C06Limits::default(), &provider).ok().unwrap();
    assert_eq!(report.assessment, C06Assessment::Partial);
    assert_eq!(report.proof_level, Some(C06StaticProofLevel::InventoryOnly));
    assert_eq!(report.limitations.len(), 3);
    assert_eq!(report.limitations[0], "PAC magic/header family was not independently validated by Provider");
}

#[test]
fn unisoc_refuses_overlap_outside_and_duplicates() {
    let src = pac_source();
    let overlapping = Pac {
        entries: vec![
            pac_entry(1, "a.bin", 10, 8, UnisocComponentRole::Other, &src),
            pac_entry(2, "b.bin", 12, 4, UnisocComponentRole::Other, &src),
        ],
        validated: true,
    };
    assert!(matches!(
        inspect_unisoc_pac(&src, &context(), C06Limits::default(), &overlapping),
        Err(C06Error::OverlappingRanges)
    ));
    let mut outside = pac_entry(1, "a.bin", 10, 8, UnisocComponentRole::Other, &src);
    outside.byte_size = 100;
    let provider = Pac { entries: vec![outside], validated: true };
    assert!(matches!(
        inspect_unisoc_pac(&src, &context(), C06Limits::default(), &provider),
        Err(C06Error::RangeOutsideSource)
    ));
    let dup = Pac {
        entries: vec![
            pac_entry(1, "a.bin", 10, 8, UnisocComponentRole::Other, &src),
            pac_entry(1, "b.bin", 18, 9, UnisocComponentRole::Other, &src),
        ],
        validated: true,
    };
    assert!(matches!(inspect_unisoc_pac(&src, &context(), C06Limits::default(), &dup), Err(C06Error::DuplicateEntry)));
    let mut lying = pac_entry(1, "a.bin", 10, 8, UnisocComponentRole::Other, &src);
    lying.expected_sha256 = sha256_hex(b"other");
    let provider = Pac { entries: vec![lying], validated: true };
    assert!(matches!(
        inspect_unisoc_pac(&src, &context(), C06Limits::default(), &provider),
        Err(C06Error::DigestMismatch)
    ));
}

#[test]
fn sector_ranges() {
    assert_eq!(sector_range(2, 3, 512).ok(), Some(C06ByteRange { start: 1024, end_exclusive: 2560 }));
    assert!(matches!(sector_range(1, 1, 0), Err(C06Error::InvalidSectorSize)));
    assert!(matches!(sector_range(u64::MAX, 1, 2), Err(C06Error::RangeOverflow)));
}

struct Bundle {
    patch_offset: u64,
    filename: Option<String>,
}

fn component(path: &str, bytes: &[u8], kind: QualcommComponentKind) -> QualcommBundleEntryObservation {
    QualcommBundleEntryObservation {
        path: path.to_string(),
        recovered_bytes: bytes.to_vec(),
        expected_sha256: sha256_hex(bytes),
        kind,
    }
}

impl QualcommBundleProvider for Bundle {
    fn provider_id(&self) -> &str {
        "qc-test"
    }

    fn inspect_bundle(&self, _source: &[u8], _limits: C06Limits) -> Result<QualcommBundleObservation, String> {
        Ok(QualcommBundleObservation {
            entries: vec![
                component("rawprogram0.xml", b"<data/>", QualcommComponentKind::RawprogramXml),
                component("patch0.xml", b"<patches/>", QualcommComponentKind::PatchXml),
                component("prog_firehose.elf", b"\x7fELF", QualcommComponentKind::FirehoseProgrammer),
                component("boot.img", b"ANDROID!", QualcommComponentKind::Other),
            ],
            program_operations: vec![QualcommProgramOperationObservation {
                xml_path: "rawprogram0.xml".to_string(),
                filename: self.filename.clone(),
                label: Some("boot_a".to_string()),
                start_sector: 8,
                num_partition_sectors: 2,
                sector_size: 4096,
                physical_partition: 0,
            }],
            patch_operations: vec![QualcommPatchOperationObservation {
                xml_path: "patch0.xml".to_string(),
                start_sector: 1,
                byte_offset: self.patch_offset,
                size_bytes: 8,
                sector_size: 4096,
                physical_partition: 0,
            }],
            programmer: Some(QualcommProgrammerObservation {
                component_path: "prog_firehose.elf".to_string(),
                target_claim: None,
                hwid_claim: None,
                pkhash_claim: None,
                signature_observed: true,
            }),
            complete_claim: true,
            limitations: Vec::new(),
        })
    }
}

#[test]
fn qualcomm_plan_resolves_against_components() {
    let bundle = Bundle { patch_offset: 16, filename: Some("boot.img".to_string()) };
    let report = inspect_qualcomm_bundle(b"index", &context(), C06Limits::default(), &bundle).ok().unwrap();
    assert_eq!(report.entries.len(), 4);
    assert_eq!(report.entries[0].path, "boot.img");
    assert_eq!(report.program_operations[0].byte_range, C06ByteRange { start: 32768, end_exclusive: 40960 });
    assert!(report.program_operations[0].component_resolved);
    assert_eq!(report.patch_operations[0].byte_range, C06ByteRange { start: 4112, end_exclusive: 4120 });
    assert_eq!(report.programmer.as_ref().unwrap().kind, QualcommComponentKind::FirehoseProgrammer);
    assert_eq!(report.assessment, C06Assessment::Complete);
    assert_eq!(report.proof_level, Some(C06StaticProofLevel::PlanLinked));
    let m = materialize_qualcomm_component(b"index", &report, "boot.img", &context(), C06Limits::default()).ok().unwrap();
    assert_eq!(m.bytes(), b"ANDROID!");
    assert_eq!(compare_qualcomm_bundles(&report, &report).level, C06ComparisonLevel::ByteExact);
}

#[test]
fn qualcomm_unresolved_image_and_bad_patch() {
    let bundle = Bundle { patch_offset: 16, filename: Some("missing.img".to_string()) };
    let report = inspect_qualcomm_bundle(b"index", &context(), C06Limits::default(), &bundle).ok().unwrap();
    assert!(!report.program_operations[0].component_resolved);
    assert_eq!(report.assessment, C06Assessment::Partial);
    assert_eq!(report.proof_level, Some(C06StaticProofLevel::ComponentsLinked));
    assert_eq!(report.limitations, vec!["1 rawprogram component reference(s) unresolved".to_string()]);
    let bad = Bundle { patch_offset: 4096, filename: None };
    assert!(matches!(
        inspect_qualcomm_bundle(b"index", &context(), C06Limits::default(), &bad),
        Err(C06Error::InvalidPatchRange)
    ));
}
