use ptah_archive_decomposition::digest::sha256_hex;
use ptah_archive_decomposition::disk_image::{
    encode_android_sparse, normalize_disk_image, C01Error, DiskImageFormat, DiskImageLimits, SourceCoverageKind,
};
use ptah_archive_decomposition::identity::EntityRef;
use ptah_archive_decomposition::partition_access::{compare_disk_images, materialize_partition};
use ptah_archive_decomposition::partition_map::{
    decode_gpt_name, format_gpt_guid, inspect_partition_map, DiskImageContext, PartitionMapAssessment, PartitionTableKind,
};

fn context() -> DiskImageContext {
    DiskImageContext {
        workspace_ref: EntityRef::new("ws-1", "core.workspace"),
        authority_ref: EntityRef::new("auth-1", "core.authority"),
        source_revision_ref: EntityRef::new("rev-1", "object.revision"),
    }
}

fn crc32(bytes: &[u8]) -> u32 {
    let mut crc = 0xffff_ffffu32;
    for byte in bytes {
        crc ^= u32::from(*byte);
        for _ in 0..8 {
            let mask = 0u32.wrapping_sub(crc & 1);
            crc = (crc >> 1) ^ (0xedb8_8320 & mask);
        }
    }
    !crc
}

fn put32(buf: &mut [u8], at: usize, v: u32) {
    buf[at..at + 4].copy_from_slice(&v.to_le_bytes());
}

fn put64(buf: &mut [u8], at: usize, v: u64) {
    buf[at..at + 8].copy_from_slice(&v.to_le_bytes());
}

fn mbr_image() -> Vec<u8> {
    let mut img = vec![0u8; 2048];
    img[446] = 0x80;
    img[450] = 0x83;
    put32(&mut img, 454, 1);
    put32(&mut img, 458, 2);
    for (i, b) in img[512..1536].iter_mut().enumerate() {
        *b = (i % 251) as u8;
    }
    img[510] = 0x55;
    img[511] = 0xaa;
    img
}

fn gpt_image() -> Vec<u8> {
    let mut img = vec![0u8; 8192];
    img[450] = 0xee;
    put32(&mut img, 454, 1);
    put32(&mut img, 458, 15);
    img[510] = 0x55;
    img[511] = 0xaa;
    // one partition entry at LBA 2
    let entry = 1024;
    for i in 0..16 {
        img[entry + i] = (i as u8) + 1;
    }
    put64(&mut img, entry + 32, 4);
    put64(&mut img, entry + 40, 7);
    for (i, c) in "boot".encode_utf16().enumerate() {
        img[entry + 56 + 2 * i..entry + 58 + 2 * i].copy_from_slice(&c.to_le_bytes());
    }
    let entries_crc = crc32(&img[1024..1024 + 4 * 128]);
    let h = 512;
    img[h..h + 8].copy_from_slice(b"EFI PART");
    put32(&mut img, h + 8, 0x0001_0000);
    put32(&mut img, h + 12, 92);
    put64(&mut img, h + 24, 1);
    put64(&mut img, h + 72, 2);
    put32(&mut img, h + 80, 4);
    put32(&mut img, h + 84, 128);
    put32(&mut img, h + 88, entries_crc);
    let header_crc = crc32(&img[h..h + 92]);
    put32(&mut img, h + 16, header_crc);
    img
}

#[test]
fn raw_image_normalizes_to_itself() {
    let img = mbr_image();
    let norm = normalize_disk_image(&img, DiskImageLimits::default()).ok().unwrap();
    assert_eq!(norm.bytes(), &img[..]);
    assert_eq!(norm.source_format(), DiskImageFormat::Raw);
    assert_eq!(norm.source_sha256(), sha256_hex(&img));
    assert_eq!(norm.normalized_sha256(), sha256_hex(&img));
    let cov = norm.source_coverage();
    assert_eq!(cov.len(), 1);
    assert_eq!(cov[0].byte_start, 0);
    assert_eq!(cov[0].byte_end_exclusive, 2048);
    assert_eq!(cov[0].kind, SourceCoverageKind::Defined);
}

#[test]
fn raw_image_over_output_bound_is_rejected() {
    let mut limits = DiskImageLimits::default();
    limits.max_output_bytes = 1024;
    assert!(normalize_disk_image(&mbr_image(), limits).is_err());
}

#[test]
fn sparse_encoding_round_trips_to_same_bytes() {
    let mut raw = vec![0u8; 8192];
    for (i, b) in raw.iter_mut().enumerate() {
        *b = (i * 7 % 256) as u8;
    }
    let limits = DiskImageLimits::default();
    let norm = normalize_disk_image(&raw, limits).ok().unwrap();
    let sparse = encode_android_sparse(&norm, 4096, limits).ok().unwrap();
    assert_eq!(&sparse[0..4], &[0x3a, 0xff, 0x26, 0xed]);
    let back = normalize_disk_image(&sparse, limits).ok().unwrap();
    assert_eq!(back.source_format(), DiskImageFormat::AndroidSparse);
    assert_eq!(back.bytes(), &raw[..]);
    assert_eq!(back.normalized_sha256(), sha256_hex(&raw));
    assert_eq!(back.source_sha256(), sha256_hex(&sparse));
}

#[test]
fn sparse_encoding_rejects_misaligned_size() {
    let raw = vec![1u8; 1000];
    let limits = DiskImageLimits::default();
    let norm = normalize_disk_image(&raw, limits).ok().unwrap();
    assert!(encode_android_sparse(&norm, 4096, limits).is_err());
}

#[test]
fn truncated_sparse_header_is_malformed() {
    let mut bytes = vec![0x3a, 0xff, 0x26, 0xed];
    bytes.extend_from_slice(&[0u8; 8]);
    let r = normalize_disk_image(&bytes, DiskImageLimits::default());
    assert!(matches!(r, Err(C01Error::MalformedSparse(_))));
}

#[test]
fn mbr_partition_is_inspected_materialized_and_compared() {
    let img = mbr_image();
    let norm = normalize_disk_image(&img, DiskImageLimits::default()).ok().unwrap();
    let report = inspect_partition_map(&norm, &context(), DiskImageLimits::default()).ok().unwrap();
    assert_eq!(report.partition_table, PartitionTableKind::Mbr);
    assert_eq!(report.assessment, PartitionMapAssessment::Complete);
    assert_eq!(report.partitions.len(), 1);
    let p = &report.partitions[0];
    assert_eq!(p.index, 1);
    assert_eq!(p.type_id, "mbr:0x83");
    assert_eq!(p.first_lba, 1);
    assert_eq!(p.last_lba_inclusive, 2);
    assert_eq!(p.byte_start, 512);
    assert_eq!(p.byte_end_exclusive, 1536);
    assert!(p.bootable);
    assert!(!p.container);
    assert_eq!(report.layout_coverage.len(), 3);

    let m = materialize_partition(&norm, &report, 1, &context()).ok().unwrap();
    assert_eq!(m.bytes(), &img[512..1536]);
    assert_eq!(m.sha256, sha256_hex(&img[512..1536]));
    assert!(materialize_partition(&norm, &report, 2, &context()).is_err());

    let same = compare_disk_images(&report, &report);
    assert!(same.identical_layout);
    assert!(same.differences.is_empty());
}

#[test]
fn missing_mbr_signature_is_inconclusive() {
    let mut img = mbr_image();
    img[511] = 0;
    let norm = normalize_disk_image(&img, DiskImageLimits::default()).ok().unwrap();
    let report = inspect_partition_map(&norm, &context(), DiskImageLimits::default()).ok().unwrap();
    assert_eq!(report.partition_table, PartitionTableKind::Unrecognized);
    assert_eq!(report.assessment, PartitionMapAssessment::Inconclusive);
    assert!(report.partitions.is_empty());
}

#[test]
fn mbr_extent_outside_image_is_not_promoted() {
    let mut img = mbr_image();
    put32(&mut img, 458, 100);
    let norm = normalize_disk_image(&img, DiskImageLimits::default()).ok().unwrap();
    let report = inspect_partition_map(&norm, &context(), DiskImageLimits::default()).ok().unwrap();
    assert_eq!(report.partition_table, PartitionTableKind::Mbr);
    assert_eq!(report.assessment, PartitionMapAssessment::Inconclusive);
    assert!(report.partitions.is_empty());
    assert_eq!(report.warnings.len(), 1);
}

#[test]
fn gpt_partition_is_inspected() {
    let img = gpt_image();
    let norm = normalize_disk_image(&img, DiskImageLimits::default()).ok().unwrap();
    let report = inspect_partition_map(&norm, &context(), DiskImageLimits::default()).ok().unwrap();
    assert_eq!(report.partition_table, PartitionTableKind::Gpt);
    assert_eq!(report.assessment, PartitionMapAssessment::Complete);
    assert_eq!(report.partitions.len(), 1);
    let p = &report.partitions[0];
    assert_eq!(p.name.as_deref(), Some("boot"));
    assert_eq!(p.type_id, "04030201-0605-0807-090a-0b0c0d0e0f10");
    assert_eq!(p.byte_start, 2048);
    assert_eq!(p.byte_end_exclusive, 4096);
    let m = materialize_partition(&norm, &report, 1, &context()).ok().unwrap();
    assert_eq!(m.bytes(), &img[2048..4096]);
}

#[test]
fn gpt_header_crc_mismatch_is_a_limitation() {
    let mut img = gpt_image();
    img[512 + 16] ^= 1;
    let norm = normalize_disk_image(&img, DiskImageLimits::default()).ok().unwrap();
    let report = inspect_partition_map(&norm, &context(), DiskImageLimits::default()).ok().unwrap();
    assert_eq!(report.partition_table, PartitionTableKind::Gpt);
    assert_eq!(report.assessment, PartitionMapAssessment::Inconclusive);
    assert!(report.partitions.is_empty());
    assert!(!report.limitations.is_empty());
}

#[test]
fn gpt_entry_count_over_limit_fails() {
    let img = gpt_image();
    let norm = normalize_disk_image(&img, DiskImageLimits::default()).ok().unwrap();
    let mut limits = DiskImageLimits::default();
    limits.max_partition_entries = 2;
    assert!(matches!(
        inspect_partition_map(&norm, &context(), limits),
        Err(C01Error::TooManyPartitionEntries)
    ));
}

#[test]
fn guid_formatting() {
    let bytes: Vec<u8> = (1u8..=16).collect();
    assert_eq!(format_gpt_guid(&bytes), "04030201-0605-0807-090a-0b0c0d0e0f10");
    assert_eq!(format_gpt_guid(&bytes[..3]), "gpt:invalid-guid");
}

#[test]
fn sparse_encoding_respects_output_bound() {
    let norm = normalize_disk_image(&[1, 2, 3, 4], DiskImageLimits::default()).ok().unwrap();
    let tight = DiskImageLimits { max_output_bytes: 1, max_sparse_chunks: 1, max_partition_entries: 1 };
    assert!(matches!(encode_android_sparse(&norm, 4, tight), Err(C01Error::OutputTooLarge)));
    let roomy = DiskImageLimits { max_output_bytes: 44, max_sparse_chunks: 1, max_partition_entries: 1 };
    assert_eq!(encode_android_sparse(&norm, 4, roomy).ok().unwrap().len(), 44);
}

#[test]
fn gpt_names_decode_surrogates_lossily() {
    let lone = [0x41, 0x00, 0x00, 0xd8, 0x42, 0x00, 0x00, 0x00];
    assert_eq!(decode_gpt_name(&lone).as_deref(), Some("A\u{fffd}B"));
    let pair = [0x3d, 0xd8, 0x00, 0xde, 0x00, 0x00];
    assert_eq!(decode_gpt_name(&pair).as_deref(), Some("\u{1f600}"));
    assert_eq!(decode_gpt_name(&[0x00, 0x00, 0x41, 0x00]), None);
}
