//! Exact child materialization from Apple firmware reports, and comparison of two reports
//! without signing, restore or boot claims.
use vstd::prelude::*;
use crate::apple::{
    AppleArchiveEntry, AppleComparison, AppleComparisonLevel, AppleDerComponent, AppleDerComponentKind, AppleEntryView,
    AppleFirmwareArtifactKind, AppleFirmwareContext, AppleFirmwareLimits, AppleFirmwareReport, AppleManifest,
    AppleManifestView, AppleMaterialization, AppleMaterializationView, AppleReportView, AppleStaticProofLevel, C04Error,
    DerComponentValue, apple_context_fault, apple_entry_views, apple_limits_valid, der_component_values,
    manifest_opt_view, validate_apple_context, validate_apple_limits,
};
use crate::apple_manifest::{entry_at, find_archive_entry};
use crate::digest::{sha256_hex, sha256_hex_of};
use crate::partition_access::copy_bytes;
use crate::partition_map::{push_string, string_views};
use crate::text::owned;

verus! {

/// The failure of binding a report to the source and context, if any.
pub open spec fn binding_fault(
    source: Seq<u8>,
    rep: AppleReportView,
    context: AppleFirmwareContext,
    limits: AppleFirmwareLimits,
) -> Option<C04Error> {
    match apple_context_fault(context) {
        Some(e) => Some(e),
        None => if !apple_limits_valid(limits) {
            Some(C04Error::InvalidLimits)
        } else if rep.source_revision != context.source_revision_ref@ || rep.source_size != source.len()
            || rep.source_sha256 != sha256_hex_of(source) {
            Some(C04Error::SourceBindingMismatch)
        } else {
            None
        },
    }
}

fn check_binding(
    source: &[u8],
    report: &AppleFirmwareReport,
    context: &AppleFirmwareContext,
    limits: AppleFirmwareLimits,
) -> (r: Result<(), C04Error>)
    ensures
        match binding_fault(source@, report@, *context, limits) {
            Some(e) => r == Err::<(), C04Error>(e),
            None => r is Ok,
        },
{
    validate_apple_context(context)?;
    validate_apple_limits(limits)?;
    let digest = sha256_hex(source);
    if !report.source_revision_ref.same_as(&context.source_revision_ref) || report.source_size != source.len() as u64
        || report.source_sha256 != digest {
        return Err(C04Error::SourceBindingMismatch);
    }
    Ok(())
}

/// Whether an artifact family is a ZIP-framed archive.
pub open spec fn is_archive_kind(k: AppleFirmwareArtifactKind) -> bool {
    k == AppleFirmwareArtifactKind::IpswArchive || k == AppleFirmwareArtifactKind::OtaArchive
}

/// The retained entry that an archive materialization request names, or the failure.
pub open spec fn archive_child_spec(
    source: Seq<u8>,
    rep: AppleReportView,
    path: Seq<char>,
    context: AppleFirmwareContext,
    limits: AppleFirmwareLimits,
) -> Result<AppleEntryView, C04Error> {
    match binding_fault(source, rep, context, limits) {
        Some(e) => Err(e),
        None => if !is_archive_kind(rep.kind) {
            Err(C04Error::ChildNotFound)
        } else {
            match entry_at(rep.entries, path) {
                None => Err(C04Error::ChildNotFound),
                Some(e) => if e.1 > limits.max_materialized_bytes {
                    Err(C04Error::MaterializationTooLarge)
                } else if sha256_hex_of(e.4) != e.2 {
                    Err(C04Error::ReportIntegrityMismatch)
                } else {
                    Ok(e)
                },
            }
        },
    }
}

/// Materialize one exact recovered archive entry: its path, digest and bytes, bound to the
/// report's source revision.
pub fn materialize_apple_archive_entry(
    source: &[u8],
    report: &AppleFirmwareReport,
    path: &str,
    context: &AppleFirmwareContext,
    limits: AppleFirmwareLimits,
) -> (r: Result<AppleMaterialization, C04Error>)
    ensures
        match archive_child_spec(source@, report@, path@, *context, limits) {
            Ok(e) => r matches Ok(m) && m@ == (AppleMaterializationView {
                name: e.0,
                object_class: "apple.firmware.archive_entry"@,
                source_revision_ref: report@.source_revision,
                sha256: e.2,
                bytes: e.4,
            }),
            Err(e) => r == Err::<AppleMaterialization, C04Error>(e),
        },
{
    check_binding(source, report, context, limits)?;
    let is_archive = match report.kind {
        AppleFirmwareArtifactKind::IpswArchive => true,
        AppleFirmwareArtifactKind::OtaArchive => true,
        _ => false,
    };
    if !is_archive {
        return Err(C04Error::ChildNotFound);
    }
    let wanted = owned(path);
    let k = match find_archive_entry(&report.archive_entries, &wanted) {
        None => {
            return Err(C04Error::ChildNotFound);
        },
        Some(k) => k,
    };
    let entry = &report.archive_entries[k];
    assert(entry.entry_view() == report@.entries[k as int]);
    if entry.size() > limits.max_materialized_bytes {
        return Err(C04Error::MaterializationTooLarge);
    }
    let bytes = entry.bytes_vec();
    let digest = sha256_hex(bytes.as_slice());
    if digest != *entry.digest_text() {
        return Err(C04Error::ReportIntegrityMismatch);
    }
    Ok(
        AppleMaterialization::from_parts(
            entry.path_text().clone(),
            owned("apple.firmware.archive_entry"),
            report.source_revision_ref.duplicate(),
            entry.digest_text().clone(),
            bytes,
        ),
    )
}

/// The first DER component with the given name.
pub open spec fn der_at(cs: Seq<DerComponentValue>, name: Seq<char>) -> Option<DerComponentValue>
    decreases cs.len(),
{
    if cs.len() == 0 {
        None
    } else if cs[0].1 == name {
        Some(cs[0])
    } else {
        der_at(cs.drop_first(), name)
    }
}

/// The DER component that a materialization request names, or the failure.
pub open spec fn der_child_spec(
    source: Seq<u8>,
    rep: AppleReportView,
    name: Seq<char>,
    context: AppleFirmwareContext,
    limits: AppleFirmwareLimits,
) -> Result<DerComponentValue, C04Error> {
    match binding_fault(source, rep, context, limits) {
        Some(e) => Err(e),
        None => match der_at(rep.der, name) {
            None => Err(C04Error::ChildNotFound),
            Some(c) => if c.3 < c.2 {
                Err(C04Error::AccountingOverflow)
            } else if c.3 - c.2 > limits.max_materialized_bytes {
                Err(C04Error::MaterializationTooLarge)
            } else if c.3 > source.len() {
                Err(C04Error::SourceBindingMismatch)
            } else if sha256_hex_of(source.subrange(c.2 as int, c.3 as int)) != c.4 {
                Err(C04Error::SourceBindingMismatch)
            } else {
                Ok(c)
            },
        },
    }
}

fn find_der(components: &Vec<AppleDerComponent>, name: &String) -> (r: Option<usize>)
    ensures
        match der_at(der_component_values(components@), name@) {
            Some(c) => r matches Some(i) && i < components@.len() && der_component_values(components@)[i as int] == c,
            None => r is None,
        },
{
    let ghost cs = der_component_values(components@);
    let mut i: usize = 0;
    assert(cs.skip(0) =~= cs);
    while i < components.len()
        invariant
            i <= components@.len(),
            cs == der_component_values(components@),
            der_at(cs, name@) == der_at(cs.skip(i as int), name@),
        decreases components.len() - i,
    {
        assert(cs.skip(i as int).len() > 0);
        assert(cs.skip(i as int)[0] == cs[i as int]);
        if components[i].name == *name {
            return Some(i);
        }
        assert(cs.skip(i as int).drop_first() =~= cs.skip(i as int + 1));
        i = i + 1;
    }
    assert(cs.skip(i as int) =~= Seq::<DerComponentValue>::empty());
    None
}

/// Materialize one exact source-backed IMG4-family component: its name, digest and the source
/// bytes of its range, bound to the report's source revision.
pub fn materialize_apple_der_component(
    source: &[u8],
    report: &AppleFirmwareReport,
    component_name: &str,
    context: &AppleFirmwareContext,
    limits: AppleFirmwareLimits,
) -> (r: Result<AppleMaterialization, C04Error>)
    ensures
        match der_child_spec(source@, report@, component_name@, *context, limits) {
            Ok(c) => r matches Ok(m) && m@ == (AppleMaterializationView {
                name: c.1,
                object_class: "apple.firmware.der_component"@,
                source_revision_ref: report@.source_revision,
                sha256: c.4,
                bytes: source@.subrange(c.2 as int, c.3 as int),
            }),
            Err(e) => r == Err::<AppleMaterialization, C04Error>(e),
        },
{
    check_binding(source, report, context, limits)?;
    let wanted = owned(component_name);
    let k = match find_der(&report.der_components, &wanted) {
        None => {
            return Err(C04Error::ChildNotFound);
        },
        Some(k) => k,
    };
    let c = &report.der_components[k];
    if c.byte_end_exclusive < c.byte_start {
        return Err(C04Error::AccountingOverflow);
    }
    if c.byte_end_exclusive - c.byte_start > limits.max_materialized_bytes {
        return Err(C04Error::MaterializationTooLarge);
    }
    if c.byte_end_exclusive > source.len() as u64 {
        return Err(C04Error::SourceBindingMismatch);
    }
    let bytes = copy_bytes(source, c.byte_start as usize, c.byte_end_exclusive as usize);
    let digest = sha256_hex(bytes.as_slice());
    if digest != c.sha256 {
        return Err(C04Error::SourceBindingMismatch);
    }
    Ok(
        AppleMaterialization::from_parts(
            c.name.clone(),
            owned("apple.firmware.der_component"),
            report.source_revision_ref.duplicate(),
            c.sha256.clone(),
            bytes,
        ),
    )
}


/// The structural part of a retained entry: path, size and manifest-candidate flag.
pub open spec fn entry_shape(e: AppleEntryView) -> (Seq<char>, u64, bool) {
    (e.0, e.1, e.3)
}

/// The identity of a retained entry: path, size and digest.
pub open spec fn entry_identity(e: AppleEntryView) -> (Seq<char>, u64, Seq<char>) {
    (e.0, e.1, e.2)
}

/// The structural part of a DER component: kind, name and range.
pub open spec fn der_shape(c: DerComponentValue) -> (AppleDerComponentKind, Seq<char>, u64, u64) {
    (c.0, c.1, c.2, c.3)
}

/// The structural part of a manifest: its path and component (name, path) references.
pub open spec fn manifest_shape(m: Option<AppleManifestView>) -> Option<(Seq<char>, Seq<(Seq<char>, Seq<char>)>)> {
    match m {
        Some(x) => Some(
            (
                x.manifest_path,
                x.components.map_values(|c: (Seq<char>, Seq<char>, Seq<char>, u64)| (c.0, c.1)),
            ),
        ),
        None => None,
    }
}

/// The identity of a manifest: its path and digest.
pub open spec fn manifest_identity(m: Option<AppleManifestView>) -> Option<(Seq<char>, Seq<char>)> {
    match m {
        Some(x) => Some((x.manifest_path, x.manifest_sha256)),
        None => None,
    }
}

/// Structural projection of a report.
pub open spec fn apple_shape(r: AppleReportView) -> (
    AppleFirmwareArtifactKind,
    Seq<(Seq<char>, u64, bool)>,
    Option<(Seq<char>, Seq<(Seq<char>, Seq<char>)>)>,
    Seq<(AppleDerComponentKind, Seq<char>, u64, u64)>,
) {
    (
        r.kind,
        r.entries.map_values(|e: AppleEntryView| entry_shape(e)),
        manifest_shape(r.manifest),
        r.der.map_values(|c: DerComponentValue| der_shape(c)),
    )
}

/// Retained component identities of a report: archive entries, DER components and manifest.
pub open spec fn apple_identity(r: AppleReportView) -> (
    Seq<(Seq<char>, u64, Seq<char>)>,
    Seq<DerComponentValue>,
    Option<(Seq<char>, Seq<char>)>,
) {
    (r.entries.map_values(|e: AppleEntryView| entry_identity(e)), r.der, manifest_identity(r.manifest))
}

/// The strongest comparison level two reports establish.
pub open spec fn apple_level_spec(l: AppleReportView, r: AppleReportView) -> AppleComparisonLevel {
    if l.source_sha256 == r.source_sha256 && l.source_size == r.source_size {
        AppleComparisonLevel::ByteExact
    } else if l.kind == r.kind && apple_shape(l) == apple_shape(r) && apple_identity(l) == apple_identity(r) {
        AppleComparisonLevel::ComponentExact
    } else if l.kind == r.kind && apple_shape(l) == apple_shape(r) {
        AppleComparisonLevel::StructureOnly
    } else {
        AppleComparisonLevel::Different
    }
}

/// Debug name of an artifact family.
pub open spec fn apple_kind_name(k: AppleFirmwareArtifactKind) -> Seq<char> {
    match k {
        AppleFirmwareArtifactKind::IpswArchive => "IpswArchive"@,
        AppleFirmwareArtifactKind::OtaArchive => "OtaArchive"@,
        AppleFirmwareArtifactKind::Img4 => "Img4"@,
        AppleFirmwareArtifactKind::Im4p => "Im4p"@,
        AppleFirmwareArtifactKind::Im4m => "Im4m"@,
        AppleFirmwareArtifactKind::Im4r => "Im4r"@,
    }
}

fn kind_name(k: AppleFirmwareArtifactKind) -> (r: &'static str)
    ensures
        r@ == apple_kind_name(k),
{
    match k {
        AppleFirmwareArtifactKind::IpswArchive => "IpswArchive",
        AppleFirmwareArtifactKind::OtaArchive => "OtaArchive",
        AppleFirmwareArtifactKind::Img4 => "Img4",
        AppleFirmwareArtifactKind::Im4p => "Im4p",
        AppleFirmwareArtifactKind::Im4m => "Im4m",
        AppleFirmwareArtifactKind::Im4r => "Im4r",
    }
}

/// The differences two reports show, in a fixed order: the family, the structure, then the
/// component bytes when the structure matches.
pub open spec fn apple_differences_spec(l: AppleReportView, r: AppleReportView) -> Seq<Seq<char>> {
    (if l.kind != r.kind {
        seq!["kind:"@ + apple_kind_name(l.kind) + "->"@ + apple_kind_name(r.kind)]
    } else {
        Seq::empty()
    }) + (if apple_shape(l) != apple_shape(r) {
        seq!["component_structure_changed"@]
    } else {
        Seq::empty()
    }) + (if apple_shape(l) == apple_shape(r) && apple_identity(l) != apple_identity(r) {
        seq!["component_bytes_changed"@]
    } else {
        Seq::empty()
    })
}

fn entries_same(a: &Vec<AppleArchiveEntry>, b: &Vec<AppleArchiveEntry>, by_digest: bool) -> (r: bool)
    ensures
        !by_digest ==> r == (apple_entry_views(a@).map_values(|e: AppleEntryView| entry_shape(e))
            == apple_entry_views(b@).map_values(|e: AppleEntryView| entry_shape(e))),
        by_digest ==> r == (apple_entry_views(a@).map_values(|e: AppleEntryView| entry_identity(e))
            == apple_entry_views(b@).map_values(|e: AppleEntryView| entry_identity(e))),
{
    let ghost av = apple_entry_views(a@);
    let ghost bv = apple_entry_views(b@);
    let ghost sa = av.map_values(|e: AppleEntryView| entry_shape(e));
    let ghost sb = bv.map_values(|e: AppleEntryView| entry_shape(e));
    let ghost ia = av.map_values(|e: AppleEntryView| entry_identity(e));
    let ghost ib = bv.map_values(|e: AppleEntryView| entry_identity(e));
    if a.len() != b.len() {
        assert(sa.len() != sb.len() && ia.len() != ib.len());
        return false;
    }
    let mut i: usize = 0;
    while i < a.len()
        invariant
            i <= a@.len() == b@.len(),
            av == apple_entry_views(a@),
            bv == apple_entry_views(b@),
            sa == av.map_values(|e: AppleEntryView| entry_shape(e)),
            sb == bv.map_values(|e: AppleEntryView| entry_shape(e)),
            ia == av.map_values(|e: AppleEntryView| entry_identity(e)),
            ib == bv.map_values(|e: AppleEntryView| entry_identity(e)),
            !by_digest ==> forall|k: int| 0 <= k < i ==> sa[k] == sb[k],
            by_digest ==> forall|k: int| 0 <= k < i ==> ia[k] == ib[k],
        decreases a.len() - i,
    {
        let x = &a[i];
        let y = &b[i];
        assert(av[i as int] == x.entry_view() && bv[i as int] == y.entry_view());
        let same = if by_digest {
            *x.path_text() == *y.path_text() && x.size() == y.size() && *x.digest_text() == *y.digest_text()
        } else {
            *x.path_text() == *y.path_text() && x.size() == y.size() && x.is_candidate() == y.is_candidate()
        };
        if !same {
            if by_digest {
                assert(ia[i as int] != ib[i as int]);
            } else {
                assert(sa[i as int] != sb[i as int]);
            }
            return false;
        }
        i = i + 1;
    }
    if by_digest {
        assert(ia =~= ib);
    } else {
        assert(sa =~= sb);
    }
    true
}

fn ders_same(a: &Vec<AppleDerComponent>, b: &Vec<AppleDerComponent>, by_digest: bool) -> (r: bool)
    ensures
        !by_digest ==> r == (der_component_values(a@).map_values(|c: DerComponentValue| der_shape(c))
            == der_component_values(b@).map_values(|c: DerComponentValue| der_shape(c))),
        by_digest ==> r == (der_component_values(a@) == der_component_values(b@)),
{
    let ghost av = der_component_values(a@);
    let ghost bv = der_component_values(b@);
    let ghost sa = av.map_values(|c: DerComponentValue| der_shape(c));
    let ghost sb = bv.map_values(|c: DerComponentValue| der_shape(c));
    if a.len() != b.len() {
        assert(sa.len() != sb.len() && av.len() != bv.len());
        return false;
    }
    let mut i: usize = 0;
    while i < a.len()
        invariant
            i <= a@.len() == b@.len(),
            av == der_component_values(a@),
            bv == der_component_values(b@),
            sa == av.map_values(|c: DerComponentValue| der_shape(c)),
            sb == bv.map_values(|c: DerComponentValue| der_shape(c)),
            !by_digest ==> forall|k: int| 0 <= k < i ==> sa[k] == sb[k],
            by_digest ==> forall|k: int| 0 <= k < i ==> av[k] == bv[k],
        decreases a.len() - i,
    {
        let x = &a[i];
        let y = &b[i];
        let same = x.kind == y.kind && x.name == y.name && x.byte_start == y.byte_start && x.byte_end_exclusive
            == y.byte_end_exclusive && (!by_digest || x.sha256 == y.sha256);
        if !same {
            if by_digest {
                assert(av[i as int] != bv[i as int]);
            } else {
                assert(sa[i as int] != sb[i as int]);
            }
            return false;
        }
        i = i + 1;
    }
    if by_digest {
        assert(av =~= bv);
    } else {
        assert(sa =~= sb);
    }
    true
}

fn manifest_refs_same(a: &AppleManifest, b: &AppleManifest) -> (r: bool)
    ensures
        r == (a@.components.map_values(|c: (Seq<char>, Seq<char>, Seq<char>, u64)| (c.0, c.1))
            == b@.components.map_values(|c: (Seq<char>, Seq<char>, Seq<char>, u64)| (c.0, c.1))),
{
    let ghost sa = a@.components.map_values(|c: (Seq<char>, Seq<char>, Seq<char>, u64)| (c.0, c.1));
    let ghost sb = b@.components.map_values(|c: (Seq<char>, Seq<char>, Seq<char>, u64)| (c.0, c.1));
    if a.components.len() != b.components.len() {
        assert(sa.len() != sb.len());
        return false;
    }
    let mut i: usize = 0;
    while i < a.components.len()
        invariant
            i <= a.components@.len() == b.components@.len(),
            sa == a@.components.map_values(|c: (Seq<char>, Seq<char>, Seq<char>, u64)| (c.0, c.1)),
            sb == b@.components.map_values(|c: (Seq<char>, Seq<char>, Seq<char>, u64)| (c.0, c.1)),
            forall|k: int| 0 <= k < i ==> sa[k] == sb[k],
        decreases a.components.len() - i,
    {
        let x = &a.components[i];
        let y = &b.components[i];
        assert(sa[i as int] == (x.name@, x.path@) && sb[i as int] == (y.name@, y.path@));
        if !(x.name == y.name && x.path == y.path) {
            return false;
        }
        i = i + 1;
    }
    assert(sa =~= sb);
    true
}

fn manifests_same(a: &Option<AppleManifest>, b: &Option<AppleManifest>, by_digest: bool) -> (r: bool)
    ensures
        !by_digest ==> r == (manifest_shape(manifest_opt_view(*a)) == manifest_shape(manifest_opt_view(*b))),
        by_digest ==> r == (manifest_identity(manifest_opt_view(*a)) == manifest_identity(manifest_opt_view(*b))),
{
    match (a, b) {
        (None, None) => true,
        (Some(x), Some(y)) => {
            if x.manifest_path != y.manifest_path {
                return false;
            }
            if by_digest {
                x.manifest_sha256 == y.manifest_sha256
            } else {
                manifest_refs_same(x, y)
            }
        },
        _ => false,
    }
}

/// Compare two reports without making signing, restore or boot claims.
pub fn compare_apple_firmware(left: &AppleFirmwareReport, right: &AppleFirmwareReport) -> (r: AppleComparison)
    ensures
        r.level == apple_level_spec(left@, right@),
        string_views(r.differences@) == apple_differences_spec(left@, right@),
        r.left_source_revision_ref@ == left.source_revision_ref@,
        r.right_source_revision_ref@ == right.source_revision_ref@,
{
    let same_kind = left.kind == right.kind;
    let shape_eq = same_kind && entries_same(&left.archive_entries, &right.archive_entries, false) && manifests_same(
        &left.manifest,
        &right.manifest,
        false,
    ) && ders_same(&left.der_components, &right.der_components, false);
    let ident_eq = entries_same(&left.archive_entries, &right.archive_entries, true) && ders_same(
        &left.der_components,
        &right.der_components,
        true,
    ) && manifests_same(&left.manifest, &right.manifest, true);
    assert(shape_eq == (apple_shape(left@) == apple_shape(right@)));
    assert(ident_eq == (apple_identity(left@) == apple_identity(right@)));
    let mut differences: Vec<String> = Vec::new();
    if !same_kind {
        let mut d = owned("kind:");
        d.append(kind_name(left.kind));
        d.append("->");
        d.append(kind_name(right.kind));
        push_string(&mut differences, d);
    }
    let ghost d1 = string_views(differences@);
    if !shape_eq {
        push_string(&mut differences, owned("component_structure_changed"));
    }
    let ghost d2 = string_views(differences@);
    if shape_eq && !ident_eq {
        push_string(&mut differences, owned("component_bytes_changed"));
    }
    assert(string_views(differences@) =~= apple_differences_spec(left@, right@));
    let level = if left.source_sha256 == right.source_sha256 && left.source_size == right.source_size {
        AppleComparisonLevel::ByteExact
    } else if shape_eq && ident_eq {
        AppleComparisonLevel::ComponentExact
    } else if shape_eq {
        AppleComparisonLevel::StructureOnly
    } else {
        AppleComparisonLevel::Different
    };
    AppleComparison {
        left_source_revision_ref: left.source_revision_ref.duplicate(),
        right_source_revision_ref: right.source_revision_ref.duplicate(),
        level,
        differences,
    }
}

/// The rebuild proof level a comparison level earns.
pub open spec fn apple_rebuild_spec(l: AppleComparisonLevel) -> Option<AppleStaticProofLevel> {
    match l {
        AppleComparisonLevel::Different => None,
        AppleComparisonLevel::StructureOnly => Some(AppleStaticProofLevel::StructureChecked),
        AppleComparisonLevel::ComponentExact => Some(AppleStaticProofLevel::ComponentExact),
        AppleComparisonLevel::ByteExact => Some(AppleStaticProofLevel::ByteExact),
    }
}

/// Convert comparison evidence into an explicit rebuild proof level.
pub fn assess_apple_rebuild(original: &AppleFirmwareReport, rebuilt: &AppleFirmwareReport) -> (r: Option<
    AppleStaticProofLevel,
>)
    ensures
        r == apple_rebuild_spec(apple_level_spec(original@, rebuilt@)),
{
    match compare_apple_firmware(original, rebuilt).level {
        AppleComparisonLevel::Different => None,
        AppleComparisonLevel::StructureOnly => Some(AppleStaticProofLevel::StructureChecked),
        AppleComparisonLevel::ComponentExact => Some(AppleStaticProofLevel::ComponentExact),
        AppleComparisonLevel::ByteExact => Some(AppleStaticProofLevel::ByteExact),
    }
}

/// A report compared with itself is byte-exact and shows no differences.
pub proof fn lemma_apple_compare_reflexive(r: AppleReportView)
    ensures
        apple_level_spec(r, r) == AppleComparisonLevel::ByteExact,
        apple_differences_spec(r, r) == Seq::<Seq<char>>::empty(),
        apple_rebuild_spec(apple_level_spec(r, r)) == Some(AppleStaticProofLevel::ByteExact),
{
    assert(apple_differences_spec(r, r) =~= Seq::<Seq<char>>::empty());
}

/// The comparison level does not depend on the order of the two reports.
pub proof fn lemma_apple_compare_symmetric(l: AppleReportView, r: AppleReportView)
    ensures
        apple_level_spec(l, r) == apple_level_spec(r, l),
{
}

} // verus!
