//! Validation of untrusted Apple firmware archive inventories and manifest observations.
//!
//! Archive entries follow the same rules as sibling firmware bundles: bounded count and bytes,
//! canonical unique relative paths, and declared digests equal to the digests of the recovered
//! bytes; retained entries are kept in path order.
use vstd::prelude::*;
use crate::digest::sha256_hex_of;
use crate::apple::{
    AppleArchiveEntry, AppleArchiveObservation, AppleEntryView, AppleFirmwareLimits, C04Error, apple_entry_views,
};
use crate::mediatek::{C05Error, MediatekBundleEntryObservation, MediatekBundleObservation, MediatekLimits};
use crate::mediatek_bundle::{
    ObsView, bundle_entry_sound, bundle_observation_spec, entry_from, lemma_bundle_entries_sound, check_limitations, check_text, obs_views, scatter_limitations_ok,
    validate_bundle_observation,
};
use crate::mediatek_scatter::{bundle_path, bundle_path_fault, scatter_string_ok};
use crate::partition_map::{copy_strings, push_string, string_views};
use crate::text::owned;
use crate::text_ops::chars_of;

verus! {

/// Archive limits expressed as bundle limits: entry count, recovered bytes and string bytes.
pub open spec fn bundle_limits(limits: AppleFirmwareLimits) -> MediatekLimits {
    MediatekLimits {
        max_source_bytes: 1,
        max_partitions: 1,
        max_bundle_entries: limits.max_archive_entries,
        max_recovered_bytes: limits.max_recovered_bytes,
        max_string_bytes: limits.max_string_bytes,
        max_lines: 1,
        max_evidence_partitions: 1,
        max_materialized_bytes: 1,
    }
}

/// A bounded string: non-empty, at most `max_string_bytes` UTF-8 bytes, without NUL.
pub open spec fn apple_text_ok(s: Seq<char>, limits: AppleFirmwareLimits) -> bool {
    scatter_string_ok(s, bundle_limits(limits))
}

/// An optional bounded string.
pub open spec fn apple_optional_ok(o: Option<Seq<char>>, limits: AppleFirmwareLimits) -> bool {
    match o {
        Some(s) => apple_text_ok(s, limits),
        None => true,
    }
}

/// Every limitation is a bounded string.
pub open spec fn apple_limitations_ok(values: Seq<Seq<char>>, limits: AppleFirmwareLimits) -> bool {
    scatter_limitations_ok(values, bundle_limits(limits))
}

/// The archive failure that stands for a bundle validation failure.
pub open spec fn archive_error(e: C05Error) -> C04Error {
    match e {
        C05Error::InvalidString => C04Error::InvalidString,
        C05Error::InvalidBundlePath => C04Error::InvalidArchivePath,
        C05Error::DuplicateBundlePath => C04Error::DuplicateArchivePath,
        C05Error::DigestMismatch => C04Error::DigestMismatch,
        C05Error::TooManyEntries => C04Error::TooManyEntries,
        C05Error::TooManyRecoveredBytes => C04Error::TooManyRecoveredBytes,
        _ => C04Error::AccountingOverflow,
    }
}

/// Map a bundle validation failure to the archive failure.
pub fn to_archive_error(e: C05Error) -> (r: C04Error)
    ensures
        r == archive_error(e),
{
    match e {
        C05Error::InvalidString => C04Error::InvalidString,
        C05Error::InvalidBundlePath => C04Error::InvalidArchivePath,
        C05Error::DuplicateBundlePath => C04Error::DuplicateArchivePath,
        C05Error::DigestMismatch => C04Error::DigestMismatch,
        C05Error::TooManyEntries => C04Error::TooManyEntries,
        C05Error::TooManyRecoveredBytes => C04Error::TooManyRecoveredBytes,
        _ => C04Error::AccountingOverflow,
    }
}

/// The failure of archive path validation, if any.
pub open spec fn archive_path_fault(s: Seq<char>, limits: AppleFirmwareLimits) -> Option<C04Error> {
    match bundle_path_fault(s, bundle_limits(limits)) {
        Some(e) => Some(archive_error(e)),
        None => None,
    }
}

fn limits_for(limits: AppleFirmwareLimits) -> (r: MediatekLimits)
    ensures
        r == bundle_limits(limits),
{
    MediatekLimits {
        max_source_bytes: 1,
        max_partitions: 1,
        max_bundle_entries: limits.max_archive_entries,
        max_recovered_bytes: limits.max_recovered_bytes,
        max_string_bytes: limits.max_string_bytes,
        max_lines: 1,
        max_evidence_partitions: 1,
        max_materialized_bytes: 1,
    }
}

/// Validate bounded text.
pub fn check_apple_text(value: &str, limits: AppleFirmwareLimits) -> (r: Result<(), C04Error>)
    ensures
        r is Ok <==> apple_text_ok(value@, limits),
        r matches Err(e) ==> e == C04Error::InvalidString,
{
    match check_text(value, limits_for(limits)) {
        Ok(()) => Ok(()),
        Err(_) => Err(C04Error::InvalidString),
    }
}

/// Validate optional bounded text.
pub fn check_apple_optional(value: &Option<String>, limits: AppleFirmwareLimits) -> (r: Result<(), C04Error>)
    ensures
        r is Ok <==> apple_optional_ok(crate::mediatek::opt_view(*value), limits),
        r matches Err(e) ==> e == C04Error::InvalidString,
{
    match value {
        Some(s) => check_apple_text(s.as_str(), limits),
        None => Ok(()),
    }
}

/// Validate every limitation.
pub fn check_apple_limitations(values: &Vec<String>, limits: AppleFirmwareLimits) -> (r: Result<(), C04Error>)
    ensures
        r is Ok <==> apple_limitations_ok(string_views(values@), limits),
        r matches Err(e) ==> e == C04Error::InvalidString,
{
    match check_limitations(values, limits_for(limits)) {
        Ok(()) => Ok(()),
        Err(_) => Err(C04Error::InvalidString),
    }
}

/// Validate a canonical relative archive path.
pub fn check_archive_path(value: &str, limits: AppleFirmwareLimits) -> (r: Result<(), C04Error>)
    ensures
        match archive_path_fault(value@, limits) {
            Some(e) => r == Err::<(), C04Error>(e),
            None => r is Ok,
        },
{
    let cs = chars_of(value);
    match bundle_path(&cs, limits_for(limits)) {
        Ok(_) => Ok(()),
        Err(e) => Err(to_archive_error(e)),
    }
}

/// `s` ends with `suffix`.
pub open spec fn text_ends_with(s: Seq<char>, suffix: Seq<char>) -> bool {
    s.len() >= suffix.len() && s.subrange(s.len() - suffix.len(), s.len() as int) == suffix
}

/// A build-manifest or restore-manifest path, at the archive root or in a directory.
pub open spec fn manifest_candidate_spec(p: Seq<char>) -> bool {
    p == "BuildManifest.plist"@ || text_ends_with(p, "/BuildManifest.plist"@) || p == "Restore.plist"@
        || text_ends_with(p, "/Restore.plist"@)
}

fn ends_with_chars(s: &Vec<char>, suffix: &Vec<char>) -> (r: bool)
    ensures
        r == text_ends_with(s@, suffix@),
{
    if s.len() < suffix.len() {
        return false;
    }
    let off = s.len() - suffix.len();
    let mut i: usize = 0;
    while i < suffix.len()
        invariant
            off + suffix@.len() == s@.len(),
            suffix@.len() == suffix.len(),
            s@.len() == s.len(),
            i <= suffix@.len(),
            forall|k: int| 0 <= k < i ==> s@[off + k] == suffix@[k],
        decreases suffix.len() - i,
    {
        if s[off + i] != suffix[i] {
            assert(s@.subrange(off as int, s@.len() as int)[i as int] != suffix@[i as int]);
            return false;
        }
        i = i + 1;
    }
    assert(s@.subrange(off as int, s@.len() as int) =~= suffix@);
    true
}

fn same_chars(a: &Vec<char>, b: &Vec<char>) -> (r: bool)
    ensures
        r == (a@ == b@),
{
    if a.len() != b.len() {
        return false;
    }
    let r = ends_with_chars(a, b);
    proof {
        if r {
            assert(a@.subrange(0, a@.len() as int) =~= a@);
        } else {
            assert(a@.subrange(0, a@.len() as int) =~= a@);
        }
    }
    r
}

/// Whether an archive path names a build manifest or restore manifest.
pub fn is_manifest_candidate(path: &String) -> (r: bool)
    ensures
        r == manifest_candidate_spec(path@),
{
    let cs = chars_of(path.as_str());
    let a = chars_of("BuildManifest.plist");
    let b = chars_of("/BuildManifest.plist");
    let c = chars_of("Restore.plist");
    let d = chars_of("/Restore.plist");
    same_chars(&cs, &a) || ends_with_chars(&cs, &b) || same_chars(&cs, &c) || ends_with_chars(&cs, &d)
}

/// Abstract values of archive entry observations: path, bytes and declared digest.
pub open spec fn archive_obs_views(es: Seq<crate::apple::AppleArchiveEntryObservation>) -> Seq<ObsView> {
    es.map_values(|e: crate::apple::AppleArchiveEntryObservation| (e.path@, e.recovered_bytes@, e.expected_sha256@))
}

/// The retained archive entry of a validated bundle entry.
pub open spec fn apple_entry_of(e: (Seq<char>, u64, Seq<char>, Seq<u8>)) -> AppleEntryView {
    (e.0, e.1, e.2, manifest_candidate_spec(e.0), e.3)
}

/// Limitation recorded when the archive provider does not claim a complete inventory.
pub open spec fn incomplete_archive_note() -> Seq<char> {
    "archive Provider did not claim complete supported inventory"@
}

/// The validated form of an archive observation: retained entries in path order, the
/// completeness claim and the limitations.
pub open spec fn archive_observation_spec(
    provider: Seq<char>,
    es: Seq<ObsView>,
    complete: bool,
    lims: Seq<Seq<char>>,
    limits: AppleFirmwareLimits,
) -> Result<(Seq<AppleEntryView>, bool, Seq<Seq<char>>), C04Error> {
    if !apple_text_ok(provider, limits) {
        Err(C04Error::InvalidString)
    } else if !apple_limitations_ok(lims, limits) {
        Err(C04Error::InvalidString)
    } else {
        match bundle_observation_spec(es, complete, lims, bundle_limits(limits)) {
            Err(e) => Err(archive_error(e)),
            Ok(v) => Ok(
                (
                    v.0.map_values(|e: (Seq<char>, u64, Seq<char>, Seq<u8>)| apple_entry_of(e)),
                    complete,
                    if complete {
                        lims
                    } else {
                        lims.push(incomplete_archive_note())
                    },
                ),
            ),
        }
    }
}

/// An archive entry whose recorded size and digest are those of its bytes.
pub open spec fn apple_entry_sound(e: AppleEntryView) -> bool {
    e.1 == e.4.len() as u64 && e.2 == sha256_hex_of(e.4)
}

/// An archive entry whose path and bytes are those of an entry that the provider observed.
pub open spec fn apple_entry_from(es: Seq<ObsView>, e: AppleEntryView) -> bool {
    exists|j: int| 0 <= j < es.len() && (#[trigger] es[j]).0 == e.0 && es[j].1 == e.4
}

/// Every retained archive entry records the size and the SHA-256 digest of exactly its bytes,
/// and its path and bytes are those of an observed entry.
pub proof fn lemma_archive_entries_sound(
    provider: Seq<char>,
    es: Seq<ObsView>,
    complete: bool,
    lims: Seq<Seq<char>>,
    limits: AppleFirmwareLimits,
)
    ensures
        archive_observation_spec(provider, es, complete, lims, limits) matches Ok(v) ==> forall|k: int|
            0 <= k < v.0.len() ==> apple_entry_sound(#[trigger] v.0[k]) && apple_entry_from(es, v.0[k]),
{
    lemma_bundle_entries_sound(es, complete, lims, bundle_limits(limits));
    if let Ok(w) = bundle_observation_spec(es, complete, lims, bundle_limits(limits)) {
        let m = w.0.map_values(|e: (Seq<char>, u64, Seq<char>, Seq<u8>)| apple_entry_of(e));
        assert forall|k: int| 0 <= k < m.len() implies apple_entry_sound(#[trigger] m[k]) && apple_entry_from(
            es,
            m[k],
        ) by {
            assert(m[k] == apple_entry_of(w.0[k]));
            assert(bundle_entry_sound(w.0[k]));
            assert(entry_from(es, w.0[k]));
            let j = choose|j: int| 0 <= j < es.len() && (#[trigger] es[j]).0 == w.0[k].0 && es[j].1 == w.0[k].3;
            assert(es[j].0 == m[k].0 && es[j].1 == m[k].4);
        }
    }
}

/// Validate an untrusted archive observation.
pub fn validate_archive_observation(obs: &AppleArchiveObservation, provider_id: &str, limits: AppleFirmwareLimits) -> (r:
    Result<(Vec<AppleArchiveEntry>, bool, Vec<String>), C04Error>)
    ensures
        match archive_observation_spec(
            provider_id@,
            archive_obs_views(obs.entries@),
            obs.complete_claim,
            string_views(obs.limitations@),
            limits,
        ) {
            Ok(v) => r matches Ok(x) && apple_entry_views(x.0@) == v.0 && x.1 == v.1 && string_views(x.2@) == v.2,
            Err(e) => r == Err::<(Vec<AppleArchiveEntry>, bool, Vec<String>), C04Error>(e),
        },
{
    check_apple_text(provider_id, limits)?;
    check_apple_limitations(&obs.limitations, limits)?;
    let ghost es = archive_obs_views(obs.entries@);
    let mut converted: Vec<MediatekBundleEntryObservation> = Vec::new();
    let mut i: usize = 0;
    while i < obs.entries.len()
        invariant
            i <= obs.entries@.len(),
            es == archive_obs_views(obs.entries@),
            obs_views(converted@) == es.take(i as int),
        decreases obs.entries.len() - i,
    {
        let e = &obs.entries[i];
        let c = MediatekBundleEntryObservation {
            path: e.path.clone(),
            recovered_bytes: e.recovered_bytes.clone(),
            expected_sha256: e.expected_sha256.clone(),
        };
        let ghost before = obs_views(converted@);
        converted.push(c);
        assert(obs_views(converted@) =~= before.push((e.path@, e.recovered_bytes@, e.expected_sha256@)));
        assert(es.take(i as int + 1) =~= es.take(i as int).push(es[i as int]));
        i = i + 1;
    }
    assert(es.take(obs.entries@.len() as int) =~= es);
    let bundle = MediatekBundleObservation {
        entries: converted,
        complete_claim: obs.complete_claim,
        limitations: copy_strings(&obs.limitations),
    };
    let ml = limits_for(limits);
    let (validated, complete, mut lims) = match validate_bundle_observation(&bundle, ml) {
        Ok(x) => x,
        Err(e) => {
            return Err(to_archive_error(e));
        },
    };
    let ghost vv = crate::mediatek::bundle_entry_views(validated@);
    let mut entries: Vec<AppleArchiveEntry> = Vec::new();
    let mut k: usize = 0;
    while k < validated.len()
        invariant
            k <= validated@.len(),
            vv == crate::mediatek::bundle_entry_views(validated@),
            apple_entry_views(entries@) == vv.take(k as int).map_values(
                |e: (Seq<char>, u64, Seq<char>, Seq<u8>)| apple_entry_of(e),
            ),
        decreases validated.len() - k,
    {
        let (path, size, digest, bytes) = validated[k].duplicate().into_parts();
        assert((path@, size, digest@, bytes@) == vv[k as int]);
        let candidate = is_manifest_candidate(&path);
        let entry = AppleArchiveEntry::from_parts(path, size, digest, candidate, bytes);
        let ghost before = apple_entry_views(entries@);
        entries.push(entry);
        assert(apple_entry_views(entries@) =~= before.push(entry.entry_view()));
        assert(vv.take(k as int + 1).map_values(|e: (Seq<char>, u64, Seq<char>, Seq<u8>)| apple_entry_of(e))
            =~= vv.take(k as int).map_values(|e: (Seq<char>, u64, Seq<char>, Seq<u8>)| apple_entry_of(e)).push(
            apple_entry_of(vv[k as int]),
        ));
        k = k + 1;
    }
    assert(vv.take(validated@.len() as int) =~= vv);
    if !complete {
        push_string(&mut lims, owned("archive Provider did not claim complete supported inventory"));
    }
    Ok((entries, complete, lims))
}

} // verus!
