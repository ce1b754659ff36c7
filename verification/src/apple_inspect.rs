//! Apple firmware inspection: ZIP-framed restore and over-the-air archives through replaceable
//! archive and manifest providers, and IMG4-family DER objects parsed directly.
use vstd::prelude::*;
use crate::apple::{
    AppleArchiveEntry, AppleArchiveObservation, AppleArchiveProvider, AppleArchiveRole, AppleAssessment,
    AppleEntryView, AppleFirmwareArtifactKind, AppleFirmwareContext, AppleFirmwareLimits, AppleFirmwareReport,
    AppleInspectRequest, AppleManifest, AppleManifestObservation, AppleManifestProvider, AppleManifestView,
    AppleReportView, AppleStaticProofLevel, AppleTrustAssessment, C04Error, DerComponentValue, apple_context_fault,
    apple_entry_views, apple_limits_valid, validate_apple_context, validate_apple_limits,
};
use crate::apple_archive::{
    apple_entry_from, apple_entry_sound, apple_text_ok, archive_obs_views, lemma_archive_entries_sound, archive_observation_spec, check_apple_text, validate_archive_observation,
};
use crate::apple_img4::{der_object_spec, inspect_der};
use crate::apple_manifest::{manifest_obs_view, manifest_spec, validate_manifest_observation};
use crate::digest::{sha256_hex, sha256_hex_of};
use crate::partition_map::{copy_strings, push_string, string_views};
use crate::text::owned;

verus! {

/// What an archive provider answered: its alias and its observation or failure text.
pub type ArchiveAnswer = (Seq<char>, Result<AppleArchiveObservation, String>);

/// What a manifest provider answered: its alias and its observation or failure text.
pub type ManifestAnswer = (Seq<char>, Result<AppleManifestObservation, String>);

/// ZIP local-header, empty-archive or spanned-archive magic at the start of the source.
pub open spec fn zip_magic(s: Seq<u8>) -> bool {
    s.len() >= 4 && s[0] == 0x50 && s[1] == 0x4b && ((s[2] == 3 && s[3] == 4) || (s[2] == 5 && s[3] == 6) || (
    s[2] == 7 && s[3] == 8))
}

/// Whether the source starts with ZIP framing.
pub fn looks_like_zip(source: &[u8]) -> (r: bool)
    ensures
        r == zip_magic(source@),
{
    source.len() >= 4 && source[0] == 0x50 && source[1] == 0x4b && ((source[2] == 3 && source[3] == 4) || (source[2]
        == 5 && source[3] == 6) || (source[2] == 7 && source[3] == 8))
}

/// The artifact family of an archive role.
pub open spec fn role_kind(role: AppleArchiveRole) -> AppleFirmwareArtifactKind {
    match role {
        AppleArchiveRole::Ipsw => AppleFirmwareArtifactKind::IpswArchive,
        AppleArchiveRole::Ota => AppleFirmwareArtifactKind::OtaArchive,
    }
}

/// The first retained manifest candidate.
pub open spec fn first_candidate(es: Seq<AppleEntryView>) -> Option<AppleEntryView>
    decreases es.len(),
{
    if es.len() == 0 {
        None
    } else if es[0].3 {
        Some(es[0])
    } else {
        first_candidate(es.drop_first())
    }
}

/// Limitation recorded without a manifest provider.
pub open spec fn no_manifest_provider_note() -> Seq<char> {
    "manifest Provider not supplied; archive inventory is not manifest linkage"@
}

/// Limitation recorded when no manifest candidate was retained.
pub open spec fn no_candidate_note() -> Seq<char> {
    "no BuildManifest/restore-manifest candidate was retained"@
}

/// Limitation recorded when a manifest component path did not resolve.
pub open spec fn unresolved_note() -> Seq<char> {
    "one or more manifest component paths did not resolve exactly"@
}

/// Limitation recorded for ZIP framing without an archive provider.
pub open spec fn no_archive_provider_note() -> Seq<char> {
    "archive Provider not supplied; ZIP framing alone is not inventory"@
}

/// The manifest stage: no provider, a refused alias, no candidate, a provider failure, or the
/// validated manifest with the limitations it adds.
pub open spec fn manifest_stage(es: Seq<AppleEntryView>, manifest: Option<ManifestAnswer>, limits: AppleFirmwareLimits) -> Result<
    (Option<AppleManifestView>, Seq<Seq<char>>),
    C04Error,
> {
    match manifest {
        None => Ok((None, seq![no_manifest_provider_note()])),
        Some(a) => if !apple_text_ok(a.0, limits) {
            Err(C04Error::InvalidString)
        } else {
            match first_candidate(es) {
                None => Ok((None, seq![no_candidate_note()])),
                Some(c) => match a.1 {
                    Err(msg) => Err(C04Error::ManifestProvider(msg)),
                    Ok(o) => match manifest_spec(a.0, c, es, manifest_obs_view(o), limits) {
                        Err(e) => Err(e),
                        Ok(m) => Ok(
                            (
                                Some(m),
                                m.limitations + if m.unresolved_paths.len() > 0 {
                                    seq![unresolved_note()]
                                } else {
                                    Seq::empty()
                                },
                            ),
                        ),
                    },
                },
            }
        },
    }
}

/// Whether a manifest links every referenced component completely.
pub open spec fn manifest_linked(m: Option<AppleManifestView>) -> bool {
    match m {
        Some(x) => x.complete_claim && x.unresolved_paths.len() == 0 && x.limitations.len() == 0,
        None => false,
    }
}

/// The report of a validated archive inventory and manifest stage.
pub open spec fn archive_assemble(
    revision: (Seq<char>, Seq<char>),
    source: Seq<u8>,
    kind: AppleFirmwareArtifactKind,
    alias: Seq<char>,
    es: Seq<AppleEntryView>,
    complete: bool,
    lims: Seq<Seq<char>>,
    m: Option<AppleManifestView>,
    extra: Seq<Seq<char>>,
) -> AppleReportView {
    let linked = manifest_linked(m);
    let limitations = lims + extra;
    AppleReportView {
        source_revision: revision,
        source_sha256: sha256_hex_of(source),
        source_size: source.len() as u64,
        kind,
        assessment: if complete && linked && limitations.len() == 0 {
            AppleAssessment::Complete
        } else {
            AppleAssessment::Partial
        },
        trust: AppleTrustAssessment::NotEstablished,
        proof_level: Some(
            if linked {
                AppleStaticProofLevel::ManifestLinked
            } else if complete {
                AppleStaticProofLevel::StructureChecked
            } else {
                AppleStaticProofLevel::InventoryOnly
            },
        ),
        archive_alias: Some(alias),
        entries: es,
        manifest: m,
        der: Seq::empty(),
        warnings: Seq::empty(),
        limitations,
    }
}

/// The report of ZIP framing under a declared role, given what the providers answered.
pub open spec fn archive_report_spec(
    revision: (Seq<char>, Seq<char>),
    source: Seq<u8>,
    role: AppleArchiveRole,
    limits: AppleFirmwareLimits,
    archive: Option<ArchiveAnswer>,
    manifest: Option<ManifestAnswer>,
) -> Result<AppleReportView, C04Error> {
    match archive {
        None => Ok(
            AppleReportView {
                source_revision: revision,
                source_sha256: sha256_hex_of(source),
                source_size: source.len() as u64,
                kind: role_kind(role),
                assessment: AppleAssessment::Inconclusive,
                trust: AppleTrustAssessment::NotEstablished,
                proof_level: None,
                archive_alias: None,
                entries: Seq::empty(),
                manifest: None,
                der: Seq::empty(),
                warnings: Seq::empty(),
                limitations: seq![no_archive_provider_note()],
            },
        ),
        Some(a) => if !apple_text_ok(a.0, limits) {
            Err(C04Error::InvalidString)
        } else {
            match a.1 {
                Err(msg) => Err(C04Error::ArchiveProvider(msg)),
                Ok(o) => match archive_observation_spec(
                    a.0,
                    archive_obs_views(o.entries@),
                    o.complete_claim,
                    string_views(o.limitations@),
                    limits,
                ) {
                    Err(e) => Err(e),
                    Ok(v) => match manifest_stage(v.0, manifest, limits) {
                        Err(e) => Err(e),
                        Ok(ms) => Ok(archive_assemble(revision, source, role_kind(role), a.0, v.0, v.1, v.2, ms.0, ms.1)),
                    },
                },
            }
        },
    }
}

/// The report of an IMG4-family object.
pub open spec fn der_report_spec(revision: (Seq<char>, Seq<char>), source: Seq<u8>, limits: AppleFirmwareLimits) -> Result<
    AppleReportView,
    C04Error,
> {
    match der_object_spec(source, limits) {
        Err(e) => Err(e),
        Ok(v) => Ok(
            AppleReportView {
                source_revision: revision,
                source_sha256: sha256_hex_of(source),
                source_size: source.len() as u64,
                kind: v.0,
                assessment: AppleAssessment::Complete,
                trust: AppleTrustAssessment::NotEstablished,
                proof_level: Some(AppleStaticProofLevel::StructureChecked),
                archive_alias: None,
                entries: Seq::empty(),
                manifest: None,
                der: v.1,
                warnings: Seq::empty(),
                limitations: Seq::empty(),
            },
        ),
    }
}

/// The inspection of `source`: context, limits and size checks; ZIP framing needs a declared
/// role and goes through the providers; anything else is parsed as an IMG4-family object.
pub open spec fn apple_spec(
    context: AppleFirmwareContext,
    source: Seq<u8>,
    request: AppleInspectRequest,
    limits: AppleFirmwareLimits,
    archive: Option<ArchiveAnswer>,
    manifest: Option<ManifestAnswer>,
) -> Result<AppleReportView, C04Error> {
    match apple_context_fault(context) {
        Some(e) => Err(e),
        None => if !apple_limits_valid(limits) {
            Err(C04Error::InvalidLimits)
        } else if source.len() > limits.max_source_bytes {
            Err(C04Error::SourceTooLarge)
        } else if zip_magic(source) {
            match request.archive_role {
                None => Err(C04Error::ArchiveRoleRequired),
                Some(role) => archive_report_spec(context.source_revision_ref@, source, role, limits, archive, manifest),
            }
        } else {
            der_report_spec(context.source_revision_ref@, source, limits)
        },
    }
}

/// The entries retained from an archive answer, when the alias and observation are valid.
pub open spec fn archive_entries_reached(archive: Option<ArchiveAnswer>, limits: AppleFirmwareLimits) -> Option<
    Seq<AppleEntryView>,
> {
    match archive {
        Some(a) => if apple_text_ok(a.0, limits) {
            match a.1 {
                Ok(o) => match archive_observation_spec(
                    a.0,
                    archive_obs_views(o.entries@),
                    o.complete_claim,
                    string_views(o.limitations@),
                    limits,
                ) {
                    Ok(v) => Some(v.0),
                    Err(_) => None,
                },
                Err(_) => None,
            }
        } else {
            None
        },
        None => None,
    }
}

/// Whether inspection of `source` reaches the archive providers, and in which role.
pub open spec fn archive_role_reached(
    context: AppleFirmwareContext,
    source: Seq<u8>,
    request: AppleInspectRequest,
    limits: AppleFirmwareLimits,
) -> bool {
    apple_context_fault(context) is None && apple_limits_valid(limits) && source.len() <= limits.max_source_bytes
        && zip_magic(source) && request.archive_role is Some
}

/// Whether an inspection result agrees with an expected result.
pub open spec fn apple_agrees(r: Result<AppleFirmwareReport, C04Error>, expected: Result<AppleReportView, C04Error>) -> bool {
    match r {
        Ok(rep) => expected == Ok::<AppleReportView, C04Error>(rep@),
        Err(e) => expected == Err::<AppleReportView, C04Error>(e),
    }
}

fn find_candidate(entries: &Vec<AppleArchiveEntry>) -> (r: Option<usize>)
    ensures
        match first_candidate(apple_entry_views(entries@)) {
            Some(e) => r matches Some(i) && i < entries@.len() && entries@[i as int].entry_view() == e,
            None => r is None,
        },
{
    let ghost es = apple_entry_views(entries@);
    let mut i: usize = 0;
    assert(es.skip(0) =~= es);
    while i < entries.len()
        invariant
            i <= entries@.len(),
            es == apple_entry_views(entries@),
            first_candidate(es) == first_candidate(es.skip(i as int)),
        decreases entries.len() - i,
    {
        assert(es.skip(i as int).len() > 0);
        assert(es.skip(i as int)[0] == entries@[i as int].entry_view());
        if entries[i].is_candidate() {
            return Some(i);
        }
        assert(es.skip(i as int).drop_first() =~= es.skip(i as int + 1));
        i = i + 1;
    }
    assert(es.skip(i as int) =~= Seq::<AppleEntryView>::empty());
    None
}

/// The limitations a validated manifest adds.
fn manifest_limitations(m: &AppleManifest) -> (r: Vec<String>)
    ensures
        string_views(r@) == m@.limitations + if m@.unresolved_paths.len() > 0 {
            seq![unresolved_note()]
        } else {
            Seq::<Seq<char>>::empty()
        },
{
    let mut out = copy_strings(&m.limitations);
    if m.unresolved_paths.len() > 0 {
        push_string(&mut out, owned("one or more manifest component paths did not resolve exactly"));
    } else {
        assert(string_views(out@) =~= m@.limitations + Seq::<Seq<char>>::empty());
    }
    out
}

/// Inspect ZIP framing under a declared role through the supplied providers.
fn inspect_archive(
    source: &[u8],
    context: &AppleFirmwareContext,
    role: AppleArchiveRole,
    limits: AppleFirmwareLimits,
    archive_provider: Option<&dyn AppleArchiveProvider>,
    manifest_provider: Option<&dyn AppleManifestProvider>,
) -> (r: Result<AppleFirmwareReport, C04Error>)
    ensures
        exists|a: Option<ArchiveAnswer>, m: Option<ManifestAnswer>|
            (a is Some == archive_provider is Some) && (m is Some == manifest_provider is Some) && ( archive_provider is Some ==> archive_provider->0.id_post((a->0).0) && (apple_text_ok((a->0).0, limits)
                ==> archive_provider->0.inspect_post(source@, role, limits, (a->0).1))) && ( manifest_provider is Some
                && archive_entries_reached(a, limits) is Some ==> manifest_provider->0.id_post((m->0).0) && (apple_text_ok(
                (m->0).0,
                limits,
            ) && first_candidate(archive_entries_reached(a, limits)->0) is Some ==> manifest_provider->0.inspect_post(
                (first_candidate(archive_entries_reached(a, limits)->0)->0).4,
                role,
                limits,
                (m->0).1,
            ))) && apple_agrees(
                r,
                #[trigger] archive_report_spec(context.source_revision_ref@, source@, role, limits, a, m),
            ),
        r matches Ok(rep) ==> forall|i: int|
            0 <= i < rep.archive_entries@.len() ==> apple_entry_sound(#[trigger] rep.archive_entries@[i].entry_view()),
        r matches Ok(rep) ==> rep.archive_entries@.len() > 0 ==> archive_provider is Some && exists|
            obs: crate::apple::AppleArchiveObservation,
        |
            archive_provider->0.inspect_post(source@, role, limits, Ok(obs)) && forall|i: int|
                0 <= i < rep.archive_entries@.len() ==> apple_entry_from(
                    archive_obs_views(obs.entries@),
                    #[trigger] rep.archive_entries@[i].entry_view(),
                ),
{
    let ghost rev = context.source_revision_ref@;
    let ghost mut ga: Option<ArchiveAnswer> = match archive_provider {
        Some(_) => Some(vstd::pervasive::arbitrary()),
        None => None,
    };
    let ghost mut gm: Option<ManifestAnswer> = match manifest_provider {
        Some(_) => Some(vstd::pervasive::arbitrary()),
        None => None,
    };
    let kind = match role {
        AppleArchiveRole::Ipsw => AppleFirmwareArtifactKind::IpswArchive,
        AppleArchiveRole::Ota => AppleFirmwareArtifactKind::OtaArchive,
    };
    let provider = match archive_provider {
        None => {
            let mut limitations: Vec<String> = Vec::new();
            push_string(&mut limitations, owned("archive Provider not supplied; ZIP framing alone is not inventory"));
            let rep = AppleFirmwareReport {
                source_revision_ref: context.source_revision_ref.duplicate(),
                source_sha256: sha256_hex(source),
                source_size: source.len() as u64,
                kind,
                assessment: AppleAssessment::Inconclusive,
                trust: AppleTrustAssessment::NotEstablished,
                proof_level: None,
                archive_provider_alias: None,
                archive_entries: Vec::new(),
                manifest: None,
                der_components: Vec::new(),
                warnings: Vec::new(),
                limitations,
            };
            assert(apple_entry_views(rep.archive_entries@) =~= Seq::<AppleEntryView>::empty());
            assert(crate::apple::der_component_values(rep.der_components@) =~= Seq::<DerComponentValue>::empty());
            assert(string_views(rep.warnings@) =~= Seq::<Seq<char>>::empty());
            assert(string_views(rep.limitations@) =~= seq![no_archive_provider_note()]);
            assert(apple_agrees(Ok(rep), archive_report_spec(rev, source@, role, limits, ga, gm)));
            return Ok(rep);
        },
        Some(p) => p,
    };
    let id = provider.provider_id();
    if check_apple_text(id, limits).is_err() {
        proof {
            ga = Some((id@, vstd::pervasive::arbitrary()));
        }
        assert(apple_agrees(Err(C04Error::InvalidString), archive_report_spec(rev, source@, role, limits, ga, gm)));
        return Err(C04Error::InvalidString);
    }
    let answer = provider.inspect_archive(source, role, limits);
    proof {
        ga = Some((id@, answer));
    }
    let obs = match answer {
        Err(msg) => {
            assert(apple_agrees(
                Err(C04Error::ArchiveProvider(msg)),
                archive_report_spec(rev, source@, role, limits, ga, gm),
            ));
            return Err(C04Error::ArchiveProvider(msg));
        },
        Ok(o) => o,
    };
    let (entries, complete, mut limitations) = match validate_archive_observation(&obs, id, limits) {
        Ok(x) => x,
        Err(e) => {
            assert(apple_agrees(Err(e), archive_report_spec(rev, source@, role, limits, ga, gm)));
            return Err(e);
        },
    };
    let ghost es = apple_entry_views(entries@);
    let ghost lims0 = string_views(limitations@);
    proof {
        lemma_archive_entries_sound(
            id@,
            archive_obs_views(obs.entries@),
            obs.complete_claim,
            string_views(obs.limitations@),
            limits,
        );
        assert forall|i: int| 0 <= i < entries@.len() implies apple_entry_sound(
            #[trigger] entries@[i].entry_view(),
        ) && apple_entry_from(archive_obs_views(obs.entries@), entries@[i].entry_view()) by {
            assert(es[i] == entries@[i].entry_view());
        }
        assert(provider.inspect_post(source@, role, limits, Ok(obs)));
    }
    let (manifest, mut extra) = match manifest_provider {
        None => {
            let mut v: Vec<String> = Vec::new();
            push_string(&mut v, owned("manifest Provider not supplied; archive inventory is not manifest linkage"));
            assert(string_views(v@) =~= seq![no_manifest_provider_note()]);
            (None, v)
        },
        Some(mp) => {
            let mid = mp.provider_id();
            if check_apple_text(mid, limits).is_err() {
                proof {
                    gm = Some((mid@, vstd::pervasive::arbitrary()));
                }
                assert(apple_agrees(Err(C04Error::InvalidString), archive_report_spec(rev, source@, role, limits, ga, gm)));
                return Err(C04Error::InvalidString);
            }
            match find_candidate(&entries) {
                None => {
                    proof {
                        gm = Some((mid@, vstd::pervasive::arbitrary()));
                    }
                    let mut v: Vec<String> = Vec::new();
                    push_string(&mut v, owned("no BuildManifest/restore-manifest candidate was retained"));
                    assert(string_views(v@) =~= seq![no_candidate_note()]);
                    (None, v)
                },
                Some(ci) => {
                    let mbytes = entries[ci].bytes();
                    let manswer = mp.inspect_manifest(mbytes, role, limits);
                    proof {
                        gm = Some((mid@, manswer));
                        entries@[ci as int].lemma_entry_content();
                        assert(archive_entries_reached(ga, limits) == Some(es));
                        assert(first_candidate(es) == Some(entries@[ci as int].entry_view()));
                        assert(mbytes@ == entries@[ci as int].entry_view().4);
                    }
                    let mobs = match manswer {
                        Err(msg) => {
                            assert(apple_agrees(
                                Err(C04Error::ManifestProvider(msg)),
                                archive_report_spec(rev, source@, role, limits, ga, gm),
                            ));
                            return Err(C04Error::ManifestProvider(msg));
                        },
                        Ok(o) => o,
                    };
                    match validate_manifest_observation(mid, &entries[ci], &entries, &mobs, limits) {
                        Err(e) => {
                            assert(apple_agrees(Err(e), archive_report_spec(rev, source@, role, limits, ga, gm)));
                            return Err(e);
                        },
                        Ok(m) => {
                            let v = manifest_limitations(&m);
                            (Some(m), v)
                        },
                    }
                },
            }
        },
    };
    let ghost mv = crate::apple::manifest_opt_view(manifest);
    let ghost extra0 = string_views(extra@);
    assert(manifest_stage(es, gm, limits) == Ok::<(Option<AppleManifestView>, Seq<Seq<char>>), C04Error>((mv, extra0)));
    limitations.append(&mut extra);
    assert(string_views(limitations@) =~= lims0 + extra0);
    let linked = match &manifest {
        Some(m) => m.complete_claim && m.unresolved_paths.len() == 0 && m.limitations.len() == 0,
        None => false,
    };
    assert(linked == manifest_linked(mv));
    let proof_level = if linked {
        AppleStaticProofLevel::ManifestLinked
    } else if complete {
        AppleStaticProofLevel::StructureChecked
    } else {
        AppleStaticProofLevel::InventoryOnly
    };
    let assessment = if complete && linked && limitations.len() == 0 {
        AppleAssessment::Complete
    } else {
        AppleAssessment::Partial
    };
    let rep = AppleFirmwareReport {
        source_revision_ref: context.source_revision_ref.duplicate(),
        source_sha256: sha256_hex(source),
        source_size: source.len() as u64,
        kind,
        assessment,
        trust: AppleTrustAssessment::NotEstablished,
        proof_level: Some(proof_level),
        archive_provider_alias: Some(owned(id)),
        archive_entries: entries,
        manifest,
        der_components: Vec::new(),
        warnings: Vec::new(),
        limitations,
    };
    assert(crate::apple::der_component_values(rep.der_components@) =~= Seq::<DerComponentValue>::empty());
    assert(string_views(rep.warnings@) =~= Seq::<Seq<char>>::empty());
    assert(rep@ == archive_assemble(rev, source@, role_kind(role), id@, es, complete, lims0, mv, extra0));
    assert(apple_agrees(Ok(rep), archive_report_spec(rev, source@, role, limits, ga, gm)));
    Ok(rep)
}

/// Inspect one immutable Apple firmware archive or IMG4-family object. The result is
/// `apple_spec` of the answers the supplied providers gave, whatever they were; without providers
/// it is `apple_spec(.., None, None)`.
pub fn inspect_apple_firmware(
    source: &[u8],
    context: &AppleFirmwareContext,
    request: AppleInspectRequest,
    limits: AppleFirmwareLimits,
    archive_provider: Option<&dyn AppleArchiveProvider>,
    manifest_provider: Option<&dyn AppleManifestProvider>,
) -> (r: Result<AppleFirmwareReport, C04Error>)
    ensures
        exists|a: Option<ArchiveAnswer>, m: Option<ManifestAnswer>|
            (a is Some == archive_provider is Some) && (m is Some == manifest_provider is Some) && (archive_role_reached(*context, source@, request, limits) && archive_provider is Some ==> archive_provider->0.id_post((a->0).0) && (apple_text_ok((a->0).0, limits)
                ==> archive_provider->0.inspect_post(source@, request.archive_role->0, limits, (a->0).1))) && (archive_role_reached(*context, source@, request, limits) && manifest_provider is Some
                && archive_entries_reached(a, limits) is Some ==> manifest_provider->0.id_post((m->0).0) && (apple_text_ok(
                (m->0).0,
                limits,
            ) && first_candidate(archive_entries_reached(a, limits)->0) is Some ==> manifest_provider->0.inspect_post(
                (first_candidate(archive_entries_reached(a, limits)->0)->0).4,
                request.archive_role->0,
                limits,
                (m->0).1,
            ))) && apple_agrees(
                r,
                #[trigger] apple_spec(*context, source@, request, limits, a, m),
            ),
        r matches Ok(rep) ==> forall|i: int|
            0 <= i < rep.archive_entries@.len() ==> apple_entry_sound(#[trigger] rep.archive_entries@[i].entry_view()),
        r matches Ok(rep) ==> rep.archive_entries@.len() > 0 ==> archive_provider is Some && request.archive_role is Some
            && exists|obs: crate::apple::AppleArchiveObservation|
            archive_provider->0.inspect_post(source@, request.archive_role->0, limits, Ok(obs)) && forall|i: int|
                0 <= i < rep.archive_entries@.len() ==> apple_entry_from(
                    archive_obs_views(obs.entries@),
                    #[trigger] rep.archive_entries@[i].entry_view(),
                ),
{
    let ghost ga: Option<ArchiveAnswer> = match archive_provider {
        Some(_) => Some(vstd::pervasive::arbitrary()),
        None => None,
    };
    let ghost gm: Option<ManifestAnswer> = match manifest_provider {
        Some(_) => Some(vstd::pervasive::arbitrary()),
        None => None,
    };
    if let Err(e) = validate_apple_context(context) {
        assert(apple_agrees(Err(e), apple_spec(*context, source@, request, limits, ga, gm)));
        return Err(e);
    }
    if let Err(e) = validate_apple_limits(limits) {
        assert(apple_agrees(Err(e), apple_spec(*context, source@, request, limits, ga, gm)));
        return Err(e);
    }
    if source.len() as u64 > limits.max_source_bytes {
        assert(apple_agrees(Err(C04Error::SourceTooLarge), apple_spec(*context, source@, request, limits, ga, gm)));
        return Err(C04Error::SourceTooLarge);
    }
    if looks_like_zip(source) {
        match request.archive_role {
            None => {
                assert(apple_agrees(
                    Err(C04Error::ArchiveRoleRequired),
                    apple_spec(*context, source@, request, limits, ga, gm),
                ));
                return Err(C04Error::ArchiveRoleRequired);
            },
            Some(role) => {
                let r = inspect_archive(source, context, role, limits, archive_provider, manifest_provider);
                proof {
                    let (a, m) = choose|a: Option<ArchiveAnswer>, m: Option<ManifestAnswer>|
                        (a is Some == archive_provider is Some) && (m is Some == manifest_provider is Some)
                            && ( archive_provider is Some ==> archive_provider->0.id_post((a->0).0) && (apple_text_ok((a->0).0, limits)
                ==> archive_provider->0.inspect_post(source@, role, limits, (a->0).1))) && ( manifest_provider is Some
                && archive_entries_reached(a, limits) is Some ==> manifest_provider->0.id_post((m->0).0) && (apple_text_ok(
                (m->0).0,
                limits,
            ) && first_candidate(archive_entries_reached(a, limits)->0) is Some ==> manifest_provider->0.inspect_post(
                (first_candidate(archive_entries_reached(a, limits)->0)->0).4,
                role,
                limits,
                (m->0).1,
            ))) && apple_agrees(
                            r,
                            #[trigger] archive_report_spec(context.source_revision_ref@, source@, role, limits, a, m),
                        );
                    assert(apple_agrees(r, apple_spec(*context, source@, request, limits, a, m)));
                }
                return r;
            },
        }
    }
    let (kind, comps) = match inspect_der(source, limits) {
        Ok(x) => x,
        Err(e) => {
            assert(apple_agrees(Err(e), apple_spec(*context, source@, request, limits, ga, gm)));
            return Err(e);
        },
    };
    let rep = AppleFirmwareReport {
        source_revision_ref: context.source_revision_ref.duplicate(),
        source_sha256: sha256_hex(source),
        source_size: source.len() as u64,
        kind,
        assessment: AppleAssessment::Complete,
        trust: AppleTrustAssessment::NotEstablished,
        proof_level: Some(AppleStaticProofLevel::StructureChecked),
        archive_provider_alias: None,
        archive_entries: Vec::new(),
        manifest: None,
        der_components: comps,
        warnings: Vec::new(),
        limitations: Vec::new(),
    };
    assert(apple_entry_views(rep.archive_entries@) =~= Seq::<AppleEntryView>::empty());
    assert(string_views(rep.warnings@) =~= Seq::<Seq<char>>::empty());
    assert(string_views(rep.limitations@) =~= Seq::<Seq<char>>::empty());
    assert(apple_agrees(Ok(rep), apple_spec(*context, source@, request, limits, ga, gm)));
    Ok(rep)
}

} // verus!
