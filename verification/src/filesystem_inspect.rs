//! Filesystem inspection through a replaceable provider, and exact regular-file materialization
//! from the resulting report.
use vstd::prelude::*;
use crate::digest::{sha256_hex, sha256_hex_of};
use crate::filesystem::{
    alias_ok, canonical_coverage_spec, canonicalize_coverage, complete_evidence_supported, complete_supported_spec,
    detect_filesystem, detect_spec, entries_spec, entry_views, exact_read_spec, filesystem_context_fault,
    filesystem_limits_valid, lemma_run_steps_c02_err, limitations_ok, metadata_ok, path_ok, range_is_exact_read,
    run_steps_c02, unknown_coverage, unknown_coverage_spec, validate_entries, validate_filesystem_context,
    validate_filesystem_limits, validate_limitations, validate_metadata, validate_path, validate_provider_alias,
    C02Error, DetectionView, EntryView, FilesystemAssessment, FilesystemContentState, FilesystemContext,
    FilesystemCoverageKind, FilesystemCoverageRange, FilesystemDetection, FilesystemEntry, FilesystemEntryKind,
    FilesystemExtent, FilesystemKind, FilesystemLimits, FilesystemProviderAlias,
};
use crate::identity::EntityRef;
use crate::partition_map::{copy_strings, push_string, string_views};
use crate::text::owned;
use crate::text_map::TextMap;

verus! {

/// Untrusted provider output about one filesystem.
#[derive(Debug)]
pub struct ProviderFilesystemObservation {
    /// Filesystem family the provider believes it inspected.
    pub filesystem_kind: FilesystemKind,
    /// Provider claim that the filesystem coverage is complete.
    pub complete_claim: bool,
    /// Provider inventory entries.
    pub entries: Vec<FilesystemEntry>,
    /// Provider byte-coverage evidence; gaps become unknown coverage.
    pub coverage: Vec<FilesystemCoverageRange>,
    /// Bounded filesystem-level metadata.
    pub metadata: TextMap,
    /// Provider limitations and unsupported features.
    pub limitations: Vec<String>,
}

/// Abstract value of a provider observation.
pub ghost struct ObservationView {
    /// Claimed family.
    pub kind: FilesystemKind,
    /// Completeness claim.
    pub complete_claim: bool,
    /// Entries.
    pub entries: Seq<EntryView>,
    /// Raw coverage.
    pub coverage: Seq<FilesystemCoverageRange>,
    /// Metadata pairs.
    pub metadata: Seq<(Seq<char>, Seq<char>)>,
    /// Limitations.
    pub limitations: Seq<Seq<char>>,
}

impl View for ProviderFilesystemObservation {
    type V = ObservationView;

    open spec fn view(&self) -> ObservationView {
        ObservationView {
            kind: self.filesystem_kind,
            complete_claim: self.complete_claim,
            entries: entry_views(self.entries@),
            coverage: self.coverage@,
            metadata: self.metadata@,
            limitations: string_views(self.limitations@),
        }
    }
}

/// Replaceable filesystem engine. Each method's answers are described by a relation the
/// implementation may state; by default any answer is allowed.
pub trait FilesystemProvider {
    /// Whether `r` is alias evidence this provider may give.
    open spec fn alias_post(&self, r: FilesystemProviderAlias) -> bool {
        true
    }

    /// Whether `r` is an answer this provider may give for supporting `kind`.
    open spec fn supports_post(&self, kind: FilesystemKind, r: bool) -> bool {
        true
    }

    /// Whether `r` is a result this provider may give for `source` read as `kind` under `limits`.
    open spec fn inspect_post(
        &self,
        source: Seq<u8>,
        kind: FilesystemKind,
        limits: FilesystemLimits,
        r: Result<ProviderFilesystemObservation, String>,
    ) -> bool {
        true
    }

    /// Alias evidence describing the concrete provider instance.
    fn alias(&self) -> (r: FilesystemProviderAlias)
        ensures
            self.alias_post(r),
    ;

    /// Whether this provider implements the requested filesystem family.
    fn supports(&self, kind: FilesystemKind) -> (r: bool)
        ensures
            self.supports_post(kind, r),
    ;

    /// Inspect exact immutable source bytes; a provider-specific message on failure.
    fn inspect(&self, source: &[u8], kind: FilesystemKind, limits: FilesystemLimits) -> (r: Result<
        ProviderFilesystemObservation,
        String,
    >)
        ensures
            self.inspect_post(source@, kind, limits, r),
    ;
}

/// What an inspection establishes about a filesystem source, apart from its source binding.
pub ghost struct FilesystemOutcome {
    /// Mechanical detection.
    pub detection: DetectionView,
    /// Provider alias evidence, when a provider was consulted.
    pub provider_alias: Option<FilesystemProviderAlias>,
    /// Truth assessment.
    pub assessment: FilesystemAssessment,
    /// Validated inventory.
    pub entries: Seq<EntryView>,
    /// Canonical coverage.
    pub coverage: Seq<FilesystemCoverageRange>,
    /// Provider metadata.
    pub metadata: Seq<(Seq<char>, Seq<char>)>,
    /// Limitations.
    pub limitations: Seq<Seq<char>>,
}

/// Limitation recorded when no provider was supplied.
pub open spec fn no_provider_note() -> Seq<char> {
    "no C02 filesystem Provider was supplied"@
}

/// Limitation recorded when no supported signature was found.
pub open spec fn outside_family_note() -> Seq<char> {
    "filesystem signature is outside the current C02 required family set"@
}

/// Limitation recorded when a provider left coverage incomplete without saying why.
pub open spec fn incomplete_note() -> Seq<char> {
    "Provider did not establish complete filesystem coverage"@
}

/// Assessment of validated evidence: a supported complete claim is complete; no entries and no
/// read coverage is inconclusive; anything else is partial.
pub open spec fn assessment_of(claim: bool, entries: Seq<EntryView>, cov: Seq<FilesystemCoverageRange>) -> FilesystemAssessment {
    if claim {
        FilesystemAssessment::Complete
    } else if entries.len() == 0 && !(exists|i: int| 0 <= i < cov.len() && (#[trigger] cov[i]).kind == FilesystemCoverageKind::Read) {
        FilesystemAssessment::Inconclusive
    } else {
        FilesystemAssessment::Partial
    }
}

/// A report outcome that records no provider evidence.
pub open spec fn inconclusive_outcome(detection: DetectionView, size: u64, note: Seq<char>) -> FilesystemOutcome {
    FilesystemOutcome {
        detection,
        provider_alias: None,
        assessment: FilesystemAssessment::Inconclusive,
        entries: Seq::empty(),
        coverage: unknown_coverage_spec(size),
        metadata: Seq::empty(),
        limitations: seq![note],
    }
}

/// Validated content of a provider observation: the canonical coverage, assessment and
/// limitations, or the first failure.
pub open spec fn observation_spec(kind: FilesystemKind, size: u64, o: ObservationView, limits: FilesystemLimits) -> Result<
    (Seq<FilesystemCoverageRange>, FilesystemAssessment, Seq<Seq<char>>),
    C02Error,
> {
    if o.kind != kind {
        Err(C02Error::ProviderKindMismatch)
    } else if !metadata_ok(o.metadata, limits) || !limitations_ok(o.limitations, limits) {
        Err(C02Error::MetadataTooLarge)
    } else {
        match canonical_coverage_spec(o.coverage, size, limits) {
            Err(e) => Err(e),
            Ok(cov) => match entries_spec(o.entries, cov, size, limits) {
                Err(e) => Err(e),
                Ok(_) => if o.complete_claim && !complete_supported_spec(o.entries, cov, o.limitations, size) {
                    Err(C02Error::FalseCompletenessClaim)
                } else {
                    let a = assessment_of(o.complete_claim, o.entries, cov);
                    let lims = if a != FilesystemAssessment::Complete && o.limitations.len() == 0 {
                        seq![incomplete_note()]
                    } else {
                        o.limitations
                    };
                    Ok((cov, a, lims))
                },
            },
        }
    }
}

/// A provider's answers: its alias, whether it supports the detected family, and the result of
/// its inspection.
pub type ProviderAnswer = (FilesystemProviderAlias, bool, Result<ProviderFilesystemObservation, String>);

/// The outcome of inspecting `source` under `context` and `limits`, given a provider's answers
/// or none.
pub open spec fn inspect_spec(context: FilesystemContext, source: Seq<u8>, limits: FilesystemLimits, answer: Option<ProviderAnswer>) -> Result<
    FilesystemOutcome,
    C02Error,
> {
    if filesystem_context_fault(context) is Some {
        Err(filesystem_context_fault(context)->0)
    } else if !filesystem_limits_valid(limits) {
        Err(C02Error::InvalidLimits)
    } else if source.len() > limits.max_source_bytes {
        Err(C02Error::SourceTooLarge)
    } else {
        let detection = detect_spec(source);
        let size = source.len() as u64;
        match answer {
            None => Ok(inconclusive_outcome(detection, size, no_provider_note())),
            Some((alias, supports, result)) => if detection.kind == FilesystemKind::Unknown {
                Ok(inconclusive_outcome(detection, size, outside_family_note()))
            } else if !alias_ok(alias, limits) {
                Err(C02Error::InvalidProviderAlias)
            } else if !supports {
                Err(C02Error::ProviderUnsupported)
            } else {
                match result {
                    Err(msg) => Err(C02Error::Provider(msg)),
                    Ok(obs) => match observation_spec(detection.kind, size, obs@, limits) {
                        Err(e) => Err(e),
                        Ok((cov, a, lims)) => Ok(
                            FilesystemOutcome {
                                detection,
                                provider_alias: Some(alias),
                                assessment: a,
                                entries: obs@.entries,
                                coverage: cov,
                                metadata: obs@.metadata,
                                limitations: lims,
                            },
                        ),
                    },
                }
            },
        }
    }
}

/// The answer is one the provider may give, for the calls an inspection makes: once a source
/// of a recognized family is inspected, the provider's alias; once that alias is valid, its
/// support answer for the detected family; and once it supports it, its inspection of `source`
/// as that family.
pub open spec fn filesystem_answer_from<P: FilesystemProvider>(
    p: &P,
    context: FilesystemContext,
    source: Seq<u8>,
    limits: FilesystemLimits,
    answer: ProviderAnswer,
) -> bool {
    let (alias, supports, result) = answer;
    let kind = detect_spec(source).kind;
    let reached = filesystem_context_fault(context) is None && filesystem_limits_valid(limits) && source.len()
        <= limits.max_source_bytes && kind != FilesystemKind::Unknown;
    &&& reached ==> p.alias_post(alias)
    &&& reached && alias_ok(alias, limits) ==> p.supports_post(kind, supports)
    &&& reached && alias_ok(alias, limits) && supports ==> p.inspect_post(source, kind, limits, result)
}

/// Canonical coverage, assessment and limitations drawn from a validated provider observation.
#[derive(Debug)]
pub struct ValidatedObservation {
    /// Canonical coverage.
    pub coverage: Vec<FilesystemCoverageRange>,
    /// Truth assessment.
    pub assessment: FilesystemAssessment,
    /// Limitations to report.
    pub limitations: Vec<String>,
}

/// Validate a provider observation of a `kind` filesystem of `source_size` bytes: family
/// agreement, bounded metadata and limitations, canonical coverage, a safe inventory and an
/// honest completeness claim.
pub fn validate_filesystem_observation(
    kind: FilesystemKind,
    source_size: u64,
    observation: &ProviderFilesystemObservation,
    limits: FilesystemLimits,
) -> (r: Result<ValidatedObservation, C02Error>)
    ensures
        r matches Ok(v) ==> observation_spec(kind, source_size, observation@, limits) == Ok::<
            (Seq<FilesystemCoverageRange>, FilesystemAssessment, Seq<Seq<char>>),
            C02Error,
        >((v.coverage@, v.assessment, string_views(v.limitations@))),
        r matches Err(e) ==> observation_spec(kind, source_size, observation@, limits) == Err::<
            (Seq<FilesystemCoverageRange>, FilesystemAssessment, Seq<Seq<char>>),
            C02Error,
        >(e),
{
    if observation.filesystem_kind != kind {
        return Err(C02Error::ProviderKindMismatch);
    }
    validate_metadata(&observation.metadata, limits)?;
    validate_limitations(&observation.limitations, limits)?;
    let coverage = canonicalize_coverage(&observation.coverage, source_size, limits)?;
    validate_entries(&observation.entries, coverage.as_slice(), source_size, limits)?;
    let can_be_complete = complete_evidence_supported(&observation.entries, &coverage, &observation.limitations, source_size);
    if observation.complete_claim && !can_be_complete {
        return Err(C02Error::FalseCompletenessClaim);
    }
    let assessment = if observation.complete_claim {
        FilesystemAssessment::Complete
    } else if observation.entries.len() == 0 && !any_read(&coverage) {
        FilesystemAssessment::Inconclusive
    } else {
        FilesystemAssessment::Partial
    };
    let mut limitations = copy_strings(&observation.limitations);
    if assessment != FilesystemAssessment::Complete && limitations.len() == 0 {
        push_string(&mut limitations, owned("Provider did not establish complete filesystem coverage"));
        assert(string_views(limitations@) =~= seq![incomplete_note()]);
    }
    Ok(ValidatedObservation { coverage, assessment, limitations })
}

fn any_read(coverage: &Vec<FilesystemCoverageRange>) -> (r: bool)
    ensures
        r == exists|i: int| 0 <= i < coverage@.len() && (#[trigger] coverage@[i]).kind == FilesystemCoverageKind::Read,
{
    let mut i: usize = 0;
    while i < coverage.len()
        invariant
            i <= coverage@.len(),
            forall|j: int| 0 <= j < i ==> (#[trigger] coverage@[j]).kind != FilesystemCoverageKind::Read,
        decreases coverage.len() - i,
    {
        if coverage[i].kind == FilesystemCoverageKind::Read {
            return true;
        }
        i = i + 1;
    }
    false
}

/// Source-bound filesystem report.
#[derive(Debug)]
pub struct FilesystemReport {
    /// Exact immutable source object revision.
    pub source_revision_ref: EntityRef,
    /// SHA-256 of exact source bytes.
    pub source_sha256: String,
    /// Exact source byte size.
    pub source_size: u64,
    /// Mechanically detected filesystem evidence.
    pub detection: FilesystemDetection,
    /// Concrete provider evidence, retained only as an alias.
    pub provider_alias: Option<FilesystemProviderAlias>,
    /// Truth assessment after validation.
    pub assessment: FilesystemAssessment,
    /// Validated filesystem inventory.
    pub entries: Vec<FilesystemEntry>,
    /// Exact read, unallocated, unknown and unsupported source coverage.
    pub coverage: Vec<FilesystemCoverageRange>,
    /// Bounded provider metadata.
    pub metadata: TextMap,
    /// Explicit partial or unsupported limitations.
    pub limitations: Vec<String>,
}

impl FilesystemReport {
    /// What the report records, apart from its source binding.
    pub open spec fn outcome(&self) -> FilesystemOutcome {
        FilesystemOutcome {
            detection: self.detection@,
            provider_alias: self.provider_alias,
            assessment: self.assessment,
            entries: entry_views(self.entries@),
            coverage: self.coverage@,
            metadata: self.metadata@,
            limitations: string_views(self.limitations@),
        }
    }

    /// The report is bound to `context`'s source revision and to exactly the bytes `source`.
    pub open spec fn bound_to(&self, context: FilesystemContext, source: Seq<u8>) -> bool {
        &&& self.source_revision_ref@ == context.source_revision_ref@
        &&& self.source_sha256@ == sha256_hex_of(source)
        &&& self.source_size == source.len()
    }
}

/// Whether an inspection result agrees with an expected outcome and is bound to its source.
pub open spec fn report_agrees(
    r: Result<FilesystemReport, C02Error>,
    expected: Result<FilesystemOutcome, C02Error>,
    context: FilesystemContext,
    source: Seq<u8>,
) -> bool {
    match r {
        Ok(rep) => expected == Ok::<FilesystemOutcome, C02Error>(rep.outcome()) && rep.bound_to(context, source),
        Err(e) => expected == Err::<FilesystemOutcome, C02Error>(e),
    }
}

fn inconclusive_report(
    context: &FilesystemContext,
    source: &[u8],
    detection: FilesystemDetection,
    note: &str,
) -> (rep: FilesystemReport)
    ensures
        rep.bound_to(*context, source@),
        rep.outcome() == inconclusive_outcome(detection@, source@.len() as u64, note@),
{
    let source_size = source.len() as u64;
    let mut limitations: Vec<String> = Vec::new();
    push_string(&mut limitations, owned(note));
    assert(string_views(limitations@) =~= seq![note@]);
    let rep = FilesystemReport {
        source_revision_ref: context.source_revision_ref.duplicate(),
        source_sha256: sha256_hex(source),
        source_size,
        detection,
        provider_alias: None,
        assessment: FilesystemAssessment::Inconclusive,
        entries: Vec::new(),
        coverage: unknown_coverage(source_size),
        metadata: TextMap::new(),
        limitations,
    };
    assert(entry_views(rep.entries@) =~= Seq::<EntryView>::empty());
    assert(rep.metadata@ =~= Seq::<(Seq<char>, Seq<char>)>::empty());
    rep
}

/// Inspect one immutable filesystem source: detect its family mechanically, and, when a provider
/// is supplied and the family is recognized, validate the provider's observation against the
/// source.
///
/// Without a provider the result is exactly `inspect_spec(.., None)`; with one, it is
/// `inspect_spec` of the answers that provider gave, whatever they were.
pub fn inspect_filesystem<P: FilesystemProvider>(
    source: &[u8],
    context: &FilesystemContext,
    limits: FilesystemLimits,
    provider: Option<&P>,
) -> (r: Result<FilesystemReport, C02Error>)
    ensures
        provider is None ==> report_agrees(r, inspect_spec(*context, source@, limits, None), *context, source@),
        provider is Some ==> exists|answer: ProviderAnswer|
            filesystem_answer_from(provider->0, *context, source@, limits, answer) && report_agrees(
                r,
                #[trigger] inspect_spec(*context, source@, limits, Some(answer)),
                *context,
                source@,
            ),
{
    let ghost any_answer: ProviderAnswer = vstd::pervasive::arbitrary();
    if let Err(e) = validate_filesystem_context(context) {
        assert(report_agrees(Err(e), inspect_spec(*context, source@, limits, Some(any_answer)), *context, source@));
        return Err(e);
    }
    if let Err(e) = validate_filesystem_limits(limits) {
        assert(report_agrees(Err(e), inspect_spec(*context, source@, limits, Some(any_answer)), *context, source@));
        return Err(e);
    }
    let source_size = source.len() as u64;
    if source_size > limits.max_source_bytes {
        assert(report_agrees(
            Err(C02Error::SourceTooLarge),
            inspect_spec(*context, source@, limits, Some(any_answer)),
            *context,
            source@,
        ));
        return Err(C02Error::SourceTooLarge);
    }
    let detection = detect_filesystem(source);
    let p = match provider {
        None => {
            return Ok(inconclusive_report(context, source, detection, "no C02 filesystem Provider was supplied"));
        },
        Some(p) => p,
    };
    if detection.kind == FilesystemKind::Unknown {
        let rep = inconclusive_report(
            context,
            source,
            detection,
            "filesystem signature is outside the current C02 required family set",
        );
        assert(report_agrees(Ok(rep), inspect_spec(*context, source@, limits, Some(any_answer)), *context, source@));
        return Ok(rep);
    }
    let kind = detection.kind;
    let alias = p.alias();
    if let Err(e) = validate_provider_alias(&alias, limits) {
        let ghost answer: ProviderAnswer = (alias, true, any_answer.2);
        assert(report_agrees(Err(e), inspect_spec(*context, source@, limits, Some(answer)), *context, source@));
        return Err(e);
    }
    if !p.supports(kind) {
        let ghost answer: ProviderAnswer = (alias, false, any_answer.2);
        assert(report_agrees(
            Err(C02Error::ProviderUnsupported),
            inspect_spec(*context, source@, limits, Some(answer)),
            *context,
            source@,
        ));
        return Err(C02Error::ProviderUnsupported);
    }
    let result = p.inspect(source, kind, limits);
    let ghost answer: ProviderAnswer = (alias, true, result);
    let observation = match result {
        Err(msg) => {
            assert(report_agrees(
                Err(C02Error::Provider(msg)),
                inspect_spec(*context, source@, limits, Some(answer)),
                *context,
                source@,
            ));
            return Err(C02Error::Provider(msg));
        },
        Ok(o) => o,
    };
    let validated = match validate_filesystem_observation(kind, source_size, &observation, limits) {
        Err(e) => {
            assert(report_agrees(Err(e), inspect_spec(*context, source@, limits, Some(answer)), *context, source@));
            return Err(e);
        },
        Ok(v) => v,
    };
    let ProviderFilesystemObservation { filesystem_kind: _, complete_claim: _, entries, coverage: _, metadata, limitations: _ } =
        observation;
    let rep = FilesystemReport {
        source_revision_ref: context.source_revision_ref.duplicate(),
        source_sha256: sha256_hex(source),
        source_size,
        detection,
        provider_alias: Some(alias),
        assessment: validated.assessment,
        entries,
        coverage: validated.coverage,
        metadata,
        limitations: validated.limitations,
    };
    assert(report_agrees(Ok(rep), inspect_spec(*context, source@, limits, Some(answer)), *context, source@));
    Ok(rep)
}

// ---------------------------------------------------------------------------------------------
// Exact file materialization
// ---------------------------------------------------------------------------------------------

/// Exact immutable regular-file bytes materialized from a report.
#[derive(Debug)]
pub struct FilesystemFileMaterialization {
    /// Validated inventory entry.
    pub entry: FilesystemEntry,
    /// Exact source object revision.
    pub source_revision_ref: EntityRef,
    /// SHA-256 of the exact materialized file bytes.
    pub sha256: String,
    bytes: Vec<u8>,
}

impl FilesystemFileMaterialization {
    /// The materialized bytes.
    pub closed spec fn content(&self) -> Seq<u8> {
        self.bytes@
    }

    /// The materialized entry.
    pub closed spec fn entry_view(&self) -> EntryView {
        self.entry@
    }

    /// The source revision the bytes were drawn from.
    pub closed spec fn revision_view(&self) -> (Seq<char>, Seq<char>) {
        self.source_revision_ref@
    }

    /// The recorded digest text.
    pub closed spec fn digest_view(&self) -> Seq<char> {
        self.sha256@
    }

    /// Exact immutable file bytes.
    pub fn bytes(&self) -> (r: &[u8])
        ensures
            r@ == self.content(),
    {
        self.bytes.as_slice()
    }
}

/// `i` is the first entry of `es` whose path is `p`.
pub open spec fn first_path_at(es: Seq<EntryView>, p: Seq<char>, i: int) -> bool {
    &&& 0 <= i < es.len()
    &&& es[i].path == p
    &&& forall|j: int| 0 <= j < i ==> (#[trigger] es[j]).path != p
}

/// Append the bytes of one extent: exact read source bytes, or zero bytes for a hole that keeps
/// the output within the file size and the materialization bound.
pub open spec fn extent_bytes(
    x: FilesystemExtent,
    out: Seq<u8>,
    source: Seq<u8>,
    cov: Seq<FilesystemCoverageRange>,
    size: u64,
    limits: FilesystemLimits,
) -> Result<Seq<u8>, C02Error> {
    match x {
        FilesystemExtent::Data { source_start, source_end_exclusive } => if !exact_read_spec(
            cov,
            source_start,
            source_end_exclusive,
        ) {
            Err(C02Error::ExtentNotReadable)
        } else if source_end_exclusive > source.len() {
            Err(C02Error::InvalidExtent)
        } else {
            Ok(out + source.subrange(source_start as int, source_end_exclusive as int))
        },
        FilesystemExtent::Zero { length } => {
            let next = out.len() + length;
            if next > u64::MAX {
                Err(C02Error::AccountingOverflow)
            } else if next > size || next > limits.max_materialize_bytes || next > usize::MAX {
                Err(C02Error::MaterializationTooLarge)
            } else {
                Ok(out + Seq::new(length as nat, |i: int| 0u8))
            }
        },
    }
}

/// Step `k` of materializing a file with extents `xs`.
pub open spec fn extent_stepper(
    xs: Seq<FilesystemExtent>,
    source: Seq<u8>,
    cov: Seq<FilesystemCoverageRange>,
    size: u64,
    limits: FilesystemLimits,
) -> spec_fn(Seq<u8>, int) -> Result<Seq<u8>, C02Error> {
    |out: Seq<u8>, k: int| extent_bytes(xs[k], out, source, cov, size, limits)
}

/// The bytes of an exact regular file, when its extents, size and digest all agree.
pub open spec fn file_bytes_spec(e: EntryView, source: Seq<u8>, cov: Seq<FilesystemCoverageRange>, limits: FilesystemLimits) -> Result<
    Seq<u8>,
    C02Error,
> {
    if e.kind != FilesystemEntryKind::File || e.content_state != FilesystemContentState::Exact {
        Err(C02Error::EntryNotMaterializable)
    } else if e.size > limits.max_materialize_bytes {
        Err(C02Error::MaterializationTooLarge)
    } else {
        match run_steps_c02(Seq::<u8>::empty(), extent_stepper(e.extents, source, cov, e.size, limits), e.extents.len()) {
            Err(err) => Err(err),
            Ok(out) => if out.len() != e.size {
                Err(C02Error::ExactFileMismatch)
            } else if e.content_sha256 != Some(sha256_hex_of(out)) {
                Err(C02Error::MaterializedDigestMismatch)
            } else {
                Ok(out)
            },
        }
    }
}

/// The entry and bytes that materializing `path` from `report` yields, or the first failure.
pub open spec fn materialize_spec(
    source: Seq<u8>,
    report: FilesystemReport,
    path: Seq<char>,
    context: FilesystemContext,
    limits: FilesystemLimits,
) -> Result<(EntryView, Seq<u8>), C02Error> {
    let es = report.outcome().entries;
    if filesystem_context_fault(context) is Some {
        Err(filesystem_context_fault(context)->0)
    } else if !filesystem_limits_valid(limits) {
        Err(C02Error::InvalidLimits)
    } else if !report.bound_to(context, source) {
        Err(C02Error::SourceBindingMismatch)
    } else if !path_ok(path, limits) {
        Err(C02Error::UnsafePath)
    } else if !(exists|i: int| first_path_at(es, path, i)) {
        Err(C02Error::EntryNotFound)
    } else {
        let e = es[choose|i: int| first_path_at(es, path, i)];
        match file_bytes_spec(e, source, report.coverage@, limits) {
            Err(err) => Err(err),
            Ok(out) => Ok((e, out)),
        }
    }
}

fn copy_extents(xs: &Vec<FilesystemExtent>) -> (r: Vec<FilesystemExtent>)
    ensures
        r@ == xs@,
{
    let mut out: Vec<FilesystemExtent> = Vec::new();
    let mut i: usize = 0;
    while i < xs.len()
        invariant
            i <= xs@.len(),
            out@ == xs@.take(i as int),
        decreases xs.len() - i,
    {
        out.push(xs[i]);
        assert(xs@.take(i as int + 1) =~= xs@.take(i as int).push(xs@[i as int]));
        i = i + 1;
    }
    assert(xs@.take(xs@.len() as int) =~= xs@);
    out
}

fn copy_entry(e: &FilesystemEntry) -> (r: FilesystemEntry)
    ensures
        r@ == e@,
{
    FilesystemEntry {
        path: e.path.clone(),
        kind: e.kind,
        size: e.size,
        content_state: e.content_state,
        extents: copy_extents(&e.extents),
        content_sha256: crate::partition_map::clone_opt_string(&e.content_sha256),
        metadata: e.metadata.duplicate(),
        limitations: copy_strings(&e.limitations),
    }
}

fn find_entry(entries: &Vec<FilesystemEntry>, path: &str) -> (r: Option<usize>)
    ensures
        r matches Some(i) ==> first_path_at(entry_views(entries@), path@, i as int),
        r is None ==> !(exists|i: int| first_path_at(entry_views(entries@), path@, i)),
{
    let ghost es = entry_views(entries@);
    let p = String::from_str(path);
    let mut i: usize = 0;
    while i < entries.len()
        invariant
            i <= es.len(),
            es == entry_views(entries@),
            p@ == path@,
            forall|j: int| 0 <= j < i ==> (#[trigger] es[j]).path != path@,
        decreases es.len() - i,
    {
        assert(es[i as int] == entries@[i as int]@);
        if entries[i].path == p {
            return Some(i);
        }
        i = i + 1;
    }
    proof {
        assert forall|i: int| !first_path_at(es, path@, i) by {
            if 0 <= i < es.len() {
                assert(es[i].path != path@);
            }
        }
    }
    None
}

fn append_source(output: &mut Vec<u8>, source: &[u8], start: usize, end: usize)
    requires
        start < end <= source@.len(),
    ensures
        final(output)@ == old(output)@ + source@.subrange(start as int, end as int),
{
    let ghost before = output@;
    let mut j: usize = start;
    while j < end
        invariant
            start <= j <= end,
            end <= source@.len(),
            output@ == before + source@.subrange(start as int, j as int),
        decreases end - j,
    {
        output.push(source[j]);
        assert(source@.subrange(start as int, j as int + 1) =~= source@.subrange(start as int, j as int).push(
            source@[j as int],
        ));
        j = j + 1;
    }
}

fn append_zeros(output: &mut Vec<u8>, next: usize)
    requires
        old(output)@.len() <= next,
    ensures
        final(output)@ == old(output)@ + Seq::new((next - old(output)@.len()) as nat, |i: int| 0u8),
{
    let ghost before = output@;
    while output.len() < next
        invariant
            before.len() <= output@.len() <= next,
            output@ == before + Seq::new((output@.len() - before.len()) as nat, |i: int| 0u8),
        decreases next - output@.len(),
    {
        let ghost n = output@.len();
        output.push(0u8);
        assert(Seq::new((n + 1 - before.len()) as nat, |i: int| 0u8) =~= Seq::new(
            (n - before.len()) as nat,
            |i: int| 0u8,
        ).push(0u8));
    }
}

fn file_bytes(entry: &FilesystemEntry, source: &[u8], coverage: &[FilesystemCoverageRange], limits: FilesystemLimits) -> (r:
    Result<Vec<u8>, C02Error>)
    ensures
        r matches Ok(out) ==> file_bytes_spec(entry@, source@, coverage@, limits) == Ok::<Seq<u8>, C02Error>(out@),
        r matches Err(e) ==> file_bytes_spec(entry@, source@, coverage@, limits) == Err::<Seq<u8>, C02Error>(e),
{
    if entry.kind != FilesystemEntryKind::File || entry.content_state != FilesystemContentState::Exact {
        return Err(C02Error::EntryNotMaterializable);
    }
    if entry.size > limits.max_materialize_bytes {
        return Err(C02Error::MaterializationTooLarge);
    }
    let ghost e = entry@;
    let ghost step = extent_stepper(e.extents, source@, coverage@, e.size, limits);
    let ghost init = Seq::<u8>::empty();
    let mut output: Vec<u8> = Vec::new();
    let mut k: usize = 0;
    while k < entry.extents.len()
        invariant
            k <= e.extents.len(),
            e == entry@,
            e.kind == FilesystemEntryKind::File,
            e.content_state == FilesystemContentState::Exact,
            e.size <= limits.max_materialize_bytes,
            init == Seq::<u8>::empty(),
            step == extent_stepper(e.extents, source@, coverage@, e.size, limits),
            run_steps_c02(init, step, k as nat) == Ok::<Seq<u8>, C02Error>(output@),
        decreases e.extents.len() - k,
    {
        assert(run_steps_c02(init, step, (k + 1) as nat) == step(output@, k as int));
        match entry.extents[k] {
            FilesystemExtent::Data { source_start, source_end_exclusive } => {
                if !range_is_exact_read(coverage, source_start, source_end_exclusive) {
                    proof { lemma_run_steps_c02_err(init, step, (k + 1) as nat, e.extents.len()); }
                    return Err(C02Error::ExtentNotReadable);
                }
                if source_end_exclusive > source.len() as u64 {
                    proof { lemma_run_steps_c02_err(init, step, (k + 1) as nat, e.extents.len()); }
                    return Err(C02Error::InvalidExtent);
                }
                append_source(&mut output, source, source_start as usize, source_end_exclusive as usize);
            },
            FilesystemExtent::Zero { length } => {
                let cur = output.len() as u64;
                if length > u64::MAX - cur {
                    proof { lemma_run_steps_c02_err(init, step, (k + 1) as nat, e.extents.len()); }
                    return Err(C02Error::AccountingOverflow);
                }
                let next = cur + length;
                if next > entry.size || next > limits.max_materialize_bytes || next > usize::MAX as u64 {
                    proof { lemma_run_steps_c02_err(init, step, (k + 1) as nat, e.extents.len()); }
                    return Err(C02Error::MaterializationTooLarge);
                }
                append_zeros(&mut output, next as usize);
            },
        }
        k = k + 1;
    }
    if output.len() as u64 != entry.size {
        return Err(C02Error::ExactFileMismatch);
    }
    let digest = sha256_hex(output.as_slice());
    let matches = match &entry.content_sha256 {
        Some(d) => *d == digest,
        None => false,
    };
    if !matches {
        return Err(C02Error::MaterializedDigestMismatch);
    }
    Ok(output)
}

/// Materialize one exact regular file from a report, without following links or provider mount
/// paths: the report must be bound to `source` and `context`, the path safe, and the entry an
/// exact regular file whose extents are backed by read coverage and whose bytes match its size and
/// digest.
pub fn materialize_filesystem_file(
    source: &[u8],
    report: &FilesystemReport,
    path: &str,
    context: &FilesystemContext,
    limits: FilesystemLimits,
) -> (r: Result<FilesystemFileMaterialization, C02Error>)
    ensures
        r matches Ok(m) ==> materialize_spec(source@, *report, path@, *context, limits) == Ok::<
            (EntryView, Seq<u8>),
            C02Error,
        >((m.entry_view(), m.content())) && m.revision_view() == context.source_revision_ref@
            && m.digest_view() == sha256_hex_of(m.content()),
        r matches Err(e) ==> materialize_spec(source@, *report, path@, *context, limits) == Err::<
            (EntryView, Seq<u8>),
            C02Error,
        >(e),
{
    validate_filesystem_context(context)?;
    validate_filesystem_limits(limits)?;
    if !report.source_revision_ref.same_as(&context.source_revision_ref) || report.source_sha256 != sha256_hex(source)
        || report.source_size != source.len() as u64 {
        return Err(C02Error::SourceBindingMismatch);
    }
    validate_path(path, limits)?;
    let i = match find_entry(&report.entries, path) {
        None => {
            return Err(C02Error::EntryNotFound);
        },
        Some(i) => i,
    };
    let ghost es = entry_views(report.entries@);
    proof {
        let c = choose|j: int| first_path_at(es, path@, j);
        assert(first_path_at(es, path@, c));
        if c < i {
            assert(es[c].path != path@);
        } else if c > i {
            assert(es[i as int].path != path@);
        }
        assert(c == i);
    }
    let entry = &report.entries[i];
    assert(es[i as int] == entry@);
    let bytes = file_bytes(entry, source, report.coverage.as_slice(), limits)?;
    let digest = sha256_hex(bytes.as_slice());
    Ok(FilesystemFileMaterialization {
        entry: copy_entry(entry),
        source_revision_ref: context.source_revision_ref.duplicate(),
        sha256: digest,
        bytes,
    })
}

} // verus!
